use vstd::prelude::*;

verus! {

/// The bitboard with only square `i` set.
pub open spec fn bit(i: int) -> u64 {
    1u64 << (i as u64)
}

/// Whether square `i` is set in the bitboard `bb`.
pub open spec fn is_set(bb: u64, i: int) -> bool {
    (bb >> (i as u64)) & 1u64 == 1u64
}

pub proof fn lemma_is_set_or(a: u64, b: u64, i: int)
    requires
        0 <= i < 64,
    ensures
        is_set(a | b, i) == (is_set(a, i) || is_set(b, i)),
{
    let j = i as u64;
    assert(((a | b) >> j) & 1u64 == 1u64 <==> ((a >> j) & 1u64 == 1u64 || (b >> j) & 1u64
        == 1u64)) by (bit_vector);
}

pub proof fn lemma_is_set_bit(j: int, i: int)
    requires
        0 <= i < 64,
        0 <= j < 64,
    ensures
        is_set(bit(j), i) == (i == j),
{
    let x = i as u64;
    let y = j as u64;
    assert(x < 64 && y < 64 ==> (((1u64 << y) >> x) & 1u64 == 1u64 <==> x == y)) by (bit_vector);
}

pub proof fn lemma_is_set_or_bit(a: u64, j: int, i: int)
    requires
        0 <= i < 64,
        0 <= j < 64,
    ensures
        is_set(a | bit(j), i) == (is_set(a, i) || i == j),
{
    lemma_is_set_or(a, bit(j), i);
    lemma_is_set_bit(j, i);
}

pub proof fn lemma_is_set_and_not_bit(a: u64, j: int, i: int)
    requires
        0 <= i < 64,
        0 <= j < 64,
    ensures
        is_set(a & !bit(j), i) == (is_set(a, i) && i != j),
{
    let x = i as u64;
    let y = j as u64;
    assert(x < 64 && y < 64 ==> (((a & !(1u64 << y)) >> x) & 1u64 == 1u64 <==> ((a >> x) & 1u64
        == 1u64 && x != y))) by (bit_vector);
}

pub proof fn lemma_and_bit_nonzero(a: u64, i: int)
    requires
        0 <= i < 64,
    ensures
        (a & bit(i) != 0) == is_set(a, i),
        (bit(i) & a != 0) == is_set(a, i),
{
    let x = i as u64;
    assert(x < 64 ==> ((a & (1u64 << x) != 0) <==> (a >> x) & 1u64 == 1u64) && (((1u64 << x) & a
        != 0) <==> (a >> x) & 1u64 == 1u64)) by (bit_vector);
}

pub proof fn lemma_is_set_zero(i: int)
    requires
        0 <= i < 64,
    ensures
        !is_set(0, i),
{
    let x = i as u64;
    assert(x < 64 ==> (0u64 >> x) & 1u64 == 0u64) by (bit_vector);
}

pub proof fn lemma_bit_facts(i: int, j: int)
    requires
        0 <= i < 64,
        0 <= j < 64,
    ensures
        bit(i) != 0,
        (bit(i) == bit(j)) == (i == j),
{
    let x = i as u64;
    let y = j as u64;
    assert((x < 64 ==> (1u64 << x) != 0u64) && (x < 64 && y < 64 ==> ((1u64 << x) == (1u64 << y)
        <==> x == y))) by (bit_vector);
}

} // verus!
