use vstd::prelude::*;
use crate::board::piece::{Color, Piece, piece_index};
use crate::board::square::Square;
use vstd::wrapping::u64_specs::{wrapping_add, wrapping_mul};

verus! {

/// The increment of the splitmix64 state.
pub const GOLDEN_GAMMA: u64 = 0x9e3779b97f4a7c15;

pub const MIX_MULTIPLIER_1: u64 = 0xbf58476d1ce4e5b9;

pub const MIX_MULTIPLIER_2: u64 = 0x94d049bb133111eb;

/// The splitmix64 state after `n` draws from the zero state.
pub open spec fn splitmix_state(n: nat) -> u64
    decreases n,
{
    if n == 0 {
        0
    } else {
        wrapping_add(splitmix_state((n - 1) as nat), GOLDEN_GAMMA)
    }
}

/// The output that splitmix64 derives from the state `z`.
#[verifier::opaque]
pub open spec fn splitmix_mix(z: u64) -> u64 {
    let a = wrapping_mul(z ^ (z >> 30u64), MIX_MULTIPLIER_1);
    let b = wrapping_mul(a ^ (a >> 27u64), MIX_MULTIPLIER_2);
    b ^ (b >> 31u64)
}

/// The `k`-th number (counting from 0) that splitmix64 draws from the zero state.
pub open spec fn random_number(k: nat) -> u64 {
    splitmix_mix(splitmix_state(k + 1))
}

/// The hash key of `piece` of `color` on the square of index `square`: the keys are drawn
/// piece kind by piece kind, square by square, white's before black's.
pub open spec fn piece_key(color: Color, piece: Piece, square: int) -> u64 {
    let slot = 64 * piece_index(piece) + square;
    match color {
        Color::White => random_number((2 * slot) as nat),
        Color::Black => random_number((2 * slot + 1) as nat),
    }
}

/// The hash key of an en passant square in column `column`.
pub open spec fn en_passant_key(column: int) -> u64 {
    random_number((768 + column) as nat)
}

/// The hash key of the castle towards column 0 of `color`.
pub open spec fn castle_left_key(color: Color) -> u64 {
    match color {
        Color::White => random_number(776),
        Color::Black => random_number(778),
    }
}

/// The hash key of the castle towards column 7 of `color`.
pub open spec fn castle_right_key(color: Color) -> u64 {
    match color {
        Color::White => random_number(777),
        Color::Black => random_number(779),
    }
}

/// The hash key of black to move.
pub open spec fn turn_key() -> u64 {
    random_number(780)
}

/// The state after `n` draws is `n` times the increment, modulo 2^64.
proof fn lemma_splitmix_state(n: nat)
    ensures
        splitmix_state(n) as int == (n * GOLDEN_GAMMA) % 0x10000000000000000,
    decreases n,
{
    if n > 0 {
        lemma_splitmix_state((n - 1) as nat);
        let m: int = 0x10000000000000000;
        vstd::arithmetic::div_mod::lemma_add_mod_noop(((n - 1) * GOLDEN_GAMMA) as int, GOLDEN_GAMMA as int, m);
        vstd::arithmetic::div_mod::lemma_mod_twice(GOLDEN_GAMMA as int, m);
        assert((n - 1) * GOLDEN_GAMMA + GOLDEN_GAMMA == n * GOLDEN_GAMMA) by (nonlinear_arith);
        let prev = splitmix_state((n - 1) as nat) as int;
        if prev + GOLDEN_GAMMA > u64::MAX {
            vstd::arithmetic::div_mod::lemma_mod_sub_multiples_vanish(prev + GOLDEN_GAMMA, m);
            vstd::arithmetic::div_mod::lemma_small_mod((prev + GOLDEN_GAMMA - m) as nat, m as nat);
        } else {
            vstd::arithmetic::div_mod::lemma_small_mod((prev + GOLDEN_GAMMA) as nat, m as nat);
        }
    }
}

/// Multiplying by `c` modulo 2^64 is undone by multiplying by `inverse`.
proof fn lemma_mul_undone(x: int, c: int, inverse: int)
    requires
        (c * inverse) % 0x10000000000000000 == 1,
    ensures
        ((x * c) % 0x10000000000000000) * inverse % 0x10000000000000000 == x % 0x10000000000000000,
{
    let m: int = 0x10000000000000000;
    vstd::arithmetic::div_mod::lemma_mul_mod_noop_left(x * c, inverse, m);
    vstd::arithmetic::mul::lemma_mul_is_associative(x, c, inverse);
    vstd::arithmetic::div_mod::lemma_mul_mod_noop_right(x, c * inverse, m);
}

/// Wrapping multiplication by an odd constant with an inverse modulo 2^64 tells its inputs
/// apart.
proof fn lemma_wrapping_mul_injective(x: u64, y: u64, c: u64, inverse: int)
    requires
        (c * inverse) % 0x10000000000000000 == 1,
        wrapping_mul(x, c) == wrapping_mul(y, c),
    ensures
        x == y,
{
    lemma_mul_undone(x as int, c as int, inverse);
    lemma_mul_undone(y as int, c as int, inverse);
    vstd::arithmetic::div_mod::lemma_small_mod(x as nat, 0x10000000000000000nat);
    vstd::arithmetic::div_mod::lemma_small_mod(y as nat, 0x10000000000000000nat);
}

/// The splitmix64 output tells its states apart, and only the zero state gives 0.
proof fn lemma_splitmix_mix_injective(z: u64, w: u64)
    ensures
        splitmix_mix(z) == splitmix_mix(w) ==> z == w,
        splitmix_mix(0) == 0,
{
    reveal(splitmix_mix);
    let a1 = z ^ (z >> 30u64);
    let a2 = w ^ (w >> 30u64);
    let b1 = wrapping_mul(a1, MIX_MULTIPLIER_1);
    let b2 = wrapping_mul(a2, MIX_MULTIPLIER_1);
    let c1 = b1 ^ (b1 >> 27u64);
    let c2 = b2 ^ (b2 >> 27u64);
    let d1 = wrapping_mul(c1, MIX_MULTIPLIER_2);
    let d2 = wrapping_mul(c2, MIX_MULTIPLIER_2);
    assert(MIX_MULTIPLIER_1 * 0x96de1b173f119089int % 0x10000000000000000 == 1);
    assert(MIX_MULTIPLIER_2 * 0x319642b2d24d8ec3int % 0x10000000000000000 == 1);
    if splitmix_mix(z) == splitmix_mix(w) {
        assert(d1 ^ (d1 >> 31u64) == d2 ^ (d2 >> 31u64));
        assert(d1 ^ (d1 >> 31u64) == d2 ^ (d2 >> 31u64) ==> d1 == d2) by (bit_vector);
        lemma_wrapping_mul_injective(c1, c2, MIX_MULTIPLIER_2, 0x319642b2d24d8ec3);
        assert(b1 ^ (b1 >> 27u64) == b2 ^ (b2 >> 27u64) ==> b1 == b2) by (bit_vector);
        lemma_wrapping_mul_injective(a1, a2, MIX_MULTIPLIER_1, 0x96de1b173f119089);
        assert(z ^ (z >> 30u64) == w ^ (w >> 30u64) ==> z == w) by (bit_vector);
    }
    assert(0u64 ^ (0u64 >> 30u64) == 0u64) by (bit_vector);
    assert(0u64 ^ (0u64 >> 27u64) == 0u64) by (bit_vector);
    assert(0u64 ^ (0u64 >> 31u64) == 0u64) by (bit_vector);
}

/// The numbers splitmix64 draws from the zero state, before it comes round again, are never
/// 0 and never repeat.
pub proof fn lemma_random_numbers_distinct(j: nat, k: nat)
    requires
        j < 0xffffffffffffffff,
        k < 0xffffffffffffffff,
    ensures
        random_number(k) != 0,
        j != k ==> random_number(j) != random_number(k),
{
    let m: int = 0x10000000000000000;
    let inverse: int = 0xf1de83e19937733d;
    assert(GOLDEN_GAMMA * inverse % m == 1);
    lemma_splitmix_state(k + 1);
    lemma_splitmix_state(j + 1);
    lemma_splitmix_mix_injective(splitmix_state(k + 1), 0);
    lemma_splitmix_mix_injective(splitmix_state(j + 1), splitmix_state(k + 1));
    lemma_mul_undone((k + 1) as int, GOLDEN_GAMMA as int, inverse);
    lemma_mul_undone((j + 1) as int, GOLDEN_GAMMA as int, inverse);
    vstd::arithmetic::div_mod::lemma_small_mod((k + 1) as nat, m as nat);
    vstd::arithmetic::div_mod::lemma_small_mod((j + 1) as nat, m as nat);
}

/// One of the hash keys: a piece of a color on a square, an en passant column, a castle
/// right of a color, or black to move.
#[derive(Clone, Copy, PartialEq, Eq, Debug, Structural)]
pub enum ZobristKey {
    Piece(Color, Piece, u8),
    EnPassant(u8),
    CastleLeft(Color),
    CastleRight(Color),
    Turn,
}

/// The key names a square of the board or a column.
pub open spec fn key_exists(k: ZobristKey) -> bool {
    match k {
        ZobristKey::Piece(_, _, square) => 0 <= square < 64,
        ZobristKey::EnPassant(column) => 0 <= column < 8,
        _ => true,
    }
}

/// The value of the key.
pub open spec fn key_value(k: ZobristKey) -> u64 {
    match k {
        ZobristKey::Piece(c, p, square) => piece_key(c, p, square as int),
        ZobristKey::EnPassant(column) => en_passant_key(column as int),
        ZobristKey::CastleLeft(c) => castle_left_key(c),
        ZobristKey::CastleRight(c) => castle_right_key(c),
        ZobristKey::Turn => turn_key(),
    }
}

/// Which draw of splitmix64 gives the key.
spec fn key_draw(k: ZobristKey) -> int {
    match k {
        ZobristKey::Piece(c, p, square) => 2 * (64 * piece_index(p) + square) + match c {
            Color::White => 0int,
            Color::Black => 1int,
        },
        ZobristKey::EnPassant(column) => 768 + column,
        ZobristKey::CastleLeft(c) => match c {
            Color::White => 776int,
            Color::Black => 778int,
        },
        ZobristKey::CastleRight(c) => match c {
            Color::White => 777int,
            Color::Black => 779int,
        },
        ZobristKey::Turn => 780,
    }
}

/// The 781 hash keys are all nonzero and no two are equal.
pub proof fn lemma_zobrist_keys_distinct(a: ZobristKey, b: ZobristKey)
    requires
        key_exists(a),
        key_exists(b),
    ensures
        key_value(a) != 0,
        a != b ==> key_value(a) != key_value(b),
{
    assert(0 <= key_draw(a) < 781 && key_value(a) == random_number(key_draw(a) as nat));
    assert(0 <= key_draw(b) < 781 && key_value(b) == random_number(key_draw(b) as nat));
    assert(a != b ==> key_draw(a) != key_draw(b)) by {
        match a {
            ZobristKey::Piece(c, p, square) => {
                match b {
                    ZobristKey::Piece(c2, p2, square2) => {
                        if key_draw(a) == key_draw(b) {
                            assert(c == c2);
                            assert(64 * piece_index(p) + square == 64 * piece_index(p2) + square2);
                            assert(piece_index(p) == piece_index(p2));
                        }
                    },
                    _ => {},
                }
            },
            _ => {},
        }
    }
    lemma_random_numbers_distinct(key_draw(a) as nat, key_draw(b) as nat);
    lemma_random_numbers_distinct(key_draw(b) as nat, key_draw(a) as nat);
}

/// The splitmix64 generator of pseudo-random numbers.
struct Splitmix64 {
    state: u64,
}

impl Splitmix64 {
    fn new() -> (r: Self)
        ensures
            r.state == splitmix_state(0),
    {
        Splitmix64 { state: 0 }
    }

    /// Draws the `n`-th number.
    fn next_int(&mut self, Ghost(n): Ghost<nat>) -> (r: u64)
        requires
            old(self).state == splitmix_state(n),
        ensures
            final(self).state == splitmix_state(n + 1),
            r == random_number(n),
    {
        proof {
            reveal(splitmix_mix);
        }
        let mut z = self.state.wrapping_add(0x9e3779b97f4a7c15);
        self.state = z;
        z = (z ^ (z >> 30)).wrapping_mul(0xbf58476d1ce4e5b9);
        z = (z ^ (z >> 27)).wrapping_mul(0x94d049bb133111eb);
        z ^ (z >> 31)
    }
}

/// The keys of Zobrist hashing: one pseudo-random number per piece of each color on each
/// square, per en passant column, per castle right and for the side to move.
pub struct Zobrist {
    white_piece_hashes: Vec<u64>,
    black_piece_hashes: Vec<u64>,
    en_passant_hashes: Vec<u64>,
    white_castle_left_hash: u64,
    white_castle_right_hash: u64,
    black_castle_left_hash: u64,
    black_castle_right_hash: u64,
    turn_hash: u64,
}

impl Zobrist {
    /// The keys hold the numbers that `Zobrist::new` draws.
    pub closed spec fn wf(&self) -> bool {
        &&& self.white_piece_hashes@.len() == 384
        &&& self.black_piece_hashes@.len() == 384
        &&& self.en_passant_hashes@.len() == 8
        &&& forall|p: int, s: int|
            0 <= p < 6 && 0 <= s < 64 ==> #[trigger] self.white_piece_hashes@[64 * p + s]
                == random_number((2 * (64 * p + s)) as nat)
        &&& forall|p: int, s: int|
            0 <= p < 6 && 0 <= s < 64 ==> #[trigger] self.black_piece_hashes@[64 * p + s]
                == random_number((2 * (64 * p + s) + 1) as nat)
        &&& forall|f: int| 0 <= f < 8 ==> #[trigger] self.en_passant_hashes@[f] == en_passant_key(f)
        &&& self.white_castle_left_hash == castle_left_key(Color::White)
        &&& self.white_castle_right_hash == castle_right_key(Color::White)
        &&& self.black_castle_left_hash == castle_left_key(Color::Black)
        &&& self.black_castle_right_hash == castle_right_key(Color::Black)
        &&& self.turn_hash == turn_key()
    }

    pub fn new() -> (z: Self)
        ensures
            z.wf(),
    {
        let mut random = Splitmix64::new();
        let mut white_piece_hashes: Vec<u64> = Vec::new();
        let mut black_piece_hashes: Vec<u64> = Vec::new();
        let mut p: usize = 0;
        while p < 6
            invariant
                p <= 6,
                random.state == splitmix_state((2 * (64 * p + 0)) as nat),
                white_piece_hashes@.len() == 64 * p,
                black_piece_hashes@.len() == 64 * p,
                forall|i: int|
                    0 <= i < 64 * p ==> #[trigger] white_piece_hashes@[i] == random_number(
                        (2 * i) as nat,
                    ),
                forall|i: int|
                    0 <= i < 64 * p ==> #[trigger] black_piece_hashes@[i] == random_number(
                        (2 * i + 1) as nat,
                    ),
            decreases 6 - p,
        {
            let mut s: usize = 0;
            while s < 64
                invariant
                    p < 6,
                    s <= 64,
                    random.state == splitmix_state((2 * (64 * p + s)) as nat),
                    white_piece_hashes@.len() == 64 * p + s,
                    black_piece_hashes@.len() == 64 * p + s,
                    forall|i: int|
                        0 <= i < 64 * p + s ==> #[trigger] white_piece_hashes@[i] == random_number(
                            (2 * i) as nat,
                        ),
                    forall|i: int|
                        0 <= i < 64 * p + s ==> #[trigger] black_piece_hashes@[i] == random_number(
                            (2 * i + 1) as nat,
                        ),
                decreases 64 - s,
            {
                let w = random.next_int(Ghost((2 * (64 * p + s)) as nat));
                white_piece_hashes.push(w);
                let b = random.next_int(Ghost((2 * (64 * p + s) + 1) as nat));
                black_piece_hashes.push(b);
                s = s + 1;
            }
            p = p + 1;
        }
        let mut en_passant_hashes: Vec<u64> = Vec::new();
        let mut f: usize = 0;
        while f < 8
            invariant
                f <= 8,
                random.state == splitmix_state((768 + f) as nat),
                en_passant_hashes@.len() == f,
                forall|i: int| 0 <= i < f ==> #[trigger] en_passant_hashes@[i] == en_passant_key(i),
            decreases 8 - f,
        {
            let e = random.next_int(Ghost((768 + f) as nat));
            en_passant_hashes.push(e);
            f = f + 1;
        }
        let white_castle_left_hash = random.next_int(Ghost(776nat));
        let white_castle_right_hash = random.next_int(Ghost(777nat));
        let black_castle_left_hash = random.next_int(Ghost(778nat));
        let black_castle_right_hash = random.next_int(Ghost(779nat));
        let turn_hash = random.next_int(Ghost(780nat));
        let z = Self {
            white_piece_hashes,
            black_piece_hashes,
            en_passant_hashes,
            white_castle_left_hash,
            white_castle_right_hash,
            black_castle_left_hash,
            black_castle_right_hash,
            turn_hash,
        };
        assert forall|p: int, s: int| 0 <= p < 6 && 0 <= s < 64 implies #[trigger] z.white_piece_hashes@[64 * p + s]
            == random_number((2 * (64 * p + s)) as nat) by {
            assert(0 <= 64 * p + s < 384);
        }
        assert forall|p: int, s: int| 0 <= p < 6 && 0 <= s < 64 implies #[trigger] z.black_piece_hashes@[64 * p + s]
            == random_number((2 * (64 * p + s) + 1) as nat) by {
            assert(0 <= 64 * p + s < 384);
        }
        z
    }

    pub fn get_castle_left(&self, color: Color) -> (k: u64)
        requires
            self.wf(),
        ensures
            k == castle_left_key(color),
    {
        match color {
            Color::White => self.white_castle_left_hash,
            Color::Black => self.black_castle_left_hash,
        }
    }

    pub fn get_castle_right(&self, color: Color) -> (k: u64)
        requires
            self.wf(),
        ensures
            k == castle_right_key(color),
    {
        match color {
            Color::White => self.white_castle_right_hash,
            Color::Black => self.black_castle_right_hash,
        }
    }

    pub fn get_piece(&self, color: Color, piece: Piece, square: Square) -> (k: u64)
        requires
            self.wf(),
            square.bitmap_ok(),
        ensures
            k == piece_key(color, piece, square.index()),
    {
        let i = piece.to_index() * 64 + square.to_index();
        match color {
            Color::White => self.white_piece_hashes[i],
            Color::Black => self.black_piece_hashes[i],
        }
    }

    pub fn get_en_passant(&self, column: usize) -> (k: u64)
        requires
            self.wf(),
            column < 8,
        ensures
            k == en_passant_key(column as int),
    {
        self.en_passant_hashes[column]
    }

    pub fn get_turn(&self) -> (k: u64)
        requires
            self.wf(),
        ensures
            k == turn_key(),
    {
        self.turn_hash
    }
}

impl Clone for Zobrist {
    fn clone(&self) -> (z: Self)
        ensures
            self.wf() ==> z.wf(),
    {
        Zobrist {
            white_piece_hashes: self.white_piece_hashes.clone(),
            black_piece_hashes: self.black_piece_hashes.clone(),
            en_passant_hashes: self.en_passant_hashes.clone(),
            white_castle_left_hash: self.white_castle_left_hash,
            white_castle_right_hash: self.white_castle_right_hash,
            black_castle_left_hash: self.black_castle_left_hash,
            black_castle_right_hash: self.black_castle_right_hash,
            turn_hash: self.turn_hash,
        }
    }
}

} // verus!
