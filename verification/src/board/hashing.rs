use vstd::prelude::*;
use crate::bits::{bit, is_set};
use crate::board::board::{BoardState, en_passant_hash, position_hash, toggle, xor_kinds, xor_squares};
use crate::board::castle_rights::CastleRights;
use crate::board::piece::{Color, Piece, opposite, piece_index, piece_types};
use crate::board::piece_set::PieceSet;
use crate::board::square::{lemma_square_of_index, square_of_index, squares_of, squares_upto};
use crate::game::zobrist::{castle_left_key, castle_right_key, piece_key, turn_key};

verus! {

// ---------------------------------------------------------------------------------------------
// The Zobrist hash of a position, taken apart into the keys of its parts.
// ---------------------------------------------------------------------------------------------

/// `key` when `on`, else 0.
pub open spec fn key_if(on: bool, key: u64) -> u64 {
    if on {
        key
    } else {
        0
    }
}

/// The keys of the pieces of both sides.
pub open spec fn pieces_part(s: BoardState) -> u64 {
    xor_kinds(xor_kinds(0, s.white, Color::White, 6), s.black, Color::Black, 6)
}

/// The keys of the castles that the rights `r` of `c` still allow.
pub open spec fn rights_part(r: CastleRights, c: Color) -> u64 {
    key_if(r.can_left(), castle_left_key(c)) ^ key_if(r.can_right(), castle_right_key(c))
}

/// The keys of the castle rights, the en passant squares and the side to move.
pub open spec fn other_part(s: BoardState) -> u64 {
    rights_part(s.white_castle, Color::White) ^ rights_part(s.black_castle, Color::Black)
        ^ en_passant_hash(s.white) ^ en_passant_hash(s.black) ^ key_if(
        s.turn == Color::Black,
        turn_key(),
    )
}

/// The board with the pieces of `c` replaced by `ps`.
pub open spec fn with_pieces(s: BoardState, c: Color, ps: PieceSet) -> BoardState {
    match c {
        Color::White => BoardState { white: ps, ..s },
        Color::Black => BoardState { black: ps, ..s },
    }
}

/// The board with the castle rights of `c` replaced by `r`.
pub open spec fn with_rights(s: BoardState, c: Color, r: CastleRights) -> BoardState {
    match c {
        Color::White => BoardState { white_castle: r, ..s },
        Color::Black => BoardState { black_castle: r, ..s },
    }
}

proof fn lemma_xor_swap(a: u64, b: u64, c: u64)
    ensures
        (a ^ b) ^ c == (a ^ c) ^ b,
        (a ^ b) ^ b == a,
        a ^ 0 == a,
        a ^ b == b ^ a,
        (a ^ b) ^ c == a ^ (b ^ c),
{
    assert((a ^ b) ^ c == (a ^ c) ^ b && (a ^ b) ^ b == a && a ^ 0 == a && a ^ b == b ^ a && (a
        ^ b) ^ c == a ^ (b ^ c)) by (bit_vector);
}

proof fn lemma_key_if_change(b1: bool, b2: bool, k: u64)
    ensures
        key_if(b2, k) == key_if(b1, k) ^ key_if(b1 != b2, k),
{
    assert(k ^ k == 0 && k ^ 0 == k && 0 ^ k == k && 0u64 ^ 0u64 == 0u64) by (bit_vector);
}

/// The hash is the keys of the pieces combined with the keys of everything else.
pub proof fn lemma_position_hash_parts(s: BoardState)
    ensures
        position_hash(s) == pieces_part(s) ^ other_part(s),
{
    let p = pieces_part(s);
    let (wl, wr) = (key_if(s.white_castle.can_left(), castle_left_key(Color::White)), key_if(
        s.white_castle.can_right(),
        castle_right_key(Color::White),
    ));
    let (bl, br) = (key_if(s.black_castle.can_left(), castle_left_key(Color::Black)), key_if(
        s.black_castle.can_right(),
        castle_right_key(Color::Black),
    ));
    let (ew, eb) = (en_passant_hash(s.white), en_passant_hash(s.black));
    let t = key_if(s.turn == Color::Black, turn_key());
    assert(forall|h: u64, b: bool, k: u64| #[trigger] toggle(h, b, k) == h ^ key_if(b, k)) by {
        assert forall|h: u64, b: bool, k: u64| #[trigger] toggle(h, b, k) == h ^ key_if(b, k) by {
            lemma_xor_swap(h, 0, 0);
        }
    }
    assert(((((((p ^ wl) ^ wr) ^ bl) ^ br) ^ ew) ^ eb) ^ t == p ^ (((((((wl ^ wr) ^ (bl ^ br))
        ^ ew) ^ eb) ^ t)))) by (bit_vector);
}

// ---------------------------------------------------------------------------------------------
// Toggling one square of one bitboard toggles one key.
// ---------------------------------------------------------------------------------------------

/// `b` has the squares of `a`, with square `i` flipped when `flip`.
pub open spec fn toggled(a: u64, b: u64, i: int, flip: bool) -> bool {
    forall|j: int| 0 <= j < 64 ==> #[trigger] is_set(b, j) == (is_set(a, j) != (flip && j == i))
}

/// Each bitboard of `ps2` is that of `ps`, but for square `i` of kind `p`, flipped when `flip`.
pub open spec fn kinds_toggled(ps: PieceSet, ps2: PieceSet, p: Piece, i: int, flip: bool) -> bool {
    &&& toggled(ps.pawns, ps2.pawns, i, flip && p == Piece::Pawn)
    &&& toggled(ps.rooks, ps2.rooks, i, flip && p == Piece::Rook)
    &&& toggled(ps.knights, ps2.knights, i, flip && p == Piece::Knight)
    &&& toggled(ps.bishops, ps2.bishops, i, flip && p == Piece::Bishop)
    &&& toggled(ps.queens, ps2.queens, i, flip && p == Piece::Queen)
    &&& toggled(ps.king, ps2.king, i, flip && p == Piece::King)
}

proof fn lemma_xor_squares_shift(acc: u64, k: u64, c: Color, p: Piece, sqs: Seq<crate::board::square::Square>)
    ensures
        xor_squares(acc ^ k, c, p, sqs) == xor_squares(acc, c, p, sqs) ^ k,
    decreases sqs.len(),
{
    if sqs.len() == 0 {
    } else {
        lemma_xor_squares_shift(acc, k, c, p, sqs.drop_last());
        lemma_xor_swap(xor_squares(acc, c, p, sqs.drop_last()), k, piece_key(c, p, sqs.last().index()));
    }
}

proof fn lemma_xor_upto_step(acc: u64, c: Color, p: Piece, bb: u64, n: nat)
    requires
        0 < n <= 64,
    ensures
        xor_squares(acc, c, p, squares_upto(bb, n)) == xor_squares(
            acc,
            c,
            p,
            squares_upto(bb, (n - 1) as nat),
        ) ^ key_if(is_set(bb, n - 1), piece_key(c, p, n - 1)),
{
    let rest = squares_upto(bb, (n - 1) as nat);
    lemma_square_of_index(n - 1);
    lemma_xor_swap(xor_squares(acc, c, p, rest), 0, 0);
    if is_set(bb, n - 1) {
        assert(squares_upto(bb, n).drop_last() =~= rest);
    }
}

proof fn lemma_fold_toggle(acc: u64, c: Color, p: Piece, a: u64, b: u64, i: int, flip: bool, n: nat)
    requires
        0 <= i < 64,
        n <= 64,
        toggled(a, b, i, flip),
    ensures
        xor_squares(acc, c, p, squares_upto(b, n)) == xor_squares(acc, c, p, squares_upto(a, n))
            ^ key_if(flip && i < n, piece_key(c, p, i)),
    decreases n,
{
    let k = piece_key(c, p, i);
    if n == 0 {
        lemma_xor_swap(acc, 0, 0);
    } else {
        lemma_fold_toggle(acc, c, p, a, b, i, flip, (n - 1) as nat);
        lemma_xor_upto_step(acc, c, p, a, n);
        lemma_xor_upto_step(acc, c, p, b, n);
        let fa = xor_squares(acc, c, p, squares_upto(a, (n - 1) as nat));
        let ka = key_if(is_set(a, n - 1), piece_key(c, p, n - 1));
        let kb = key_if(is_set(b, n - 1), piece_key(c, p, n - 1));
        let d = key_if(flip && i < n - 1, k);
        assert(is_set(b, n - 1) == (is_set(a, n - 1) != (flip && n - 1 == i)));
        lemma_xor_swap(fa, d, kb);
        lemma_xor_swap(fa, ka, k);
        lemma_xor_swap(fa, k, k);
        lemma_xor_swap(fa ^ k, k, 0);
        lemma_xor_swap(fa, 0, 0);
        lemma_xor_swap(fa, ka, 0);
        lemma_xor_swap(fa, kb, 0);
        if flip && n - 1 == i {
            if is_set(a, i) {
                assert(fa == (fa ^ k) ^ k);
            }
        }
    }
}

proof fn lemma_kinds_shift(acc: u64, k: u64, ps: PieceSet, c: Color, n: nat)
    requires
        n <= 6,
    ensures
        xor_kinds(acc ^ k, ps, c, n) == xor_kinds(acc, ps, c, n) ^ k,
    decreases n,
{
    if n > 0 {
        lemma_kinds_shift(acc, k, ps, c, (n - 1) as nat);
        let q = piece_types()[n - 1];
        lemma_xor_squares_shift(xor_kinds(acc, ps, c, (n - 1) as nat), k, c, q, squares_of(ps.bb(q)));
    }
}

proof fn lemma_kinds_toggle(acc: u64, ps: PieceSet, ps2: PieceSet, c: Color, p: Piece, i: int, flip: bool, n: nat)
    requires
        0 <= i < 64,
        n <= 6,
        kinds_toggled(ps, ps2, p, i, flip),
    ensures
        xor_kinds(acc, ps2, c, n) == xor_kinds(acc, ps, c, n) ^ key_if(
            flip && piece_index(p) < n,
            piece_key(c, p, i),
        ),
    decreases n,
{
    let k = piece_key(c, p, i);
    if n == 0 {
        lemma_xor_swap(acc, 0, 0);
    } else {
        lemma_kinds_toggle(acc, ps, ps2, c, p, i, flip, (n - 1) as nat);
        let q = piece_types()[n - 1];
        let x = xor_kinds(acc, ps, c, (n - 1) as nat);
        let d = key_if(flip && piece_index(p) < n - 1, k);
        assert(toggled(ps.bb(q), ps2.bb(q), i, flip && q == p));
        lemma_xor_squares_shift(x, d, c, q, squares_of(ps2.bb(q)));
        lemma_fold_toggle(x, c, q, ps.bb(q), ps2.bb(q), i, flip && q == p, 64);
        let y = xor_squares(x, c, q, squares_of(ps.bb(q)));
        let e = key_if(flip && q == p, piece_key(c, q, i));
        lemma_xor_swap(y, e, d);
        lemma_xor_swap(y, 0, 0);
        lemma_xor_swap(y, k, 0);
        lemma_xor_swap(y ^ 0, 0, 0);
    }
}

/// Flipping square `i` of kind `p` among the pieces of `c` flips the key of that piece on
/// that square in the hash.
pub proof fn lemma_hash_pieces_toggle(s: BoardState, c: Color, ps2: PieceSet, p: Piece, i: int, flip: bool)
    requires
        0 <= i < 64,
        kinds_toggled(s.pieces(c), ps2, p, i, flip),
        ps2.en_passant == s.pieces(c).en_passant,
    ensures
        position_hash(with_pieces(s, c, ps2)) == position_hash(s) ^ key_if(flip, piece_key(c, p, i)),
{
    let s2 = with_pieces(s, c, ps2);
    let k = key_if(flip, piece_key(c, p, i));
    lemma_position_hash_parts(s);
    lemma_position_hash_parts(s2);
    assert(other_part(s2) == other_part(s));
    assert(piece_index(p) < 6);
    match c {
        Color::White => {
            lemma_kinds_toggle(0, s.white, ps2, Color::White, p, i, flip, 6);
            lemma_kinds_shift(xor_kinds(0, s.white, Color::White, 6), k, s.black, Color::Black, 6);
        },
        Color::Black => {
            lemma_kinds_toggle(xor_kinds(0, s.white, Color::White, 6), s.black, ps2, Color::Black, p, i, flip, 6);
        },
    }
    lemma_xor_swap(pieces_part(s), k, other_part(s));
}

/// Changing the castle rights of `c` flips in the hash the keys of the castles whose
/// permission changed.
pub proof fn lemma_hash_rights(s: BoardState, c: Color, r2: CastleRights)
    ensures
        position_hash(with_rights(s, c, r2)) == position_hash(s) ^ key_if(
            s.rights(c).can_left() != r2.can_left(),
            castle_left_key(c),
        ) ^ key_if(s.rights(c).can_right() != r2.can_right(), castle_right_key(c)),
{
    let s2 = with_rights(s, c, r2);
    lemma_position_hash_parts(s);
    lemma_position_hash_parts(s2);
    let r = s.rights(c);
    let (l1, r1, l2, rr2) = (
        key_if(r.can_left(), castle_left_key(c)),
        key_if(r.can_right(), castle_right_key(c)),
        key_if(r2.can_left(), castle_left_key(c)),
        key_if(r2.can_right(), castle_right_key(c)),
    );
    let dl = key_if(r.can_left() != r2.can_left(), castle_left_key(c));
    let dr = key_if(r.can_right() != r2.can_right(), castle_right_key(c));
    lemma_key_if_change(r.can_left(), r2.can_left(), castle_left_key(c));
    lemma_key_if_change(r.can_right(), r2.can_right(), castle_right_key(c));
    let p = pieces_part(s);
    let (w, b, ew, eb, t) = (
        rights_part(s.white_castle, Color::White),
        rights_part(s.black_castle, Color::Black),
        en_passant_hash(s.white),
        en_passant_hash(s.black),
        key_if(s.turn == Color::Black, turn_key()),
    );
    assert(p ^ ((((((l1 ^ dl) ^ (r1 ^ dr)) ^ b) ^ ew) ^ eb) ^ t) == ((p ^ ((((((l1 ^ r1) ^ b) ^ ew)
        ^ eb) ^ t))) ^ dl) ^ dr && p ^ ((((((w ^ ((l1 ^ dl) ^ (r1 ^ dr)))) ^ ew) ^ eb) ^ t)) == ((p
        ^ ((((w ^ (l1 ^ r1)) ^ ew) ^ eb) ^ t)) ^ dl) ^ dr) by (bit_vector);
}

/// Changing the en passant marker of the pieces of `c` changes the hash by the keys of the
/// old and the new marker.
pub proof fn lemma_hash_en_passant(s: BoardState, c: Color, ep: u64)
    ensures
        position_hash(with_pieces(s, c, PieceSet { en_passant: ep, ..s.pieces(c) })) == position_hash(s)
            ^ en_passant_hash(s.pieces(c)) ^ en_passant_hash(PieceSet { en_passant: ep, ..s.pieces(c) }),
{
    let ps2 = PieceSet { en_passant: ep, ..s.pieces(c) };
    let s2 = with_pieces(s, c, ps2);
    lemma_position_hash_parts(s);
    lemma_position_hash_parts(s2);
    assert(kinds_toggled(s.pieces(c), ps2, Piece::Pawn, 0, false));
    match c {
        Color::White => lemma_kinds_toggle(0, s.white, ps2, c, Piece::Pawn, 0, false, 6),
        Color::Black => lemma_kinds_toggle(
            xor_kinds(0, s.white, Color::White, 6),
            s.black,
            ps2,
            c,
            Piece::Pawn,
            0,
            false,
            6,
        ),
    }
    lemma_xor_swap(xor_kinds(0, s.white, Color::White, 6), 0, 0);
    lemma_xor_swap(pieces_part(s), 0, 0);
    assert(pieces_part(s2) == pieces_part(s));
    let p = pieces_part(s);
    let (w, b, ew, eb, t) = (
        rights_part(s.white_castle, Color::White),
        rights_part(s.black_castle, Color::Black),
        en_passant_hash(s.white),
        en_passant_hash(s.black),
        key_if(s.turn == Color::Black, turn_key()),
    );
    let e2 = en_passant_hash(ps2);
    assert(p ^ ((((w ^ b) ^ e2) ^ eb) ^ t) == ((p ^ ((((w ^ b) ^ ew) ^ eb) ^ t)) ^ ew) ^ e2 && p ^ ((((
    w ^ b) ^ ew) ^ e2) ^ t) == ((p ^ ((((w ^ b) ^ ew) ^ eb) ^ t)) ^ eb) ^ e2) by (bit_vector);
}

/// Passing the turn flips the side-to-move key in the hash.
pub proof fn lemma_hash_turn(s: BoardState)
    ensures
        position_hash(BoardState { turn: opposite(s.turn), ..s }) == position_hash(s) ^ turn_key(),
{
    let s2 = BoardState { turn: opposite(s.turn), ..s };
    lemma_position_hash_parts(s);
    lemma_position_hash_parts(s2);
    let p = pieces_part(s);
    let (w, b, ew, eb) = (
        rights_part(s.white_castle, Color::White),
        rights_part(s.black_castle, Color::Black),
        en_passant_hash(s.white),
        en_passant_hash(s.black),
    );
    let k = turn_key();
    assert(p ^ ((((w ^ b) ^ ew) ^ eb) ^ k) == (p ^ ((((w ^ b) ^ ew) ^ eb) ^ 0)) ^ k && p ^ ((((w ^ b)
        ^ ew) ^ eb) ^ 0) == (p ^ ((((w ^ b) ^ ew) ^ eb) ^ k)) ^ k) by (bit_vector);
}

/// Only kind `p` of `ps` stands on square `i`.
pub open spec fn only_kind_at(ps: PieceSet, p: Piece, i: int) -> bool {
    &&& ps.has_piece(p, i)
    &&& forall|q: Piece| #[trigger] ps.has_piece(q, i) ==> q == p
}

proof fn lemma_toggled_or_bit(a: u64, i: int, flip: bool)
    requires
        0 <= i < 64,
        flip ==> !is_set(a, i),
    ensures
        toggled(a, if flip { a | bit(i) } else { a }, i, flip),
{
    let b = if flip { a | bit(i) } else { a };
    assert forall|j: int| 0 <= j < 64 implies #[trigger] is_set(b, j) == (is_set(a, j) != (flip
        && j == i)) by {
        if flip {
            crate::bits::lemma_is_set_or_bit(a, i, j);
        }
    }
}

proof fn lemma_toggled_and_not_bit(a: u64, i: int, flip: bool)
    requires
        0 <= i < 64,
        flip == is_set(a, i),
    ensures
        toggled(a, a & !bit(i), i, flip),
{
    assert forall|j: int| 0 <= j < 64 implies #[trigger] is_set(a & !bit(i), j) == (is_set(a, j)
        != (flip && j == i)) by {
        crate::bits::lemma_is_set_and_not_bit(a, i, j);
    }
}

/// Adding a `p` on an empty square `i` of kind `p` flips exactly that square.
pub proof fn lemma_added_toggles(ps: PieceSet, i: int, p: Piece)
    requires
        0 <= i < 64,
        !ps.has_piece(p, i),
    ensures
        kinds_toggled(ps, ps.added(i, p), p, i, true),
        ps.added(i, p).en_passant == ps.en_passant,
{
    lemma_toggled_or_bit(ps.pawns, i, p == Piece::Pawn);
    lemma_toggled_or_bit(ps.rooks, i, p == Piece::Rook);
    lemma_toggled_or_bit(ps.knights, i, p == Piece::Knight);
    lemma_toggled_or_bit(ps.bishops, i, p == Piece::Bishop);
    lemma_toggled_or_bit(ps.queens, i, p == Piece::Queen);
    lemma_toggled_or_bit(ps.king, i, p == Piece::King);
}

/// Clearing square `i`, on which only a `p` stands, flips exactly that square of kind `p`;
/// clearing an empty square changes nothing.
pub proof fn lemma_removed_toggles(ps: PieceSet, i: int, p: Piece, flip: bool)
    requires
        0 <= i < 64,
        flip ==> only_kind_at(ps, p, i),
        !flip ==> !ps.occupied_at(i),
    ensures
        kinds_toggled(ps, ps.removed(i), p, i, flip),
        ps.removed(i).en_passant == ps.en_passant,
{
    assert(ps.has_piece(Piece::Pawn, i) ==> Piece::Pawn == p);
    assert(ps.has_piece(Piece::Rook, i) ==> Piece::Rook == p);
    assert(ps.has_piece(Piece::Knight, i) ==> Piece::Knight == p);
    assert(ps.has_piece(Piece::Bishop, i) ==> Piece::Bishop == p);
    assert(ps.has_piece(Piece::Queen, i) ==> Piece::Queen == p);
    assert(ps.has_piece(Piece::King, i) ==> Piece::King == p);
    lemma_toggled_and_not_bit(ps.pawns, i, flip && p == Piece::Pawn);
    lemma_toggled_and_not_bit(ps.rooks, i, flip && p == Piece::Rook);
    lemma_toggled_and_not_bit(ps.knights, i, flip && p == Piece::Knight);
    lemma_toggled_and_not_bit(ps.bishops, i, flip && p == Piece::Bishop);
    lemma_toggled_and_not_bit(ps.queens, i, flip && p == Piece::Queen);
    lemma_toggled_and_not_bit(ps.king, i, flip && p == Piece::King);
}

} // verus!
