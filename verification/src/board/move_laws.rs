use vstd::prelude::*;
use crate::board::board::{
    BoardState, MoveContext, after_move, lemma_added_has, lemma_removed_has, with_context,
};
use crate::board::laws::forward;
use crate::board::movement::{Move, MoveResult};
use crate::board::piece::{Color, Piece, opposite};
use crate::board::piece_set::PieceSet;
use crate::board::square::{Square, sq};

verus! {

/// Writing a context back gives each side its pieces.
proof fn lemma_with_context_pieces(s: BoardState, ctx: MoveContext, h: u64)
    ensures
        with_context(s, ctx, h).pieces(s.turn) == ctx.friendly_pieces,
        with_context(s, ctx, h).pieces(opposite(s.turn)) == ctx.enemy_pieces,
        with_context(s, ctx, h).turn == s.turn,
{
    match s.turn {
        Color::White => {},
        Color::Black => {},
    }
}

/// Only a piece of kind `k` of the side to move stands on `from`.
pub open spec fn only_mover(s: BoardState, k: Piece, from: Square) -> bool {
    &&& s.pieces(s.turn).has_piece(k, from.index())
    &&& forall|q: Piece| #[trigger] s.pieces(s.turn).has_piece(q, from.index()) ==> q == k
}

/// Every square but those of `touched` holds for both sides after the move what it held
/// before.
pub open spec fn others_unchanged(s: BoardState, t: BoardState, touched: Set<int>) -> bool {
    &&& forall|q: Piece, j: int|
        0 <= j < 64 && !touched.contains(j) ==> #[trigger] t.pieces(s.turn).has_piece(q, j)
            == s.pieces(s.turn).has_piece(q, j)
    &&& forall|q: Piece, j: int|
        0 <= j < 64 && !touched.contains(j) ==> #[trigger] t.pieces(opposite(s.turn)).has_piece(q, j)
            == s.pieces(opposite(s.turn)).has_piece(q, j)
}

/// A piece set with its en passant marker cleared holds the same pieces.
proof fn lemma_cleared_has(ps: PieceSet, q: Piece, j: int)
    ensures
        (PieceSet { en_passant: 0, ..ps }).has_piece(q, j) == ps.has_piece(q, j),
{
}

/// An ordinary move (not a castle, double step, en passant capture or promotion) moves the
/// piece from its square to the target, takes whatever piece of the other side stood there,
/// and leaves every other square as it was; the side to move does not change.
pub proof fn lemma_plain_move_placement(s: BoardState, m: Move, k: Piece)
    requires
        m.from.on_board(),
        m.to.on_board(),
        m.from != m.to,
        only_mover(s, k, m.from),
        !s.pieces(s.turn).occupied_at(m.to.index()),
        m.promotion is None,
        k == Piece::King ==> -1 <= m.to.column - m.from.column <= 1,
        k == Piece::Pawn ==> m.to.row == m.from.row + forward(s.turn) && !s.pieces(
            opposite(s.turn),
        ).en_passant_at(m.to.index()),
    ensures
        after_move(s, m).1 == MoveResult::Played,
        after_move(s, m).0.turn == s.turn,
        forall|q: Piece| #[trigger] after_move(s, m).0.pieces(s.turn).has_piece(q, m.to.index()) <==> q == k,
        forall|q: Piece| !#[trigger] after_move(s, m).0.pieces(s.turn).has_piece(q, m.from.index()),
        forall|q: Piece| !#[trigger] after_move(s, m).0.pieces(opposite(s.turn)).has_piece(q, m.to.index()),
        others_unchanged(s, after_move(s, m).0, set![m.from.index(), m.to.index()]),
        after_move(s, m).0.pieces(opposite(s.turn)).en_passant == 0,
{
    let c = s.turn;
    let f = s.pieces(c);
    let e = s.pieces(opposite(c));
    let (from, to) = (m.from.index(), m.to.index());
    crate::board::square::lemma_index_square(m.from);
    crate::board::square::lemma_index_square(m.to);
    assert(from != to);
    assert(f.piece_at(from) == Some(k));
    if k == Piece::Pawn {
        assert(!crate::board::board::is_jump_move(c, m)) by {
            match c {
                Color::White => {},
                Color::Black => {},
            }
        }
    }
    let t = after_move(s, m).0;
    let f2 = f.added(to, k).removed(from);
    let e3 = match e.piece_at(to) {
        Some(_) => e.removed(to),
        None => e,
    };
    let e4 = PieceSet { en_passant: 0, ..e3 };
    let ctx0 = crate::board::board::context_of(s);
    let ctx1 = crate::board::board::spec_update_castle_rights(ctx0, k, m, s.hash).0;
    let ctx2 = crate::board::board::spec_piece_move(ctx1, k, m, 0).0;
    let ctx3 = crate::board::board::spec_capture(ctx2, m, 0).0;
    assert(ctx3.friendly_pieces == f2 && ctx3.enemy_pieces == e3);
    lemma_with_context_pieces(
        s,
        MoveContext { enemy_pieces: PieceSet { en_passant: 0, ..ctx3.enemy_pieces }, ..ctx3 },
        0,
    );
    assert(t.pieces(c) == f2 && t.pieces(opposite(c)) == e4);
    assert forall|q: Piece, j: int| 0 <= j < 64 implies #[trigger] t.pieces(c).has_piece(q, j)
        == (if j == to {
        q == k
    } else if j == from {
        false
    } else {
        f.has_piece(q, j)
    }) by {
        crate::board::board::lemma_moved_has(f, k, from, to, q, j);
    }
    assert forall|q: Piece, j: int| 0 <= j < 64 implies #[trigger] t.pieces(opposite(c)).has_piece(
        q,
        j,
    ) == (e.has_piece(q, j) && j != to) by {
        lemma_cleared_has(e3, q, j);
        lemma_removed_has(e, to, q, j);
    }
    assert forall|q: Piece| #[trigger] t.pieces(c).has_piece(q, to) <==> q == k by {}
    assert forall|q: Piece| !#[trigger] t.pieces(c).has_piece(q, from) by {}
    assert forall|q: Piece| !#[trigger] t.pieces(opposite(c)).has_piece(q, to) by {}
}

/// A promotion puts the promoted piece on the last row in place of the pawn, takes whatever
/// piece of the other side stood there, and leaves every other square as it was.
pub proof fn lemma_promotion_placement(s: BoardState, m: Move, p: Piece)
    requires
        m.from.on_board(),
        m.to.on_board(),
        m.from != m.to,
        only_mover(s, Piece::Pawn, m.from),
        !s.pieces(s.turn).occupied_at(m.to.index()),
        m.promotion == Some(p),
        m.to.row == m.from.row + forward(s.turn),
        !s.pieces(opposite(s.turn)).en_passant_at(m.to.index()),
    ensures
        after_move(s, m).1 == MoveResult::Played,
        forall|q: Piece| #[trigger] after_move(s, m).0.pieces(s.turn).has_piece(q, m.to.index()) <==> q == p,
        forall|q: Piece| !#[trigger] after_move(s, m).0.pieces(s.turn).has_piece(q, m.from.index()),
        forall|q: Piece| !#[trigger] after_move(s, m).0.pieces(opposite(s.turn)).has_piece(q, m.to.index()),
        others_unchanged(s, after_move(s, m).0, set![m.from.index(), m.to.index()]),
        after_move(s, m).0.pieces(opposite(s.turn)).en_passant == 0,
{
    let c = s.turn;
    let f = s.pieces(c);
    let e = s.pieces(opposite(c));
    let (from, to) = (m.from.index(), m.to.index());
    crate::board::square::lemma_index_square(m.from);
    crate::board::square::lemma_index_square(m.to);
    assert(f.piece_at(from) == Some(Piece::Pawn));
    assert(!crate::board::board::is_jump_move(c, m)) by {
        match c {
            Color::White => {},
            Color::Black => {},
        }
    }
    let t = after_move(s, m).0;
    let f2 = f.added(to, Piece::Pawn).removed(from);
    let f3 = f2.removed(to).added(to, p);
    let e3 = e.removed(to);
    let ctx0 = crate::board::board::context_of(s);
    let ctx1 = crate::board::board::spec_update_castle_rights(ctx0, Piece::Pawn, m, s.hash).0;
    let ctx2 = crate::board::board::spec_piece_move(ctx1, Piece::Pawn, m, 0).0;
    let ctx3 = crate::board::board::spec_promotion(ctx2, m, p, 0).0;
    assert(ctx3.friendly_pieces == f3 && ctx3.enemy_pieces == e3);
    lemma_with_context_pieces(
        s,
        MoveContext { enemy_pieces: PieceSet { en_passant: 0, ..ctx3.enemy_pieces }, ..ctx3 },
        0,
    );
    assert(t.pieces(c) == f3 && t.pieces(opposite(c)) == PieceSet { en_passant: 0, ..e3 });
    assert forall|q: Piece, j: int| 0 <= j < 64 implies #[trigger] t.pieces(c).has_piece(q, j)
        == (if j == to {
        q == p
    } else if j == from {
        false
    } else {
        f.has_piece(q, j)
    }) by {
        crate::board::board::lemma_moved_has(f, Piece::Pawn, from, to, q, j);
        lemma_removed_has(f2, to, q, j);
        lemma_added_has(f2.removed(to), to, p, q, j);
    }
    assert forall|q: Piece, j: int| 0 <= j < 64 implies #[trigger] t.pieces(opposite(c)).has_piece(
        q,
        j,
    ) == (e.has_piece(q, j) && j != to) by {
        lemma_cleared_has(e3, q, j);
        lemma_removed_has(e, to, q, j);
    }
    assert forall|q: Piece| #[trigger] t.pieces(c).has_piece(q, to) <==> q == p by {}
    assert forall|q: Piece| !#[trigger] t.pieces(c).has_piece(q, from) by {}
    assert forall|q: Piece| !#[trigger] t.pieces(opposite(c)).has_piece(q, to) by {}
}

/// The square of the pawn a pawn of `c` landing on `to` takes en passant: the one it passed.
pub open spec fn passed_pawn_square(c: Color, to: Square) -> Square {
    sq(to.row - forward(c), to.column as int)
}

/// An en passant capture moves the pawn onto the marked square and takes the pawn of the
/// other side that it passed, leaving every other square as it was.
pub proof fn lemma_en_passant_placement(s: BoardState, m: Move)
    requires
        m.from.on_board(),
        m.to.on_board(),
        passed_pawn_square(s.turn, m.to).on_board(),
        m.from != m.to,
        only_mover(s, Piece::Pawn, m.from),
        !s.pieces(s.turn).occupied_at(m.to.index()),
        m.promotion is None,
        m.to.row == m.from.row + forward(s.turn),
        m.to.column == m.from.column + 1 || m.to.column == m.from.column - 1,
        s.pieces(opposite(s.turn)).en_passant_at(m.to.index()),
    ensures
        after_move(s, m).1 == MoveResult::Played,
        forall|q: Piece| #[trigger] after_move(s, m).0.pieces(s.turn).has_piece(q, m.to.index()) <==> q == Piece::Pawn,
        forall|q: Piece| !#[trigger] after_move(s, m).0.pieces(s.turn).has_piece(q, m.from.index()),
        forall|q: Piece|
            !#[trigger] after_move(s, m).0.pieces(opposite(s.turn)).has_piece(
                q,
                passed_pawn_square(s.turn, m.to).index(),
            ),
        others_unchanged(
            s,
            after_move(s, m).0,
            set![m.from.index(), m.to.index(), passed_pawn_square(s.turn, m.to).index()],
        ),
        after_move(s, m).0.pieces(opposite(s.turn)).en_passant == 0,
{
    let c = s.turn;
    let f = s.pieces(c);
    let e = s.pieces(opposite(c));
    let v = passed_pawn_square(c, m.to);
    let (from, to, vi) = (m.from.index(), m.to.index(), v.index());
    crate::board::square::lemma_index_square(m.from);
    crate::board::square::lemma_index_square(m.to);
    crate::board::square::lemma_index_square(v);
    assert(f.piece_at(from) == Some(Piece::Pawn));
    assert(!crate::board::board::is_jump_move(c, m) && crate::board::board::en_passant_victim(c, m.to)
        == v) by {
        match c {
            Color::White => {},
            Color::Black => {},
        }
    }
    let t = after_move(s, m).0;
    let f2 = f.added(to, Piece::Pawn).removed(from);
    let e3 = e.removed(vi);
    let ctx0 = crate::board::board::context_of(s);
    let ctx1 = crate::board::board::spec_update_castle_rights(ctx0, Piece::Pawn, m, s.hash).0;
    let ctx2 = crate::board::board::spec_piece_move(ctx1, Piece::Pawn, m, 0).0;
    let ctx3 = crate::board::board::spec_en_passant(ctx2, m, 0).0;
    assert(ctx3.friendly_pieces == f2 && ctx3.enemy_pieces == e3);
    lemma_with_context_pieces(
        s,
        MoveContext { enemy_pieces: PieceSet { en_passant: 0, ..ctx3.enemy_pieces }, ..ctx3 },
        0,
    );
    assert(t.pieces(c) == f2 && t.pieces(opposite(c)) == PieceSet { en_passant: 0, ..e3 });
    assert forall|q: Piece, j: int| 0 <= j < 64 implies #[trigger] t.pieces(c).has_piece(q, j)
        == (if j == to {
        q == Piece::Pawn
    } else if j == from {
        false
    } else {
        f.has_piece(q, j)
    }) by {
        crate::board::board::lemma_moved_has(f, Piece::Pawn, from, to, q, j);
    }
    assert forall|q: Piece, j: int| 0 <= j < 64 implies #[trigger] t.pieces(opposite(c)).has_piece(
        q,
        j,
    ) == (e.has_piece(q, j) && j != vi) by {
        lemma_cleared_has(e3, q, j);
        lemma_removed_has(e, vi, q, j);
    }
    assert forall|q: Piece| #[trigger] t.pieces(c).has_piece(q, to) <==> q == Piece::Pawn by {}
    assert forall|q: Piece| !#[trigger] t.pieces(c).has_piece(q, from) by {}
    assert forall|q: Piece| !#[trigger] t.pieces(opposite(c)).has_piece(q, vi) by {}
}

/// A double step of a pawn from its starting row moves it two squares ahead and marks the
/// square it passed as its en passant square; every other square stays as it was.
pub proof fn lemma_double_step_placement(s: BoardState, m: Move)
    requires
        m.from.on_board(),
        m.from.row == crate::board::laws::start_row(s.turn),
        m.to == sq(m.from.row + 2 * forward(s.turn), m.from.column as int),
        only_mover(s, Piece::Pawn, m.from),
        !s.occupied(m.to),
        m.promotion is None,
    ensures
        after_move(s, m).1 == MoveResult::Played,
        forall|q: Piece| #[trigger] after_move(s, m).0.pieces(s.turn).has_piece(q, m.to.index()) <==> q == Piece::Pawn,
        forall|q: Piece| !#[trigger] after_move(s, m).0.pieces(s.turn).has_piece(q, m.from.index()),
        after_move(s, m).0.pieces(s.turn).en_passant_at(
            sq(m.from.row + forward(s.turn), m.from.column as int).index(),
        ),
        others_unchanged(s, after_move(s, m).0, set![m.from.index(), m.to.index()]),
        after_move(s, m).0.pieces(opposite(s.turn)).en_passant == 0,
{
    let c = s.turn;
    let f = s.pieces(c);
    let e = s.pieces(opposite(c));
    let (from, to) = (m.from.index(), m.to.index());
    assert(m.to.on_board() && m.to.row == m.from.row + 2 * forward(c)) by {
        match c {
            Color::White => {},
            Color::Black => {},
        }
    }
    crate::board::square::lemma_index_square(m.from);
    crate::board::square::lemma_index_square(m.to);
    assert(from != to);
    assert(f.piece_at(from) == Some(Piece::Pawn));
    assert(!f.occupied_at(to)) by {
        match c {
            Color::White => {},
            Color::Black => {},
        }
    }
    assert(crate::board::board::is_jump_move(c, m)) by {
        match c {
            Color::White => {},
            Color::Black => {},
        }
    }
    let t = after_move(s, m).0;
    let f2 = f.added(to, Piece::Pawn).removed(from);
    let skipped = sq(m.from.row + forward(c), m.from.column as int);
    let f3 = PieceSet { en_passant: crate::bits::bit(skipped.index()), ..f2 };
    let ctx0 = crate::board::board::context_of(s);
    let ctx1 = crate::board::board::spec_update_castle_rights(ctx0, Piece::Pawn, m, s.hash).0;
    let ctx2 = crate::board::board::spec_piece_move(ctx1, Piece::Pawn, m, 0).0;
    let ctx3 = crate::board::board::spec_pawn_jump(ctx2, m, 0).0;
    assert(ctx3.friendly_pieces == f3 && ctx3.enemy_pieces == e) by {
        match c {
            Color::White => {},
            Color::Black => {},
        }
    }
    lemma_with_context_pieces(
        s,
        MoveContext { enemy_pieces: PieceSet { en_passant: 0, ..ctx3.enemy_pieces }, ..ctx3 },
        0,
    );
    assert(t.pieces(c) == f3 && t.pieces(opposite(c)) == PieceSet { en_passant: 0, ..e });
    crate::board::square::lemma_index_square(skipped);
    crate::bits::lemma_bit_facts(skipped.index(), skipped.index());
    assert forall|q: Piece, j: int| 0 <= j < 64 implies #[trigger] t.pieces(c).has_piece(q, j)
        == (if j == to {
        q == Piece::Pawn
    } else if j == from {
        false
    } else {
        f.has_piece(q, j)
    }) by {
        crate::board::board::lemma_moved_has(f, Piece::Pawn, from, to, q, j);
    }
    assert forall|q: Piece, j: int| 0 <= j < 64 implies #[trigger] t.pieces(opposite(c)).has_piece(
        q,
        j,
    ) == e.has_piece(q, j) by {
        lemma_cleared_has(e, q, j);
    }
    assert forall|q: Piece| #[trigger] t.pieces(c).has_piece(q, to) <==> q == Piece::Pawn by {}
    assert forall|q: Piece| !#[trigger] t.pieces(c).has_piece(q, from) by {}
}

/// The corner of the home row of `c` towards `dir` (1 towards column 7, -1 towards column 0).
pub open spec fn rook_corner(c: Color, dir: int) -> Square {
    sq(crate::board::laws::home_row(c), if dir == 1 {
        7
    } else {
        0
    })
}

/// A castle moves the king two columns along its home row and brings the rook from its
/// corner to the square the king crossed; every other square stays as it was.
pub proof fn lemma_castle_placement(s: BoardState, m: Move, dir: int)
    requires
        dir == 1 || dir == -1,
        m.from == sq(crate::board::laws::home_row(s.turn), 4),
        m.to == sq(crate::board::laws::home_row(s.turn), 4 + 2 * dir),
        only_mover(s, Piece::King, m.from),
        m.promotion is None,
        !s.pieces(s.turn).occupied_at(m.to.index()),
        !s.pieces(s.turn).occupied_at(sq(crate::board::laws::home_row(s.turn), 4 + dir).index()),
        !s.pieces(opposite(s.turn)).occupied_at(m.to.index()),
    ensures
        after_move(s, m).1 == MoveResult::Played,
        forall|q: Piece| #[trigger] after_move(s, m).0.pieces(s.turn).has_piece(q, m.to.index()) <==> q == Piece::King,
        forall|q: Piece|
            #[trigger] after_move(s, m).0.pieces(s.turn).has_piece(
                q,
                sq(crate::board::laws::home_row(s.turn), 4 + dir).index(),
            ) <==> q == Piece::Rook,
        forall|q: Piece| !#[trigger] after_move(s, m).0.pieces(s.turn).has_piece(q, m.from.index()),
        forall|q: Piece|
            !#[trigger] after_move(s, m).0.pieces(s.turn).has_piece(
                q,
                rook_corner(s.turn, dir).index(),
            ),
        others_unchanged(
            s,
            after_move(s, m).0,
            set![
                m.from.index(),
                m.to.index(),
                sq(crate::board::laws::home_row(s.turn), 4 + dir).index(),
                rook_corner(s.turn, dir).index(),
            ],
        ),
{
    let c = s.turn;
    let r = crate::board::laws::home_row(c);
    let f = s.pieces(c);
    let e = s.pieces(opposite(c));
    let corner = sq(r, if dir == 1 {
        7
    } else {
        0
    });
    let crossed = sq(r, 4 + dir);
    let (from, to, ci, xi) = (m.from.index(), m.to.index(), corner.index(), crossed.index());
    assert(m.from.on_board() && m.to.on_board() && corner.on_board() && crossed.on_board());
    crate::board::square::lemma_index_square(m.from);
    crate::board::square::lemma_index_square(m.to);
    crate::board::square::lemma_index_square(corner);
    crate::board::square::lemma_index_square(crossed);
    assert(from != to && ci != from && ci != to && xi != from && xi != to && xi != ci);
    assert(f.piece_at(from) == Some(Piece::King));
    assert(crate::board::board::is_castle_move(Piece::King, m));
    assert(!crate::board::board::is_jump_move(c, m)) by {
        match c {
            Color::White => {},
            Color::Black => {},
        }
    }
    assert(crate::board::board::castle_rook_squares(m, crate::board::board::piece_row(c)) == (
    corner, crossed)) by {
        match c {
            Color::White => {},
            Color::Black => {},
        }
    }
    let t = after_move(s, m).0;
    let f2 = f.added(to, Piece::King).removed(from);
    let f3 = f2.added(xi, Piece::Rook).removed(ci);
    let ctx0 = crate::board::board::context_of(s);
    let ctx1 = crate::board::board::spec_update_castle_rights(ctx0, Piece::King, m, s.hash).0;
    let ctx2 = crate::board::board::spec_piece_move(ctx1, Piece::King, m, 0).0;
    let ctx3 = crate::board::board::spec_castle(ctx2, m, 0).0;
    assert(ctx2.friendly_pieces == f2);
    assert(ctx3.friendly_pieces == f3 && ctx3.enemy_pieces == e) by {
        match c {
            Color::White => {},
            Color::Black => {},
        }
    }
    lemma_with_context_pieces(
        s,
        MoveContext { enemy_pieces: PieceSet { en_passant: 0, ..ctx3.enemy_pieces }, ..ctx3 },
        0,
    );
    assert(t.pieces(c) == f3 && t.pieces(opposite(c)) == PieceSet { en_passant: 0, ..e });
    assert forall|q: Piece, j: int| 0 <= j < 64 implies #[trigger] t.pieces(c).has_piece(q, j)
        == (if j == ci {
        false
    } else if j == xi {
        q == Piece::Rook
    } else if j == to {
        q == Piece::King
    } else if j == from {
        false
    } else {
        f.has_piece(q, j)
    }) by {
        crate::board::board::lemma_moved_has(f, Piece::King, from, to, q, j);
        lemma_added_has(f2, xi, Piece::Rook, q, j);
        lemma_removed_has(f2.added(xi, Piece::Rook), ci, q, j);
        crate::board::board::lemma_moved_has(f, Piece::King, from, to, q, xi);
    }
    assert forall|q: Piece, j: int| 0 <= j < 64 implies #[trigger] t.pieces(opposite(c)).has_piece(
        q,
        j,
    ) == e.has_piece(q, j) by {
        lemma_cleared_has(e, q, j);
    }
    assert forall|q: Piece| #[trigger] t.pieces(c).has_piece(q, to) <==> q == Piece::King by {}
    assert forall|q: Piece| #[trigger] t.pieces(c).has_piece(q, xi) <==> q == Piece::Rook by {}
    assert forall|q: Piece| !#[trigger] t.pieces(c).has_piece(q, from) by {}
    assert forall|q: Piece| !#[trigger] t.pieces(c).has_piece(q, ci) by {}
}

} // verus!
