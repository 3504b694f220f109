use vstd::prelude::*;
use crate::bits::is_set;
use crate::board::board::{
    BoardState, abs, bishop_dirs, castle_available, is_jump_move, king_home, king_home_ok,
    king_moves, king_offsets, kinds_moves, knight_offsets, pawn_direction, pawn_move_to,
    pawn_moves, pawn_row, piece_moves, plain, promotion_row, pseudo_moves, ray_moves, rook_dirs,
    slide_moves, squares_moves, step, step_moves,
};
use crate::board::movement::Move;
use crate::board::piece::{Color, Piece, opposite, piece_types};
use crate::board::piece_set::lowest_square;
use crate::board::square::{Square, sq, squares_of};

verus! {

/// `m` castles the king of the side to move: it starts on the king's square and moves two
/// columns towards a rook with which castling is allowed and available.
pub open spec fn castle_shaped(s: BoardState, m: Move) -> bool {
    let c = s.turn;
    let rights = s.rights(c);
    &&& m.from == lowest_square(s.pieces(c).king)
    &&& m.to.row == m.from.row
    &&& if m.to.column > m.from.column {
        m.to.column == m.from.column + 2 && rights.can_right() && castle_available(s, c, 1)
    } else {
        m.to.column == m.from.column - 2 && rights.can_left() && castle_available(s, c, -1)
    }
}

/// `m` is a move of a `kind` of the side to move of the shape that generation gives such a
/// piece: it leaves a square holding that kind for a square of the board not held by its own
/// side (but where a pawn captures), promotes only a pawn and never to a pawn or a king, steps
/// a pawn two rows only over and onto empty squares, and moves a king two columns only to
/// castle.
pub open spec fn shaped(s: BoardState, kind: Piece, m: Move) -> bool {
    let c = s.turn;
    let friendly = s.pieces(c);
    let enemy = s.pieces(opposite(c));
    &&& m.from.on_board()
    &&& m.to.on_board()
    &&& friendly.has_piece(kind, m.from.index())
    &&& (!friendly.occupied_at(m.to.index()) || (kind == Piece::Pawn && (enemy.occupied_at(
        m.to.index(),
    ) || enemy.en_passant_at(m.to.index()))))
    &&& kind != Piece::Pawn ==> m.promotion is None
    &&& m.promotion != Some(Piece::Pawn)
    &&& m.promotion != Some(Piece::King)
    &&& (kind == Piece::Pawn && is_jump_move(c, m)) ==> {
        &&& m.to == sq(m.from.row + 2 * pawn_direction(c), m.from.column as int)
        &&& !s.occupied(m.to)
        &&& !s.occupied(sq(m.from.row + pawn_direction(c), m.from.column as int))
    }
    &&& (kind == Piece::King && abs(m.to.column - m.from.column) == 2) ==> castle_shaped(s, m)
}

/// Every move of `ms` is shaped as a move of a `kind`.
pub open spec fn all_shaped(s: BoardState, kind: Piece, ms: Seq<Move>) -> bool {
    forall|i: int| 0 <= i < ms.len() ==> shaped(s, kind, #[trigger] ms[i])
}

/// `m` is shaped as a move of some kind.
pub open spec fn some_shaped(s: BoardState, m: Move) -> bool {
    ||| shaped(s, Piece::Pawn, m)
    ||| shaped(s, Piece::Rook, m)
    ||| shaped(s, Piece::Knight, m)
    ||| shaped(s, Piece::Bishop, m)
    ||| shaped(s, Piece::Queen, m)
    ||| shaped(s, Piece::King, m)
}

/// Every move of `ms` is shaped as a move of some kind.
pub open spec fn all_some_shaped(s: BoardState, ms: Seq<Move>) -> bool {
    forall|i: int| 0 <= i < ms.len() ==> #[trigger] some_shaped(s, ms[i])
}

proof fn lemma_all_shaped_add(s: BoardState, kind: Piece, a: Seq<Move>, b: Seq<Move>)
    requires
        all_shaped(s, kind, a),
        all_shaped(s, kind, b),
    ensures
        all_shaped(s, kind, a + b),
{
    assert forall|i: int| 0 <= i < (a + b).len() implies shaped(s, kind, #[trigger] (a + b)[i]) by {
        if i < a.len() {
            assert((a + b)[i] == a[i]);
        } else {
            assert((a + b)[i] == b[i - a.len()]);
        }
    }
}

proof fn lemma_all_some_shaped_add(s: BoardState, a: Seq<Move>, b: Seq<Move>)
    requires
        all_some_shaped(s, a),
        all_some_shaped(s, b),
    ensures
        all_some_shaped(s, a + b),
{
    assert forall|i: int| 0 <= i < (a + b).len() implies #[trigger] some_shaped(s, (a + b)[i]) by {
        if i < a.len() {
            assert((a + b)[i] == a[i]);
        } else {
            assert((a + b)[i] == b[i - a.len()]);
        }
    }
}

proof fn lemma_ray_shaped(s: BoardState, kind: Piece, from: Square, t: Square, d: (i8, i8), fuel: nat)
    requires
        from.on_board(),
        s.pieces(s.turn).has_piece(kind, from.index()),
        kind != Piece::Pawn && kind != Piece::King,
    ensures
        all_shaped(s, kind, ray_moves(s, s.turn, from, t, d, fuel)),
    decreases fuel,
{
    let c = s.turn;
    if fuel > 0 && t.on_board() && !s.pieces(c).occupied_at(t.index()) {
        if !s.pieces(opposite(c)).occupied_at(t.index()) {
            lemma_ray_shaped(s, kind, from, step(t, d), d, (fuel - 1) as nat);
            lemma_all_shaped_add(
                s,
                kind,
                seq![plain(t, from)],
                ray_moves(s, c, from, step(t, d), d, (fuel - 1) as nat),
            );
        }
    }
}

proof fn lemma_slide_shaped(s: BoardState, kind: Piece, from: Square, dirs: Seq<(i8, i8)>, n: nat)
    requires
        from.on_board(),
        s.pieces(s.turn).has_piece(kind, from.index()),
        kind != Piece::Pawn && kind != Piece::King,
    ensures
        all_shaped(s, kind, slide_moves(s, s.turn, from, dirs, n)),
    decreases n,
{
    if n > 0 {
        lemma_slide_shaped(s, kind, from, dirs, (n - 1) as nat);
        lemma_ray_shaped(s, kind, from, step(from, dirs[n - 1]), dirs[n - 1], 8);
        lemma_all_shaped_add(
            s,
            kind,
            slide_moves(s, s.turn, from, dirs, (n - 1) as nat),
            ray_moves(s, s.turn, from, step(from, dirs[n - 1]), dirs[n - 1], 8),
        );
    }
}

proof fn lemma_step_shaped(s: BoardState, kind: Piece, from: Square, dirs: Seq<(i8, i8)>, n: nat)
    requires
        from.on_board(),
        s.pieces(s.turn).has_piece(kind, from.index()),
        kind != Piece::Pawn,
        kind == Piece::King ==> dirs == king_offsets(),
        n <= dirs.len(),
    ensures
        all_shaped(s, kind, step_moves(s, s.turn, from, dirs, n)),
    decreases n,
{
    if n > 0 {
        let t = step(from, dirs[n - 1]);
        lemma_step_shaped(s, kind, from, dirs, (n - 1) as nat);
        let tail: Seq<Move> = if t.on_board() && !s.pieces(s.turn).occupied_at(t.index()) {
            seq![plain(t, from)]
        } else {
            seq![]
        };
        if kind == Piece::King {
            assert(-1 <= dirs[n - 1].1 <= 1);
        }
        assert(all_shaped(s, kind, tail));
        lemma_all_shaped_add(s, kind, step_moves(s, s.turn, from, dirs, (n - 1) as nat), tail);
    }
}

proof fn lemma_pawn_shaped(s: BoardState, from: Square)
    requires
        from.on_board(),
        s.pieces(s.turn).has_piece(Piece::Pawn, from.index()),
    ensures
        all_shaped(s, Piece::Pawn, pawn_moves(s, s.turn, from)),
{
    let c = s.turn;
    let dir = pawn_direction(c);
    let enemy = s.pieces(opposite(c));
    let push = sq(from.row + dir, from.column as int);
    let jump = sq(from.row + 2 * dir, from.column as int);
    let capture_left = sq(from.row + dir, from.column - 1);
    let capture_right = sq(from.row + dir, from.column + 1);
    let row = promotion_row(c);
    let push_moves = if push.on_board() && !s.occupied(push) {
        pawn_move_to(push, from, row)
    } else {
        seq![]
    };
    let jump_moves = if from.row == pawn_row(c) && !s.occupied(jump) && !s.occupied(push) {
        seq![plain(jump, from)]
    } else {
        seq![]
    };
    let left_moves = if capture_left.on_board() && (enemy.en_passant_at(capture_left.index())
        || enemy.occupied_at(capture_left.index())) {
        pawn_move_to(capture_left, from, row)
    } else {
        seq![]
    };
    let right_moves = if capture_right.on_board() && (enemy.en_passant_at(capture_right.index())
        || enemy.occupied_at(capture_right.index())) {
        pawn_move_to(capture_right, from, row)
    } else {
        seq![]
    };
    assert(all_shaped(s, Piece::Pawn, push_moves));
    assert(all_shaped(s, Piece::Pawn, jump_moves));
    assert(all_shaped(s, Piece::Pawn, left_moves));
    assert(all_shaped(s, Piece::Pawn, right_moves));
    lemma_all_shaped_add(s, Piece::Pawn, push_moves, jump_moves);
    lemma_all_shaped_add(s, Piece::Pawn, push_moves + jump_moves, left_moves);
    lemma_all_shaped_add(s, Piece::Pawn, push_moves + jump_moves + left_moves, right_moves);
}

proof fn lemma_king_shaped(s: BoardState, from: Square)
    requires
        from.on_board(),
        king_home_ok(s, s.turn),
        s.pieces(s.turn).has_piece(Piece::King, from.index()),
    ensures
        all_shaped(s, Piece::King, king_moves(s, s.turn, from)),
{
    let c = s.turn;
    let rights = s.rights(c);
    lemma_step_shaped(s, Piece::King, from, king_offsets(), 8);
    if rights.can_left() || rights.can_right() {
        if s.pieces(c).king == 0 {
            crate::bits::lemma_is_set_zero(from.index());
        } else {
            crate::bits::lemma_is_set_bit(king_home(c).index(), from.index());
        }
        assert(from == king_home(c));
        crate::board::board::lemma_lowest_square_bit(king_home(c).index());
        crate::board::square::lemma_square_of_index(king_home(c).index());
    }
    let left: Seq<Move> = if rights.can_left() && castle_available(s, c, -1) {
        seq![plain(sq(from.row as int, from.column - 2), from)]
    } else {
        seq![]
    };
    let right: Seq<Move> = if rights.can_right() && castle_available(s, c, 1) {
        seq![plain(sq(from.row as int, from.column + 2), from)]
    } else {
        seq![]
    };
    assert(all_shaped(s, Piece::King, left));
    assert(all_shaped(s, Piece::King, right));
    lemma_all_shaped_add(s, Piece::King, step_moves(s, c, from, king_offsets(), 8), left);
    lemma_all_shaped_add(s, Piece::King, step_moves(s, c, from, king_offsets(), 8) + left, right);
}

proof fn lemma_piece_shaped(s: BoardState, piece: Piece, from: Square)
    requires
        from.on_board(),
        king_home_ok(s, s.turn),
        s.pieces(s.turn).has_piece(piece, from.index()),
    ensures
        all_shaped(s, piece, piece_moves(s, s.turn, piece, from)),
{
    match piece {
        Piece::Pawn => lemma_pawn_shaped(s, from),
        Piece::Rook => lemma_slide_shaped(s, piece, from, rook_dirs(), 4),
        Piece::Knight => lemma_step_shaped(s, piece, from, knight_offsets(), 8),
        Piece::Bishop => lemma_slide_shaped(s, piece, from, bishop_dirs(), 4),
        Piece::Queen => {
            lemma_slide_shaped(s, piece, from, rook_dirs(), 4);
            lemma_slide_shaped(s, piece, from, bishop_dirs(), 4);
            lemma_all_shaped_add(
                s,
                piece,
                slide_moves(s, s.turn, from, rook_dirs(), 4),
                slide_moves(s, s.turn, from, bishop_dirs(), 4),
            );
        },
        Piece::King => lemma_king_shaped(s, from),
    }
}

proof fn lemma_squares_shaped(s: BoardState, piece: Piece, squares: Seq<Square>, k: nat)
    requires
        k <= squares.len(),
        king_home_ok(s, s.turn),
        forall|i: int|
            0 <= i < squares.len() ==> (#[trigger] squares[i]).on_board() && s.pieces(
                s.turn,
            ).has_piece(piece, squares[i].index()),
    ensures
        all_shaped(s, piece, squares_moves(s, piece, squares, k)),
    decreases k,
{
    if k > 0 {
        lemma_squares_shaped(s, piece, squares, (k - 1) as nat);
        lemma_piece_shaped(s, piece, squares[k - 1]);
        lemma_all_shaped_add(
            s,
            piece,
            squares_moves(s, piece, squares, (k - 1) as nat),
            piece_moves(s, s.turn, piece, squares[k - 1]),
        );
    }
}

proof fn lemma_kinds_shaped(s: BoardState, n: nat)
    requires
        n <= 6,
        king_home_ok(s, s.turn),
    ensures
        all_some_shaped(s, kinds_moves(s, n)),
    decreases n,
{
    if n > 0 {
        let piece = piece_types()[n - 1];
        let bb = s.pieces(s.turn).bb(piece);
        let squares = squares_of(bb);
        lemma_kinds_shaped(s, (n - 1) as nat);
        crate::board::square::lemma_squares_upto(bb, 64);
        lemma_squares_shaped(s, piece, squares, squares.len());
        let ms = squares_moves(s, piece, squares, squares.len());
        assert forall|i: int| 0 <= i < ms.len() implies #[trigger] some_shaped(s, ms[i]) by {
            assert(shaped(s, piece, ms[i]));
        }
        lemma_all_some_shaped_add(s, kinds_moves(s, (n - 1) as nat), ms);
    }
}

/// Every generated move of a position where castling is allowed only for a king on its home
/// square is shaped as a move of some kind.
pub proof fn lemma_pseudo_moves_shaped(s: BoardState)
    requires
        king_home_ok(s, s.turn),
    ensures
        all_some_shaped(s, pseudo_moves(s)),
{
    lemma_kinds_shaped(s, 6);
}

} // verus!
