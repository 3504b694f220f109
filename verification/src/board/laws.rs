use vstd::prelude::*;
use crate::board::board::{
    BoardState, attacked, bishop_dirs, in_check, king_offsets, kinds_moves, knight_offsets,
    pawn_attack, pawn_moves, piece_moves, pseudo_moves, ray_moves, rook_dirs, slide_moves,
    slider_attack, slider_attack_dirs, squares_moves, step, step_attack_dirs, step_moves, plain,
};
use crate::board::movement::Move;
use crate::board::board::{castle_available, exclusive, fen_outcome, king_home_ok, king_moves};
use crate::board::piece::piece_value;
use crate::text::words;
use crate::board::piece::{piece_index, piece_types};
use crate::board::square::squares_of;
use crate::board::piece::{Color, Piece, opposite};
use crate::board::piece_set::lowest_square;
use crate::board::square::{Square, sq};

verus! {

/// `k` steps of -1, 0 or 1 along one coordinate.
pub open spec fn steps(k: int, d: int) -> int {
    if d > 0 {
        k
    } else if d < 0 {
        -k
    } else {
        0
    }
}

/// The square `k` steps from `t` in the direction of `dr` rows and `dc` columns (each -1, 0
/// or 1).
pub open spec fn along(t: Square, dr: int, dc: int, k: int) -> Square {
    sq(t.row + steps(k, dr), t.column + steps(k, dc))
}

/// The square `k` steps from `t` in the direction of `dr` rows and `dc` columns is on the
/// board.
pub open spec fn along_on_board(t: Square, dr: int, dc: int, k: int) -> bool {
    0 <= t.row + steps(k, dr) <= 7 && 0 <= t.column + steps(k, dc) <= 7
}

/// A piece of kind `p` moves along the direction of `dr` rows and `dc` columns: a queen in
/// all eight, a rook along ranks and files, a bishop along diagonals.
pub open spec fn slides_along(p: Piece, dr: int, dc: int) -> bool {
    ||| p == Piece::Queen
    ||| p == Piece::Rook && (dr == 0 || dc == 0)
    ||| p == Piece::Bishop && dr != 0 && dc != 0
}

/// Walking from the `j`-th square to a slider `k` steps away over empty squares finds it.
proof fn lemma_walk_to_slider(
    s: BoardState,
    t: Square,
    dr: int,
    dc: int,
    j: int,
    k: int,
    p: Piece,
    kind: Piece,
    fuel: nat,
)
    requires
        t.on_board(),
        -1 <= dr <= 1,
        -1 <= dc <= 1,
        dr != 0 || dc != 0,
        1 <= j <= k,
        fuel >= k - j + 1,
        along_on_board(t, dr, dc, k),
        forall|i: int| 1 <= i < k ==> !s.occupied(#[trigger] along(t, dr, dc, i)),
        !s.pieces(s.turn).occupied_at(along(t, dr, dc, k).index()),
        s.pieces(opposite(s.turn)).has_piece(p, along(t, dr, dc, k).index()),
        p == kind || p == Piece::Queen,
    ensures
        slider_attack(s, along(t, dr, dc, j), (dr as i8, dc as i8), fuel, kind),
    decreases k - j,
{
    let x = along(t, dr, dc, j);
    assert(along_on_board(t, dr, dc, j));
    assert(x.row == t.row + steps(j, dr) && x.column == t.column + steps(j, dc));
    assert(x.on_board());
    if j < k {
        assert(!s.occupied(x));
        assert(!s.pieces(s.turn).occupied_at(x.index()) && !s.pieces(opposite(s.turn)).occupied_at(
            x.index(),
        )) by {
            match s.turn {
                Color::White => {},
                Color::Black => {},
            }
        }
        lemma_walk_to_slider(s, t, dr, dc, j + 1, k, p, kind, (fuel - 1) as nat);
        assert(steps(j, dr) + dr == steps(j + 1, dr) && steps(j, dc) + dc == steps(j + 1, dc));
        assert(step(x, (dr as i8, dc as i8)) == along(t, dr, dc, j + 1));
    } else {
        let e = s.pieces(opposite(s.turn));
        assert(e.occupied_at(x.index()));
    }
}

/// A queen, rook or bishop of the side not to move attacks every square it can slide to: a
/// square on its rank or file (queen, rook) or diagonal (queen, bishop) with only empty
/// squares between is attacked, and where that square holds the king of the side to move,
/// that side is in check.
pub proof fn lemma_slider_attacks(s: BoardState, t: Square, dr: int, dc: int, k: int, p: Piece)
    requires
        t.on_board(),
        -1 <= dr <= 1,
        -1 <= dc <= 1,
        dr != 0 || dc != 0,
        1 <= k,
        along_on_board(t, dr, dc, k),
        forall|i: int| 1 <= i < k ==> !s.occupied(#[trigger] along(t, dr, dc, i)),
        !s.pieces(s.turn).occupied_at(along(t, dr, dc, k).index()),
        s.pieces(opposite(s.turn)).has_piece(p, along(t, dr, dc, k).index()),
        slides_along(p, dr, dc),
    ensures
        attacked(s, t),
        t == lowest_square(s.pieces(s.turn).king) ==> in_check(s),
{
    assert(k <= 7);
    assert(steps(0, dr) + dr == steps(1, dr) && steps(0, dc) + dc == steps(1, dc));
    let d = (dr as i8, dc as i8);
    let straight = dr == 0 || dc == 0;
    let kind = if straight {
        Piece::Rook
    } else {
        Piece::Bishop
    };
    let dirs = if straight {
        rook_dirs()
    } else {
        bishop_dirs()
    };
    lemma_walk_to_slider(s, t, dr, dc, 1, k, p, kind, 8);
    assert(step(t, d) == along(t, dr, dc, 1));
    let i: int = if straight {
        if dr == 1 {
            0
        } else if dr == -1 {
            1
        } else if dc == 1 {
            2
        } else {
            3
        }
    } else {
        if dr == 1 && dc == 1 {
            0
        } else if dr == -1 && dc == -1 {
            1
        } else if dr == -1 {
            2
        } else {
            3
        }
    };
    assert(dirs[i] == d);
    assert(slider_attack_dirs(s, t, dirs, (i + 1) as nat, kind));
    crate::board::board::lemma_slider_attack_dirs_grows(s, t, dirs, (i + 1) as nat, 4, kind);
}

/// The offset of `dr` rows and `dc` columns is a knight's jump.
pub open spec fn knight_jump(dr: int, dc: int) -> bool {
    ||| (dr == 1 || dr == -1) && (dc == 2 || dc == -2)
    ||| (dr == 2 || dr == -2) && (dc == 1 || dc == -1)
}

/// The offset of `dr` rows and `dc` columns is a king's step.
pub open spec fn king_step(dr: int, dc: int) -> bool {
    -1 <= dr <= 1 && -1 <= dc <= 1 && (dr != 0 || dc != 0)
}

/// The rows a pawn of `c` advances by: up for white, down for black.
pub open spec fn forward(c: Color) -> int {
    match c {
        Color::White => 1,
        Color::Black => -1,
    }
}

/// A knight, king or pawn of the side not to move attacks the squares it reaches: a knight
/// those a knight's jump away, a king its neighbours, a pawn the two squares diagonally in
/// front of it; where that square holds the king of the side to move, that side is in check.
pub proof fn lemma_leaper_attacks(s: BoardState, t: Square, dr: int, dc: int, p: Piece)
    requires
        t.on_board(),
        0 <= t.row + dr <= 7,
        0 <= t.column + dc <= 7,
        s.pieces(opposite(s.turn)).has_piece(p, sq(t.row + dr, t.column + dc).index()),
        (p == Piece::Knight && knight_jump(dr, dc)) || (p == Piece::King && king_step(dr, dc)) || (
        p == Piece::Pawn && dr == -forward(opposite(s.turn)) && (dc == 1 || dc == -1)),
    ensures
        attacked(s, t),
        t == lowest_square(s.pieces(s.turn).king) ==> in_check(s),
{
    let d = (dr as i8, dc as i8);
    let x = sq(t.row + dr, t.column + dc);
    assert(x.on_board());
    if p == Piece::Pawn {
        assert(pawn_attack(s, t)) by {
            match s.turn {
                Color::White => {},
                Color::Black => {},
            }
        }
    } else {
        let dirs = if p == Piece::Knight {
            knight_offsets()
        } else {
            king_offsets()
        };
        let i: int = if p == Piece::Knight {
            if dr == -2 && dc == -1 {
                0
            } else if dr == -2 {
                1
            } else if dr == -1 && dc == -2 {
                2
            } else if dr == -1 {
                3
            } else if dr == 1 && dc == -2 {
                4
            } else if dr == 1 {
                5
            } else if dc == -1 {
                6
            } else {
                7
            }
        } else {
            if dr == 1 && dc == -1 {
                0
            } else if dr == 1 && dc == 0 {
                1
            } else if dr == 1 {
                2
            } else if dr == -1 && dc == -1 {
                3
            } else if dr == -1 && dc == 0 {
                4
            } else if dr == -1 {
                5
            } else if dc == -1 {
                6
            } else {
                7
            }
        };
        assert(dirs[i] == d);
        assert(step(t, dirs[i]) == x);
        assert(step_attack_dirs(s, t, dirs, (i + 1) as nat, p));
        crate::board::board::lemma_step_attack_dirs_grows(s, t, dirs, (i + 1) as nat, 8, p);
    }
}

/// The moves of the pieces on the first `n` squares include those of the `k`-th.
proof fn lemma_squares_moves_contain(
    s: BoardState,
    piece: Piece,
    squares: Seq<Square>,
    n: nat,
    k: int,
    m: Move,
)
    requires
        0 <= k < n <= squares.len(),
        piece_moves(s, s.turn, piece, squares[k]).contains(m),
    ensures
        squares_moves(s, piece, squares, n).contains(m),
    decreases n,
{
    let prev = squares_moves(s, piece, squares, (n - 1) as nat);
    let last = piece_moves(s, s.turn, piece, squares[n - 1]);
    if k == n - 1 {
        let i = choose|i: int| 0 <= i < last.len() && last[i] == m;
        assert((prev + last)[prev.len() + i] == m);
    } else {
        lemma_squares_moves_contain(s, piece, squares, (n - 1) as nat, k, m);
        let i = choose|i: int| 0 <= i < prev.len() && prev[i] == m;
        assert((prev + last)[i] == m);
    }
}

/// The moves of the first `a` piece kinds are among those of the first `b`.
proof fn lemma_kinds_moves_grow(s: BoardState, a: nat, b: nat, m: Move)
    requires
        a <= b,
        kinds_moves(s, a).contains(m),
    ensures
        kinds_moves(s, b).contains(m),
    decreases b - a,
{
    if a < b {
        lemma_kinds_moves_grow(s, a, (b - 1) as nat, m);
        let prev = kinds_moves(s, (b - 1) as nat);
        let piece = piece_types()[b - 1];
        let squares = squares_of(s.pieces(s.turn).bb(piece));
        let rest = squares_moves(s, piece, squares, squares.len());
        let i = choose|i: int| 0 <= i < prev.len() && prev[i] == m;
        assert((prev + rest)[i] == m);
    }
}

/// A move of a pawn of the side to move is among the generated moves.
proof fn lemma_pawn_move_generated(s: BoardState, from: Square, m: Move)
    requires
        from.on_board(),
        s.pieces(s.turn).has_piece(Piece::Pawn, from.index()),
        pawn_moves(s, s.turn, from).contains(m),
    ensures
        pseudo_moves(s).contains(m),
{
    let squares = squares_of(s.pieces(s.turn).bb(Piece::Pawn));
    crate::board::square::lemma_squares_of_exact(s.pieces(s.turn).bb(Piece::Pawn));
    assert(squares.contains(from));
    let k = choose|k: int| 0 <= k < squares.len() && squares[k] == from;
    lemma_squares_moves_contain(s, Piece::Pawn, squares, squares.len(), k, m);
    assert(piece_types()[0] == Piece::Pawn);
    let first = squares_moves(s, Piece::Pawn, squares, squares.len());
    assert(kinds_moves(s, 1) == kinds_moves(s, 0) + first);
    let i = choose|i: int| 0 <= i < first.len() && first[i] == m;
    assert(kinds_moves(s, 1)[i] == m);
    lemma_kinds_moves_grow(s, 1, 6, m);
}

/// The row a pawn of `c` promotes on.
pub open spec fn last_row(c: Color) -> int {
    match c {
        Color::White => 7,
        Color::Black => 0,
    }
}

/// The moves of a pawn onto `to`: the plain move, or the four promotions on the last row.
pub open spec fn lands(moves: Seq<Move>, from: Square, to: Square, c: Color) -> bool {
    if to.row == last_row(c) {
        &&& moves.contains(Move { to, from, promotion: Some(Piece::Queen) })
        &&& moves.contains(Move { to, from, promotion: Some(Piece::Rook) })
        &&& moves.contains(Move { to, from, promotion: Some(Piece::Bishop) })
        &&& moves.contains(Move { to, from, promotion: Some(Piece::Knight) })
    } else {
        moves.contains(Move { to, from, promotion: None })
    }
}

/// A capture of a pawn of `c` onto `to` is among the pawn's moves.
#[verifier::rlimit(30)]
proof fn lemma_pawn_capture_in_moves(s: BoardState, from: Square, dc: int, m: Move)
    requires
        from.on_board(),
        dc == 1 || dc == -1,
        0 <= from.row + forward(s.turn) <= 7,
        0 <= from.column + dc <= 7,
        s.pieces(opposite(s.turn)).en_passant_at(sq(from.row + forward(s.turn), from.column + dc).index())
            || s.pieces(opposite(s.turn)).occupied_at(
            sq(from.row + forward(s.turn), from.column + dc).index(),
        ),
        crate::board::board::pawn_move_to(
            sq(from.row + forward(s.turn), from.column + dc),
            from,
            crate::board::board::promotion_row(s.turn),
        ).contains(m),
    ensures
        pawn_moves(s, s.turn, from).contains(m),
{
    let c = s.turn;
    let to = sq(from.row + forward(c), from.column + dc);
    let moves = pawn_moves(s, c, from);
        let dir = crate::board::board::pawn_direction(c);
    assert(dir == forward(c));
    let push = sq(from.row + dir, from.column as int);
    let jump = sq(from.row + 2 * dir, from.column as int);
    let push_moves = if push.on_board() && !s.occupied(push) {
        crate::board::board::pawn_move_to(push, from, crate::board::board::promotion_row(c))
    } else {
        seq![]
    };
    let jump_moves = if from.row == crate::board::board::pawn_row(c) && !s.occupied(jump)
        && !s.occupied(push) {
        seq![crate::board::board::plain(jump, from)]
    } else {
        seq![]
    };
    let capture_left = sq(from.row + dir, from.column - 1);
    let capture_right = sq(from.row + dir, from.column + 1);
    let left_moves = if capture_left.on_board() && (s.pieces(opposite(c)).en_passant_at(
        capture_left.index(),
    ) || s.pieces(opposite(c)).occupied_at(capture_left.index())) {
        crate::board::board::pawn_move_to(capture_left, from, crate::board::board::promotion_row(c))
    } else {
        seq![]
    };
    let right_moves = if capture_right.on_board() && (s.pieces(opposite(c)).en_passant_at(
        capture_right.index(),
    ) || s.pieces(opposite(c)).occupied_at(capture_right.index())) {
        crate::board::board::pawn_move_to(capture_right, from, crate::board::board::promotion_row(c))
    } else {
        seq![]
    };
    assert(moves == push_moves + jump_moves + left_moves + right_moves);
    let landing = crate::board::board::pawn_move_to(to, from, crate::board::board::promotion_row(c));
    let i = choose|i: int| 0 <= i < landing.len() && landing[i] == m;
    if dc == -1 {
        assert(capture_left == to);
        assert((push_moves + jump_moves + left_moves + right_moves)[push_moves.len() + jump_moves.len() + i] == m);
    } else {
        assert(capture_right == to);
        assert((push_moves + jump_moves + left_moves + right_moves)[push_moves.len() + jump_moves.len() + left_moves.len() + i] == m);
    }
}

/// A capture of a pawn of the side to move is generated.
proof fn lemma_landing_generated(s: BoardState, from: Square, dc: int, m: Move)
    requires
        from.on_board(),
        dc == 1 || dc == -1,
        0 <= from.row + forward(s.turn) <= 7,
        0 <= from.column + dc <= 7,
        s.pieces(s.turn).has_piece(Piece::Pawn, from.index()),
        s.pieces(opposite(s.turn)).en_passant_at(sq(from.row + forward(s.turn), from.column + dc).index())
            || s.pieces(opposite(s.turn)).occupied_at(
            sq(from.row + forward(s.turn), from.column + dc).index(),
        ),
        crate::board::board::pawn_move_to(
            sq(from.row + forward(s.turn), from.column + dc),
            from,
            crate::board::board::promotion_row(s.turn),
        ).contains(m),
    ensures
        pseudo_moves(s).contains(m),
{
    lemma_pawn_capture_in_moves(s, from, dc, m);
    lemma_pawn_move_generated(s, from, m);
}

/// A pawn of the side to move may capture diagonally forward: onto a piece of the other side
/// or onto its en passant square, with a promotion on the last row. Such moves are generated.
pub proof fn lemma_pawn_captures_generated(s: BoardState, from: Square, dc: int)
    requires
        from.on_board(),
        dc == 1 || dc == -1,
        0 <= from.row + forward(s.turn) <= 7,
        0 <= from.column + dc <= 7,
        s.pieces(s.turn).has_piece(Piece::Pawn, from.index()),
        s.pieces(opposite(s.turn)).en_passant_at(sq(from.row + forward(s.turn), from.column + dc).index())
            || s.pieces(opposite(s.turn)).occupied_at(
            sq(from.row + forward(s.turn), from.column + dc).index(),
        ),
    ensures
        lands(pseudo_moves(s), from, sq(from.row + forward(s.turn), from.column + dc), s.turn),
{
    let c = s.turn;
    let to = sq(from.row + forward(c), from.column + dc);
    let landing = crate::board::board::pawn_move_to(to, from, crate::board::board::promotion_row(c));
    assert(crate::board::board::promotion_row(c) == last_row(c)) by {
        match c {
            Color::White => {},
            Color::Black => {},
        }
    }
    if to.row == last_row(c) {
        let m0 = Move { to, from, promotion: Some(Piece::Rook) };
        let m1 = Move { to, from, promotion: Some(Piece::Knight) };
        let m2 = Move { to, from, promotion: Some(Piece::Bishop) };
        let m3 = Move { to, from, promotion: Some(Piece::Queen) };
        assert(landing[0] == m0 && landing[1] == m1 && landing[2] == m2 && landing[3] == m3);
        lemma_landing_generated(s, from, dc, m0);
        lemma_landing_generated(s, from, dc, m1);
        lemma_landing_generated(s, from, dc, m2);
        lemma_landing_generated(s, from, dc, m3);
    } else {
        let m0 = Move { to, from, promotion: None };
        assert(landing[0] == m0);
        lemma_landing_generated(s, from, dc, m0);
    }
}

/// Reading a FEN record grants the castle rights its castling field names: `K` lets white
/// castle towards column 7 and `Q` towards column 0, `k` and `q` the same for black; a letter
/// that is missing grants nothing.
pub proof fn lemma_fen_castle_letters(fen: Seq<char>)
    requires
        fen_outcome(fen) matches Some(Ok(_)),
    ensures
        fen_outcome(fen)->0->Ok_0.turn == (if words(fen)[1] == "w"@ {
            Color::White
        } else {
            Color::Black
        }),
        words(fen)[1] == "w"@ || words(fen)[1] == "b"@,
        ({
            let b = fen_outcome(fen)->0->Ok_0;
            let field = words(fen)[2];
            &&& b.rights(Color::White).can_right() == field.contains('K')
            &&& b.rights(Color::White).can_left() == field.contains('Q')
            &&& b.rights(Color::Black).can_right() == field.contains('k')
            &&& b.rights(Color::Black).can_left() == field.contains('q')
        }),
{
    let field = words(fen)[2];
    if field == "-"@ {
        reveal_strlit("-");
        assert(!field.contains('K')) by {
            if field.contains('K') {
                let i = choose|i: int| 0 <= i < field.len() && field[i] == 'K';
            }
        }
        assert(!field.contains('Q')) by {
            if field.contains('Q') {
                let i = choose|i: int| 0 <= i < field.len() && field[i] == 'Q';
            }
        }
        assert(!field.contains('k')) by {
            if field.contains('k') {
                let i = choose|i: int| 0 <= i < field.len() && field[i] == 'k';
            }
        }
        assert(!field.contains('q')) by {
            if field.contains('q') {
                let i = choose|i: int| 0 <= i < field.len() && field[i] == 'q';
            }
        }
    }
}

/// The entries of the square tables of the pieces, square by square.
proof fn lemma_tables(i: int)
    requires
        0 <= i < 64,
    ensures
        -20 <= crate::board::piece::pawn_table()[i] <= 50,
        -50 <= crate::board::piece::knight_table()[i] <= 20,
        -20 <= crate::board::piece::bishop_table()[i] <= 10,
        -5 <= crate::board::piece::rook_table()[i] <= 10,
        -20 <= crate::board::piece::queen_table()[i] <= 5,
        -50 <= crate::board::piece::king_table()[i] <= 30,
        -50 <= crate::board::piece::king_table_endgame()[i] <= 30,
{
    if i == 0 {
        assert(crate::board::piece::pawn_table()[0] == crate::board::piece::pawn_table()[i]);
        assert(crate::board::piece::rook_table()[0] == crate::board::piece::rook_table()[i]);
        assert(crate::board::piece::knight_table()[0] == crate::board::piece::knight_table()[i]);
        assert(crate::board::piece::bishop_table()[0] == crate::board::piece::bishop_table()[i]);
        assert(crate::board::piece::queen_table()[0] == crate::board::piece::queen_table()[i]);
        assert(crate::board::piece::king_table()[0] == crate::board::piece::king_table()[i]);
        assert(crate::board::piece::king_table_endgame()[0] == crate::board::piece::king_table_endgame()[i]);
    }
    if i == 1 {
        assert(crate::board::piece::pawn_table()[1] == crate::board::piece::pawn_table()[i]);
        assert(crate::board::piece::rook_table()[1] == crate::board::piece::rook_table()[i]);
        assert(crate::board::piece::knight_table()[1] == crate::board::piece::knight_table()[i]);
        assert(crate::board::piece::bishop_table()[1] == crate::board::piece::bishop_table()[i]);
        assert(crate::board::piece::queen_table()[1] == crate::board::piece::queen_table()[i]);
        assert(crate::board::piece::king_table()[1] == crate::board::piece::king_table()[i]);
        assert(crate::board::piece::king_table_endgame()[1] == crate::board::piece::king_table_endgame()[i]);
    }
    if i == 2 {
        assert(crate::board::piece::pawn_table()[2] == crate::board::piece::pawn_table()[i]);
        assert(crate::board::piece::rook_table()[2] == crate::board::piece::rook_table()[i]);
        assert(crate::board::piece::knight_table()[2] == crate::board::piece::knight_table()[i]);
        assert(crate::board::piece::bishop_table()[2] == crate::board::piece::bishop_table()[i]);
        assert(crate::board::piece::queen_table()[2] == crate::board::piece::queen_table()[i]);
        assert(crate::board::piece::king_table()[2] == crate::board::piece::king_table()[i]);
        assert(crate::board::piece::king_table_endgame()[2] == crate::board::piece::king_table_endgame()[i]);
    }
    if i == 3 {
        assert(crate::board::piece::pawn_table()[3] == crate::board::piece::pawn_table()[i]);
        assert(crate::board::piece::rook_table()[3] == crate::board::piece::rook_table()[i]);
        assert(crate::board::piece::knight_table()[3] == crate::board::piece::knight_table()[i]);
        assert(crate::board::piece::bishop_table()[3] == crate::board::piece::bishop_table()[i]);
        assert(crate::board::piece::queen_table()[3] == crate::board::piece::queen_table()[i]);
        assert(crate::board::piece::king_table()[3] == crate::board::piece::king_table()[i]);
        assert(crate::board::piece::king_table_endgame()[3] == crate::board::piece::king_table_endgame()[i]);
    }
    if i == 4 {
        assert(crate::board::piece::pawn_table()[4] == crate::board::piece::pawn_table()[i]);
        assert(crate::board::piece::rook_table()[4] == crate::board::piece::rook_table()[i]);
        assert(crate::board::piece::knight_table()[4] == crate::board::piece::knight_table()[i]);
        assert(crate::board::piece::bishop_table()[4] == crate::board::piece::bishop_table()[i]);
        assert(crate::board::piece::queen_table()[4] == crate::board::piece::queen_table()[i]);
        assert(crate::board::piece::king_table()[4] == crate::board::piece::king_table()[i]);
        assert(crate::board::piece::king_table_endgame()[4] == crate::board::piece::king_table_endgame()[i]);
    }
    if i == 5 {
        assert(crate::board::piece::pawn_table()[5] == crate::board::piece::pawn_table()[i]);
        assert(crate::board::piece::rook_table()[5] == crate::board::piece::rook_table()[i]);
        assert(crate::board::piece::knight_table()[5] == crate::board::piece::knight_table()[i]);
        assert(crate::board::piece::bishop_table()[5] == crate::board::piece::bishop_table()[i]);
        assert(crate::board::piece::queen_table()[5] == crate::board::piece::queen_table()[i]);
        assert(crate::board::piece::king_table()[5] == crate::board::piece::king_table()[i]);
        assert(crate::board::piece::king_table_endgame()[5] == crate::board::piece::king_table_endgame()[i]);
    }
    if i == 6 {
        assert(crate::board::piece::pawn_table()[6] == crate::board::piece::pawn_table()[i]);
        assert(crate::board::piece::rook_table()[6] == crate::board::piece::rook_table()[i]);
        assert(crate::board::piece::knight_table()[6] == crate::board::piece::knight_table()[i]);
        assert(crate::board::piece::bishop_table()[6] == crate::board::piece::bishop_table()[i]);
        assert(crate::board::piece::queen_table()[6] == crate::board::piece::queen_table()[i]);
        assert(crate::board::piece::king_table()[6] == crate::board::piece::king_table()[i]);
        assert(crate::board::piece::king_table_endgame()[6] == crate::board::piece::king_table_endgame()[i]);
    }
    if i == 7 {
        assert(crate::board::piece::pawn_table()[7] == crate::board::piece::pawn_table()[i]);
        assert(crate::board::piece::rook_table()[7] == crate::board::piece::rook_table()[i]);
        assert(crate::board::piece::knight_table()[7] == crate::board::piece::knight_table()[i]);
        assert(crate::board::piece::bishop_table()[7] == crate::board::piece::bishop_table()[i]);
        assert(crate::board::piece::queen_table()[7] == crate::board::piece::queen_table()[i]);
        assert(crate::board::piece::king_table()[7] == crate::board::piece::king_table()[i]);
        assert(crate::board::piece::king_table_endgame()[7] == crate::board::piece::king_table_endgame()[i]);
    }
    if i == 8 {
        assert(crate::board::piece::pawn_table()[8] == crate::board::piece::pawn_table()[i]);
        assert(crate::board::piece::rook_table()[8] == crate::board::piece::rook_table()[i]);
        assert(crate::board::piece::knight_table()[8] == crate::board::piece::knight_table()[i]);
        assert(crate::board::piece::bishop_table()[8] == crate::board::piece::bishop_table()[i]);
        assert(crate::board::piece::queen_table()[8] == crate::board::piece::queen_table()[i]);
        assert(crate::board::piece::king_table()[8] == crate::board::piece::king_table()[i]);
        assert(crate::board::piece::king_table_endgame()[8] == crate::board::piece::king_table_endgame()[i]);
    }
    if i == 9 {
        assert(crate::board::piece::pawn_table()[9] == crate::board::piece::pawn_table()[i]);
        assert(crate::board::piece::rook_table()[9] == crate::board::piece::rook_table()[i]);
        assert(crate::board::piece::knight_table()[9] == crate::board::piece::knight_table()[i]);
        assert(crate::board::piece::bishop_table()[9] == crate::board::piece::bishop_table()[i]);
        assert(crate::board::piece::queen_table()[9] == crate::board::piece::queen_table()[i]);
        assert(crate::board::piece::king_table()[9] == crate::board::piece::king_table()[i]);
        assert(crate::board::piece::king_table_endgame()[9] == crate::board::piece::king_table_endgame()[i]);
    }
    if i == 10 {
        assert(crate::board::piece::pawn_table()[10] == crate::board::piece::pawn_table()[i]);
        assert(crate::board::piece::rook_table()[10] == crate::board::piece::rook_table()[i]);
        assert(crate::board::piece::knight_table()[10] == crate::board::piece::knight_table()[i]);
        assert(crate::board::piece::bishop_table()[10] == crate::board::piece::bishop_table()[i]);
        assert(crate::board::piece::queen_table()[10] == crate::board::piece::queen_table()[i]);
        assert(crate::board::piece::king_table()[10] == crate::board::piece::king_table()[i]);
        assert(crate::board::piece::king_table_endgame()[10] == crate::board::piece::king_table_endgame()[i]);
    }
    if i == 11 {
        assert(crate::board::piece::pawn_table()[11] == crate::board::piece::pawn_table()[i]);
        assert(crate::board::piece::rook_table()[11] == crate::board::piece::rook_table()[i]);
        assert(crate::board::piece::knight_table()[11] == crate::board::piece::knight_table()[i]);
        assert(crate::board::piece::bishop_table()[11] == crate::board::piece::bishop_table()[i]);
        assert(crate::board::piece::queen_table()[11] == crate::board::piece::queen_table()[i]);
        assert(crate::board::piece::king_table()[11] == crate::board::piece::king_table()[i]);
        assert(crate::board::piece::king_table_endgame()[11] == crate::board::piece::king_table_endgame()[i]);
    }
    if i == 12 {
        assert(crate::board::piece::pawn_table()[12] == crate::board::piece::pawn_table()[i]);
        assert(crate::board::piece::rook_table()[12] == crate::board::piece::rook_table()[i]);
        assert(crate::board::piece::knight_table()[12] == crate::board::piece::knight_table()[i]);
        assert(crate::board::piece::bishop_table()[12] == crate::board::piece::bishop_table()[i]);
        assert(crate::board::piece::queen_table()[12] == crate::board::piece::queen_table()[i]);
        assert(crate::board::piece::king_table()[12] == crate::board::piece::king_table()[i]);
        assert(crate::board::piece::king_table_endgame()[12] == crate::board::piece::king_table_endgame()[i]);
    }
    if i == 13 {
        assert(crate::board::piece::pawn_table()[13] == crate::board::piece::pawn_table()[i]);
        assert(crate::board::piece::rook_table()[13] == crate::board::piece::rook_table()[i]);
        assert(crate::board::piece::knight_table()[13] == crate::board::piece::knight_table()[i]);
        assert(crate::board::piece::bishop_table()[13] == crate::board::piece::bishop_table()[i]);
        assert(crate::board::piece::queen_table()[13] == crate::board::piece::queen_table()[i]);
        assert(crate::board::piece::king_table()[13] == crate::board::piece::king_table()[i]);
        assert(crate::board::piece::king_table_endgame()[13] == crate::board::piece::king_table_endgame()[i]);
    }
    if i == 14 {
        assert(crate::board::piece::pawn_table()[14] == crate::board::piece::pawn_table()[i]);
        assert(crate::board::piece::rook_table()[14] == crate::board::piece::rook_table()[i]);
        assert(crate::board::piece::knight_table()[14] == crate::board::piece::knight_table()[i]);
        assert(crate::board::piece::bishop_table()[14] == crate::board::piece::bishop_table()[i]);
        assert(crate::board::piece::queen_table()[14] == crate::board::piece::queen_table()[i]);
        assert(crate::board::piece::king_table()[14] == crate::board::piece::king_table()[i]);
        assert(crate::board::piece::king_table_endgame()[14] == crate::board::piece::king_table_endgame()[i]);
    }
    if i == 15 {
        assert(crate::board::piece::pawn_table()[15] == crate::board::piece::pawn_table()[i]);
        assert(crate::board::piece::rook_table()[15] == crate::board::piece::rook_table()[i]);
        assert(crate::board::piece::knight_table()[15] == crate::board::piece::knight_table()[i]);
        assert(crate::board::piece::bishop_table()[15] == crate::board::piece::bishop_table()[i]);
        assert(crate::board::piece::queen_table()[15] == crate::board::piece::queen_table()[i]);
        assert(crate::board::piece::king_table()[15] == crate::board::piece::king_table()[i]);
        assert(crate::board::piece::king_table_endgame()[15] == crate::board::piece::king_table_endgame()[i]);
    }
    if i == 16 {
        assert(crate::board::piece::pawn_table()[16] == crate::board::piece::pawn_table()[i]);
        assert(crate::board::piece::rook_table()[16] == crate::board::piece::rook_table()[i]);
        assert(crate::board::piece::knight_table()[16] == crate::board::piece::knight_table()[i]);
        assert(crate::board::piece::bishop_table()[16] == crate::board::piece::bishop_table()[i]);
        assert(crate::board::piece::queen_table()[16] == crate::board::piece::queen_table()[i]);
        assert(crate::board::piece::king_table()[16] == crate::board::piece::king_table()[i]);
        assert(crate::board::piece::king_table_endgame()[16] == crate::board::piece::king_table_endgame()[i]);
    }
    if i == 17 {
        assert(crate::board::piece::pawn_table()[17] == crate::board::piece::pawn_table()[i]);
        assert(crate::board::piece::rook_table()[17] == crate::board::piece::rook_table()[i]);
        assert(crate::board::piece::knight_table()[17] == crate::board::piece::knight_table()[i]);
        assert(crate::board::piece::bishop_table()[17] == crate::board::piece::bishop_table()[i]);
        assert(crate::board::piece::queen_table()[17] == crate::board::piece::queen_table()[i]);
        assert(crate::board::piece::king_table()[17] == crate::board::piece::king_table()[i]);
        assert(crate::board::piece::king_table_endgame()[17] == crate::board::piece::king_table_endgame()[i]);
    }
    if i == 18 {
        assert(crate::board::piece::pawn_table()[18] == crate::board::piece::pawn_table()[i]);
        assert(crate::board::piece::rook_table()[18] == crate::board::piece::rook_table()[i]);
        assert(crate::board::piece::knight_table()[18] == crate::board::piece::knight_table()[i]);
        assert(crate::board::piece::bishop_table()[18] == crate::board::piece::bishop_table()[i]);
        assert(crate::board::piece::queen_table()[18] == crate::board::piece::queen_table()[i]);
        assert(crate::board::piece::king_table()[18] == crate::board::piece::king_table()[i]);
        assert(crate::board::piece::king_table_endgame()[18] == crate::board::piece::king_table_endgame()[i]);
    }
    if i == 19 {
        assert(crate::board::piece::pawn_table()[19] == crate::board::piece::pawn_table()[i]);
        assert(crate::board::piece::rook_table()[19] == crate::board::piece::rook_table()[i]);
        assert(crate::board::piece::knight_table()[19] == crate::board::piece::knight_table()[i]);
        assert(crate::board::piece::bishop_table()[19] == crate::board::piece::bishop_table()[i]);
        assert(crate::board::piece::queen_table()[19] == crate::board::piece::queen_table()[i]);
        assert(crate::board::piece::king_table()[19] == crate::board::piece::king_table()[i]);
        assert(crate::board::piece::king_table_endgame()[19] == crate::board::piece::king_table_endgame()[i]);
    }
    if i == 20 {
        assert(crate::board::piece::pawn_table()[20] == crate::board::piece::pawn_table()[i]);
        assert(crate::board::piece::rook_table()[20] == crate::board::piece::rook_table()[i]);
        assert(crate::board::piece::knight_table()[20] == crate::board::piece::knight_table()[i]);
        assert(crate::board::piece::bishop_table()[20] == crate::board::piece::bishop_table()[i]);
        assert(crate::board::piece::queen_table()[20] == crate::board::piece::queen_table()[i]);
        assert(crate::board::piece::king_table()[20] == crate::board::piece::king_table()[i]);
        assert(crate::board::piece::king_table_endgame()[20] == crate::board::piece::king_table_endgame()[i]);
    }
    if i == 21 {
        assert(crate::board::piece::pawn_table()[21] == crate::board::piece::pawn_table()[i]);
        assert(crate::board::piece::rook_table()[21] == crate::board::piece::rook_table()[i]);
        assert(crate::board::piece::knight_table()[21] == crate::board::piece::knight_table()[i]);
        assert(crate::board::piece::bishop_table()[21] == crate::board::piece::bishop_table()[i]);
        assert(crate::board::piece::queen_table()[21] == crate::board::piece::queen_table()[i]);
        assert(crate::board::piece::king_table()[21] == crate::board::piece::king_table()[i]);
        assert(crate::board::piece::king_table_endgame()[21] == crate::board::piece::king_table_endgame()[i]);
    }
    if i == 22 {
        assert(crate::board::piece::pawn_table()[22] == crate::board::piece::pawn_table()[i]);
        assert(crate::board::piece::rook_table()[22] == crate::board::piece::rook_table()[i]);
        assert(crate::board::piece::knight_table()[22] == crate::board::piece::knight_table()[i]);
        assert(crate::board::piece::bishop_table()[22] == crate::board::piece::bishop_table()[i]);
        assert(crate::board::piece::queen_table()[22] == crate::board::piece::queen_table()[i]);
        assert(crate::board::piece::king_table()[22] == crate::board::piece::king_table()[i]);
        assert(crate::board::piece::king_table_endgame()[22] == crate::board::piece::king_table_endgame()[i]);
    }
    if i == 23 {
        assert(crate::board::piece::pawn_table()[23] == crate::board::piece::pawn_table()[i]);
        assert(crate::board::piece::rook_table()[23] == crate::board::piece::rook_table()[i]);
        assert(crate::board::piece::knight_table()[23] == crate::board::piece::knight_table()[i]);
        assert(crate::board::piece::bishop_table()[23] == crate::board::piece::bishop_table()[i]);
        assert(crate::board::piece::queen_table()[23] == crate::board::piece::queen_table()[i]);
        assert(crate::board::piece::king_table()[23] == crate::board::piece::king_table()[i]);
        assert(crate::board::piece::king_table_endgame()[23] == crate::board::piece::king_table_endgame()[i]);
    }
    if i == 24 {
        assert(crate::board::piece::pawn_table()[24] == crate::board::piece::pawn_table()[i]);
        assert(crate::board::piece::rook_table()[24] == crate::board::piece::rook_table()[i]);
        assert(crate::board::piece::knight_table()[24] == crate::board::piece::knight_table()[i]);
        assert(crate::board::piece::bishop_table()[24] == crate::board::piece::bishop_table()[i]);
        assert(crate::board::piece::queen_table()[24] == crate::board::piece::queen_table()[i]);
        assert(crate::board::piece::king_table()[24] == crate::board::piece::king_table()[i]);
        assert(crate::board::piece::king_table_endgame()[24] == crate::board::piece::king_table_endgame()[i]);
    }
    if i == 25 {
        assert(crate::board::piece::pawn_table()[25] == crate::board::piece::pawn_table()[i]);
        assert(crate::board::piece::rook_table()[25] == crate::board::piece::rook_table()[i]);
        assert(crate::board::piece::knight_table()[25] == crate::board::piece::knight_table()[i]);
        assert(crate::board::piece::bishop_table()[25] == crate::board::piece::bishop_table()[i]);
        assert(crate::board::piece::queen_table()[25] == crate::board::piece::queen_table()[i]);
        assert(crate::board::piece::king_table()[25] == crate::board::piece::king_table()[i]);
        assert(crate::board::piece::king_table_endgame()[25] == crate::board::piece::king_table_endgame()[i]);
    }
    if i == 26 {
        assert(crate::board::piece::pawn_table()[26] == crate::board::piece::pawn_table()[i]);
        assert(crate::board::piece::rook_table()[26] == crate::board::piece::rook_table()[i]);
        assert(crate::board::piece::knight_table()[26] == crate::board::piece::knight_table()[i]);
        assert(crate::board::piece::bishop_table()[26] == crate::board::piece::bishop_table()[i]);
        assert(crate::board::piece::queen_table()[26] == crate::board::piece::queen_table()[i]);
        assert(crate::board::piece::king_table()[26] == crate::board::piece::king_table()[i]);
        assert(crate::board::piece::king_table_endgame()[26] == crate::board::piece::king_table_endgame()[i]);
    }
    if i == 27 {
        assert(crate::board::piece::pawn_table()[27] == crate::board::piece::pawn_table()[i]);
        assert(crate::board::piece::rook_table()[27] == crate::board::piece::rook_table()[i]);
        assert(crate::board::piece::knight_table()[27] == crate::board::piece::knight_table()[i]);
        assert(crate::board::piece::bishop_table()[27] == crate::board::piece::bishop_table()[i]);
        assert(crate::board::piece::queen_table()[27] == crate::board::piece::queen_table()[i]);
        assert(crate::board::piece::king_table()[27] == crate::board::piece::king_table()[i]);
        assert(crate::board::piece::king_table_endgame()[27] == crate::board::piece::king_table_endgame()[i]);
    }
    if i == 28 {
        assert(crate::board::piece::pawn_table()[28] == crate::board::piece::pawn_table()[i]);
        assert(crate::board::piece::rook_table()[28] == crate::board::piece::rook_table()[i]);
        assert(crate::board::piece::knight_table()[28] == crate::board::piece::knight_table()[i]);
        assert(crate::board::piece::bishop_table()[28] == crate::board::piece::bishop_table()[i]);
        assert(crate::board::piece::queen_table()[28] == crate::board::piece::queen_table()[i]);
        assert(crate::board::piece::king_table()[28] == crate::board::piece::king_table()[i]);
        assert(crate::board::piece::king_table_endgame()[28] == crate::board::piece::king_table_endgame()[i]);
    }
    if i == 29 {
        assert(crate::board::piece::pawn_table()[29] == crate::board::piece::pawn_table()[i]);
        assert(crate::board::piece::rook_table()[29] == crate::board::piece::rook_table()[i]);
        assert(crate::board::piece::knight_table()[29] == crate::board::piece::knight_table()[i]);
        assert(crate::board::piece::bishop_table()[29] == crate::board::piece::bishop_table()[i]);
        assert(crate::board::piece::queen_table()[29] == crate::board::piece::queen_table()[i]);
        assert(crate::board::piece::king_table()[29] == crate::board::piece::king_table()[i]);
        assert(crate::board::piece::king_table_endgame()[29] == crate::board::piece::king_table_endgame()[i]);
    }
    if i == 30 {
        assert(crate::board::piece::pawn_table()[30] == crate::board::piece::pawn_table()[i]);
        assert(crate::board::piece::rook_table()[30] == crate::board::piece::rook_table()[i]);
        assert(crate::board::piece::knight_table()[30] == crate::board::piece::knight_table()[i]);
        assert(crate::board::piece::bishop_table()[30] == crate::board::piece::bishop_table()[i]);
        assert(crate::board::piece::queen_table()[30] == crate::board::piece::queen_table()[i]);
        assert(crate::board::piece::king_table()[30] == crate::board::piece::king_table()[i]);
        assert(crate::board::piece::king_table_endgame()[30] == crate::board::piece::king_table_endgame()[i]);
    }
    if i == 31 {
        assert(crate::board::piece::pawn_table()[31] == crate::board::piece::pawn_table()[i]);
        assert(crate::board::piece::rook_table()[31] == crate::board::piece::rook_table()[i]);
        assert(crate::board::piece::knight_table()[31] == crate::board::piece::knight_table()[i]);
        assert(crate::board::piece::bishop_table()[31] == crate::board::piece::bishop_table()[i]);
        assert(crate::board::piece::queen_table()[31] == crate::board::piece::queen_table()[i]);
        assert(crate::board::piece::king_table()[31] == crate::board::piece::king_table()[i]);
        assert(crate::board::piece::king_table_endgame()[31] == crate::board::piece::king_table_endgame()[i]);
    }
    if i == 32 {
        assert(crate::board::piece::pawn_table()[32] == crate::board::piece::pawn_table()[i]);
        assert(crate::board::piece::rook_table()[32] == crate::board::piece::rook_table()[i]);
        assert(crate::board::piece::knight_table()[32] == crate::board::piece::knight_table()[i]);
        assert(crate::board::piece::bishop_table()[32] == crate::board::piece::bishop_table()[i]);
        assert(crate::board::piece::queen_table()[32] == crate::board::piece::queen_table()[i]);
        assert(crate::board::piece::king_table()[32] == crate::board::piece::king_table()[i]);
        assert(crate::board::piece::king_table_endgame()[32] == crate::board::piece::king_table_endgame()[i]);
    }
    if i == 33 {
        assert(crate::board::piece::pawn_table()[33] == crate::board::piece::pawn_table()[i]);
        assert(crate::board::piece::rook_table()[33] == crate::board::piece::rook_table()[i]);
        assert(crate::board::piece::knight_table()[33] == crate::board::piece::knight_table()[i]);
        assert(crate::board::piece::bishop_table()[33] == crate::board::piece::bishop_table()[i]);
        assert(crate::board::piece::queen_table()[33] == crate::board::piece::queen_table()[i]);
        assert(crate::board::piece::king_table()[33] == crate::board::piece::king_table()[i]);
        assert(crate::board::piece::king_table_endgame()[33] == crate::board::piece::king_table_endgame()[i]);
    }
    if i == 34 {
        assert(crate::board::piece::pawn_table()[34] == crate::board::piece::pawn_table()[i]);
        assert(crate::board::piece::rook_table()[34] == crate::board::piece::rook_table()[i]);
        assert(crate::board::piece::knight_table()[34] == crate::board::piece::knight_table()[i]);
        assert(crate::board::piece::bishop_table()[34] == crate::board::piece::bishop_table()[i]);
        assert(crate::board::piece::queen_table()[34] == crate::board::piece::queen_table()[i]);
        assert(crate::board::piece::king_table()[34] == crate::board::piece::king_table()[i]);
        assert(crate::board::piece::king_table_endgame()[34] == crate::board::piece::king_table_endgame()[i]);
    }
    if i == 35 {
        assert(crate::board::piece::pawn_table()[35] == crate::board::piece::pawn_table()[i]);
        assert(crate::board::piece::rook_table()[35] == crate::board::piece::rook_table()[i]);
        assert(crate::board::piece::knight_table()[35] == crate::board::piece::knight_table()[i]);
        assert(crate::board::piece::bishop_table()[35] == crate::board::piece::bishop_table()[i]);
        assert(crate::board::piece::queen_table()[35] == crate::board::piece::queen_table()[i]);
        assert(crate::board::piece::king_table()[35] == crate::board::piece::king_table()[i]);
        assert(crate::board::piece::king_table_endgame()[35] == crate::board::piece::king_table_endgame()[i]);
    }
    if i == 36 {
        assert(crate::board::piece::pawn_table()[36] == crate::board::piece::pawn_table()[i]);
        assert(crate::board::piece::rook_table()[36] == crate::board::piece::rook_table()[i]);
        assert(crate::board::piece::knight_table()[36] == crate::board::piece::knight_table()[i]);
        assert(crate::board::piece::bishop_table()[36] == crate::board::piece::bishop_table()[i]);
        assert(crate::board::piece::queen_table()[36] == crate::board::piece::queen_table()[i]);
        assert(crate::board::piece::king_table()[36] == crate::board::piece::king_table()[i]);
        assert(crate::board::piece::king_table_endgame()[36] == crate::board::piece::king_table_endgame()[i]);
    }
    if i == 37 {
        assert(crate::board::piece::pawn_table()[37] == crate::board::piece::pawn_table()[i]);
        assert(crate::board::piece::rook_table()[37] == crate::board::piece::rook_table()[i]);
        assert(crate::board::piece::knight_table()[37] == crate::board::piece::knight_table()[i]);
        assert(crate::board::piece::bishop_table()[37] == crate::board::piece::bishop_table()[i]);
        assert(crate::board::piece::queen_table()[37] == crate::board::piece::queen_table()[i]);
        assert(crate::board::piece::king_table()[37] == crate::board::piece::king_table()[i]);
        assert(crate::board::piece::king_table_endgame()[37] == crate::board::piece::king_table_endgame()[i]);
    }
    if i == 38 {
        assert(crate::board::piece::pawn_table()[38] == crate::board::piece::pawn_table()[i]);
        assert(crate::board::piece::rook_table()[38] == crate::board::piece::rook_table()[i]);
        assert(crate::board::piece::knight_table()[38] == crate::board::piece::knight_table()[i]);
        assert(crate::board::piece::bishop_table()[38] == crate::board::piece::bishop_table()[i]);
        assert(crate::board::piece::queen_table()[38] == crate::board::piece::queen_table()[i]);
        assert(crate::board::piece::king_table()[38] == crate::board::piece::king_table()[i]);
        assert(crate::board::piece::king_table_endgame()[38] == crate::board::piece::king_table_endgame()[i]);
    }
    if i == 39 {
        assert(crate::board::piece::pawn_table()[39] == crate::board::piece::pawn_table()[i]);
        assert(crate::board::piece::rook_table()[39] == crate::board::piece::rook_table()[i]);
        assert(crate::board::piece::knight_table()[39] == crate::board::piece::knight_table()[i]);
        assert(crate::board::piece::bishop_table()[39] == crate::board::piece::bishop_table()[i]);
        assert(crate::board::piece::queen_table()[39] == crate::board::piece::queen_table()[i]);
        assert(crate::board::piece::king_table()[39] == crate::board::piece::king_table()[i]);
        assert(crate::board::piece::king_table_endgame()[39] == crate::board::piece::king_table_endgame()[i]);
    }
    if i == 40 {
        assert(crate::board::piece::pawn_table()[40] == crate::board::piece::pawn_table()[i]);
        assert(crate::board::piece::rook_table()[40] == crate::board::piece::rook_table()[i]);
        assert(crate::board::piece::knight_table()[40] == crate::board::piece::knight_table()[i]);
        assert(crate::board::piece::bishop_table()[40] == crate::board::piece::bishop_table()[i]);
        assert(crate::board::piece::queen_table()[40] == crate::board::piece::queen_table()[i]);
        assert(crate::board::piece::king_table()[40] == crate::board::piece::king_table()[i]);
        assert(crate::board::piece::king_table_endgame()[40] == crate::board::piece::king_table_endgame()[i]);
    }
    if i == 41 {
        assert(crate::board::piece::pawn_table()[41] == crate::board::piece::pawn_table()[i]);
        assert(crate::board::piece::rook_table()[41] == crate::board::piece::rook_table()[i]);
        assert(crate::board::piece::knight_table()[41] == crate::board::piece::knight_table()[i]);
        assert(crate::board::piece::bishop_table()[41] == crate::board::piece::bishop_table()[i]);
        assert(crate::board::piece::queen_table()[41] == crate::board::piece::queen_table()[i]);
        assert(crate::board::piece::king_table()[41] == crate::board::piece::king_table()[i]);
        assert(crate::board::piece::king_table_endgame()[41] == crate::board::piece::king_table_endgame()[i]);
    }
    if i == 42 {
        assert(crate::board::piece::pawn_table()[42] == crate::board::piece::pawn_table()[i]);
        assert(crate::board::piece::rook_table()[42] == crate::board::piece::rook_table()[i]);
        assert(crate::board::piece::knight_table()[42] == crate::board::piece::knight_table()[i]);
        assert(crate::board::piece::bishop_table()[42] == crate::board::piece::bishop_table()[i]);
        assert(crate::board::piece::queen_table()[42] == crate::board::piece::queen_table()[i]);
        assert(crate::board::piece::king_table()[42] == crate::board::piece::king_table()[i]);
        assert(crate::board::piece::king_table_endgame()[42] == crate::board::piece::king_table_endgame()[i]);
    }
    if i == 43 {
        assert(crate::board::piece::pawn_table()[43] == crate::board::piece::pawn_table()[i]);
        assert(crate::board::piece::rook_table()[43] == crate::board::piece::rook_table()[i]);
        assert(crate::board::piece::knight_table()[43] == crate::board::piece::knight_table()[i]);
        assert(crate::board::piece::bishop_table()[43] == crate::board::piece::bishop_table()[i]);
        assert(crate::board::piece::queen_table()[43] == crate::board::piece::queen_table()[i]);
        assert(crate::board::piece::king_table()[43] == crate::board::piece::king_table()[i]);
        assert(crate::board::piece::king_table_endgame()[43] == crate::board::piece::king_table_endgame()[i]);
    }
    if i == 44 {
        assert(crate::board::piece::pawn_table()[44] == crate::board::piece::pawn_table()[i]);
        assert(crate::board::piece::rook_table()[44] == crate::board::piece::rook_table()[i]);
        assert(crate::board::piece::knight_table()[44] == crate::board::piece::knight_table()[i]);
        assert(crate::board::piece::bishop_table()[44] == crate::board::piece::bishop_table()[i]);
        assert(crate::board::piece::queen_table()[44] == crate::board::piece::queen_table()[i]);
        assert(crate::board::piece::king_table()[44] == crate::board::piece::king_table()[i]);
        assert(crate::board::piece::king_table_endgame()[44] == crate::board::piece::king_table_endgame()[i]);
    }
    if i == 45 {
        assert(crate::board::piece::pawn_table()[45] == crate::board::piece::pawn_table()[i]);
        assert(crate::board::piece::rook_table()[45] == crate::board::piece::rook_table()[i]);
        assert(crate::board::piece::knight_table()[45] == crate::board::piece::knight_table()[i]);
        assert(crate::board::piece::bishop_table()[45] == crate::board::piece::bishop_table()[i]);
        assert(crate::board::piece::queen_table()[45] == crate::board::piece::queen_table()[i]);
        assert(crate::board::piece::king_table()[45] == crate::board::piece::king_table()[i]);
        assert(crate::board::piece::king_table_endgame()[45] == crate::board::piece::king_table_endgame()[i]);
    }
    if i == 46 {
        assert(crate::board::piece::pawn_table()[46] == crate::board::piece::pawn_table()[i]);
        assert(crate::board::piece::rook_table()[46] == crate::board::piece::rook_table()[i]);
        assert(crate::board::piece::knight_table()[46] == crate::board::piece::knight_table()[i]);
        assert(crate::board::piece::bishop_table()[46] == crate::board::piece::bishop_table()[i]);
        assert(crate::board::piece::queen_table()[46] == crate::board::piece::queen_table()[i]);
        assert(crate::board::piece::king_table()[46] == crate::board::piece::king_table()[i]);
        assert(crate::board::piece::king_table_endgame()[46] == crate::board::piece::king_table_endgame()[i]);
    }
    if i == 47 {
        assert(crate::board::piece::pawn_table()[47] == crate::board::piece::pawn_table()[i]);
        assert(crate::board::piece::rook_table()[47] == crate::board::piece::rook_table()[i]);
        assert(crate::board::piece::knight_table()[47] == crate::board::piece::knight_table()[i]);
        assert(crate::board::piece::bishop_table()[47] == crate::board::piece::bishop_table()[i]);
        assert(crate::board::piece::queen_table()[47] == crate::board::piece::queen_table()[i]);
        assert(crate::board::piece::king_table()[47] == crate::board::piece::king_table()[i]);
        assert(crate::board::piece::king_table_endgame()[47] == crate::board::piece::king_table_endgame()[i]);
    }
    if i == 48 {
        assert(crate::board::piece::pawn_table()[48] == crate::board::piece::pawn_table()[i]);
        assert(crate::board::piece::rook_table()[48] == crate::board::piece::rook_table()[i]);
        assert(crate::board::piece::knight_table()[48] == crate::board::piece::knight_table()[i]);
        assert(crate::board::piece::bishop_table()[48] == crate::board::piece::bishop_table()[i]);
        assert(crate::board::piece::queen_table()[48] == crate::board::piece::queen_table()[i]);
        assert(crate::board::piece::king_table()[48] == crate::board::piece::king_table()[i]);
        assert(crate::board::piece::king_table_endgame()[48] == crate::board::piece::king_table_endgame()[i]);
    }
    if i == 49 {
        assert(crate::board::piece::pawn_table()[49] == crate::board::piece::pawn_table()[i]);
        assert(crate::board::piece::rook_table()[49] == crate::board::piece::rook_table()[i]);
        assert(crate::board::piece::knight_table()[49] == crate::board::piece::knight_table()[i]);
        assert(crate::board::piece::bishop_table()[49] == crate::board::piece::bishop_table()[i]);
        assert(crate::board::piece::queen_table()[49] == crate::board::piece::queen_table()[i]);
        assert(crate::board::piece::king_table()[49] == crate::board::piece::king_table()[i]);
        assert(crate::board::piece::king_table_endgame()[49] == crate::board::piece::king_table_endgame()[i]);
    }
    if i == 50 {
        assert(crate::board::piece::pawn_table()[50] == crate::board::piece::pawn_table()[i]);
        assert(crate::board::piece::rook_table()[50] == crate::board::piece::rook_table()[i]);
        assert(crate::board::piece::knight_table()[50] == crate::board::piece::knight_table()[i]);
        assert(crate::board::piece::bishop_table()[50] == crate::board::piece::bishop_table()[i]);
        assert(crate::board::piece::queen_table()[50] == crate::board::piece::queen_table()[i]);
        assert(crate::board::piece::king_table()[50] == crate::board::piece::king_table()[i]);
        assert(crate::board::piece::king_table_endgame()[50] == crate::board::piece::king_table_endgame()[i]);
    }
    if i == 51 {
        assert(crate::board::piece::pawn_table()[51] == crate::board::piece::pawn_table()[i]);
        assert(crate::board::piece::rook_table()[51] == crate::board::piece::rook_table()[i]);
        assert(crate::board::piece::knight_table()[51] == crate::board::piece::knight_table()[i]);
        assert(crate::board::piece::bishop_table()[51] == crate::board::piece::bishop_table()[i]);
        assert(crate::board::piece::queen_table()[51] == crate::board::piece::queen_table()[i]);
        assert(crate::board::piece::king_table()[51] == crate::board::piece::king_table()[i]);
        assert(crate::board::piece::king_table_endgame()[51] == crate::board::piece::king_table_endgame()[i]);
    }
    if i == 52 {
        assert(crate::board::piece::pawn_table()[52] == crate::board::piece::pawn_table()[i]);
        assert(crate::board::piece::rook_table()[52] == crate::board::piece::rook_table()[i]);
        assert(crate::board::piece::knight_table()[52] == crate::board::piece::knight_table()[i]);
        assert(crate::board::piece::bishop_table()[52] == crate::board::piece::bishop_table()[i]);
        assert(crate::board::piece::queen_table()[52] == crate::board::piece::queen_table()[i]);
        assert(crate::board::piece::king_table()[52] == crate::board::piece::king_table()[i]);
        assert(crate::board::piece::king_table_endgame()[52] == crate::board::piece::king_table_endgame()[i]);
    }
    if i == 53 {
        assert(crate::board::piece::pawn_table()[53] == crate::board::piece::pawn_table()[i]);
        assert(crate::board::piece::rook_table()[53] == crate::board::piece::rook_table()[i]);
        assert(crate::board::piece::knight_table()[53] == crate::board::piece::knight_table()[i]);
        assert(crate::board::piece::bishop_table()[53] == crate::board::piece::bishop_table()[i]);
        assert(crate::board::piece::queen_table()[53] == crate::board::piece::queen_table()[i]);
        assert(crate::board::piece::king_table()[53] == crate::board::piece::king_table()[i]);
        assert(crate::board::piece::king_table_endgame()[53] == crate::board::piece::king_table_endgame()[i]);
    }
    if i == 54 {
        assert(crate::board::piece::pawn_table()[54] == crate::board::piece::pawn_table()[i]);
        assert(crate::board::piece::rook_table()[54] == crate::board::piece::rook_table()[i]);
        assert(crate::board::piece::knight_table()[54] == crate::board::piece::knight_table()[i]);
        assert(crate::board::piece::bishop_table()[54] == crate::board::piece::bishop_table()[i]);
        assert(crate::board::piece::queen_table()[54] == crate::board::piece::queen_table()[i]);
        assert(crate::board::piece::king_table()[54] == crate::board::piece::king_table()[i]);
        assert(crate::board::piece::king_table_endgame()[54] == crate::board::piece::king_table_endgame()[i]);
    }
    if i == 55 {
        assert(crate::board::piece::pawn_table()[55] == crate::board::piece::pawn_table()[i]);
        assert(crate::board::piece::rook_table()[55] == crate::board::piece::rook_table()[i]);
        assert(crate::board::piece::knight_table()[55] == crate::board::piece::knight_table()[i]);
        assert(crate::board::piece::bishop_table()[55] == crate::board::piece::bishop_table()[i]);
        assert(crate::board::piece::queen_table()[55] == crate::board::piece::queen_table()[i]);
        assert(crate::board::piece::king_table()[55] == crate::board::piece::king_table()[i]);
        assert(crate::board::piece::king_table_endgame()[55] == crate::board::piece::king_table_endgame()[i]);
    }
    if i == 56 {
        assert(crate::board::piece::pawn_table()[56] == crate::board::piece::pawn_table()[i]);
        assert(crate::board::piece::rook_table()[56] == crate::board::piece::rook_table()[i]);
        assert(crate::board::piece::knight_table()[56] == crate::board::piece::knight_table()[i]);
        assert(crate::board::piece::bishop_table()[56] == crate::board::piece::bishop_table()[i]);
        assert(crate::board::piece::queen_table()[56] == crate::board::piece::queen_table()[i]);
        assert(crate::board::piece::king_table()[56] == crate::board::piece::king_table()[i]);
        assert(crate::board::piece::king_table_endgame()[56] == crate::board::piece::king_table_endgame()[i]);
    }
    if i == 57 {
        assert(crate::board::piece::pawn_table()[57] == crate::board::piece::pawn_table()[i]);
        assert(crate::board::piece::rook_table()[57] == crate::board::piece::rook_table()[i]);
        assert(crate::board::piece::knight_table()[57] == crate::board::piece::knight_table()[i]);
        assert(crate::board::piece::bishop_table()[57] == crate::board::piece::bishop_table()[i]);
        assert(crate::board::piece::queen_table()[57] == crate::board::piece::queen_table()[i]);
        assert(crate::board::piece::king_table()[57] == crate::board::piece::king_table()[i]);
        assert(crate::board::piece::king_table_endgame()[57] == crate::board::piece::king_table_endgame()[i]);
    }
    if i == 58 {
        assert(crate::board::piece::pawn_table()[58] == crate::board::piece::pawn_table()[i]);
        assert(crate::board::piece::rook_table()[58] == crate::board::piece::rook_table()[i]);
        assert(crate::board::piece::knight_table()[58] == crate::board::piece::knight_table()[i]);
        assert(crate::board::piece::bishop_table()[58] == crate::board::piece::bishop_table()[i]);
        assert(crate::board::piece::queen_table()[58] == crate::board::piece::queen_table()[i]);
        assert(crate::board::piece::king_table()[58] == crate::board::piece::king_table()[i]);
        assert(crate::board::piece::king_table_endgame()[58] == crate::board::piece::king_table_endgame()[i]);
    }
    if i == 59 {
        assert(crate::board::piece::pawn_table()[59] == crate::board::piece::pawn_table()[i]);
        assert(crate::board::piece::rook_table()[59] == crate::board::piece::rook_table()[i]);
        assert(crate::board::piece::knight_table()[59] == crate::board::piece::knight_table()[i]);
        assert(crate::board::piece::bishop_table()[59] == crate::board::piece::bishop_table()[i]);
        assert(crate::board::piece::queen_table()[59] == crate::board::piece::queen_table()[i]);
        assert(crate::board::piece::king_table()[59] == crate::board::piece::king_table()[i]);
        assert(crate::board::piece::king_table_endgame()[59] == crate::board::piece::king_table_endgame()[i]);
    }
    if i == 60 {
        assert(crate::board::piece::pawn_table()[60] == crate::board::piece::pawn_table()[i]);
        assert(crate::board::piece::rook_table()[60] == crate::board::piece::rook_table()[i]);
        assert(crate::board::piece::knight_table()[60] == crate::board::piece::knight_table()[i]);
        assert(crate::board::piece::bishop_table()[60] == crate::board::piece::bishop_table()[i]);
        assert(crate::board::piece::queen_table()[60] == crate::board::piece::queen_table()[i]);
        assert(crate::board::piece::king_table()[60] == crate::board::piece::king_table()[i]);
        assert(crate::board::piece::king_table_endgame()[60] == crate::board::piece::king_table_endgame()[i]);
    }
    if i == 61 {
        assert(crate::board::piece::pawn_table()[61] == crate::board::piece::pawn_table()[i]);
        assert(crate::board::piece::rook_table()[61] == crate::board::piece::rook_table()[i]);
        assert(crate::board::piece::knight_table()[61] == crate::board::piece::knight_table()[i]);
        assert(crate::board::piece::bishop_table()[61] == crate::board::piece::bishop_table()[i]);
        assert(crate::board::piece::queen_table()[61] == crate::board::piece::queen_table()[i]);
        assert(crate::board::piece::king_table()[61] == crate::board::piece::king_table()[i]);
        assert(crate::board::piece::king_table_endgame()[61] == crate::board::piece::king_table_endgame()[i]);
    }
    if i == 62 {
        assert(crate::board::piece::pawn_table()[62] == crate::board::piece::pawn_table()[i]);
        assert(crate::board::piece::rook_table()[62] == crate::board::piece::rook_table()[i]);
        assert(crate::board::piece::knight_table()[62] == crate::board::piece::knight_table()[i]);
        assert(crate::board::piece::bishop_table()[62] == crate::board::piece::bishop_table()[i]);
        assert(crate::board::piece::queen_table()[62] == crate::board::piece::queen_table()[i]);
        assert(crate::board::piece::king_table()[62] == crate::board::piece::king_table()[i]);
        assert(crate::board::piece::king_table_endgame()[62] == crate::board::piece::king_table_endgame()[i]);
    }
    if i == 63 {
        assert(crate::board::piece::pawn_table()[63] == crate::board::piece::pawn_table()[i]);
        assert(crate::board::piece::rook_table()[63] == crate::board::piece::rook_table()[i]);
        assert(crate::board::piece::knight_table()[63] == crate::board::piece::knight_table()[i]);
        assert(crate::board::piece::bishop_table()[63] == crate::board::piece::bishop_table()[i]);
        assert(crate::board::piece::queen_table()[63] == crate::board::piece::queen_table()[i]);
        assert(crate::board::piece::king_table()[63] == crate::board::piece::king_table()[i]);
        assert(crate::board::piece::king_table_endgame()[63] == crate::board::piece::king_table_endgame()[i]);
    }
}

/// The worth of each piece on any square, whatever the phase of the game: a pawn 80 to 150,
/// a knight 270 to 340, a bishop 310 to 340, a rook 495 to 510, a queen 880 to 905, and the
/// king's place -50 to 30; so a minor piece is always worth more than a pawn, a rook more than
/// a minor piece and a queen more than a rook.
pub proof fn lemma_piece_values(i: int, endgame: bool)
    requires
        0 <= i < 64,
    ensures
        80 <= piece_value(Piece::Pawn, i, endgame) <= 150,
        270 <= piece_value(Piece::Knight, i, endgame) <= 340,
        310 <= piece_value(Piece::Bishop, i, endgame) <= 340,
        495 <= piece_value(Piece::Rook, i, endgame) <= 510,
        880 <= piece_value(Piece::Queen, i, endgame) <= 905,
        -50 <= piece_value(Piece::King, i, endgame) <= 30,
{
    lemma_tables(i);
}

/// A queen, rook or bishop of the side not to move `k` steps from `t` in the direction of
/// `dr` rows and `dc` columns, along which it slides, with only empty squares between.
pub open spec fn slider_hits(s: BoardState, t: Square, dr: int, dc: int, k: int, p: Piece) -> bool {
    &&& -1 <= dr <= 1
    &&& -1 <= dc <= 1
    &&& dr != 0 || dc != 0
    &&& 1 <= k
    &&& along_on_board(t, dr, dc, k)
    &&& forall|i: int| 1 <= i < k ==> !s.occupied(#[trigger] along(t, dr, dc, i))
    &&& !s.pieces(s.turn).occupied_at(along(t, dr, dc, k).index())
    &&& s.pieces(opposite(s.turn)).has_piece(p, along(t, dr, dc, k).index())
    &&& slides_along(p, dr, dc)
}

/// A knight, king or pawn of the side not to move `dr` rows and `dc` columns from `t`, from
/// where it reaches `t`.
pub open spec fn leaper_hits(s: BoardState, t: Square, dr: int, dc: int, p: Piece) -> bool {
    &&& 0 <= t.row + dr <= 7
    &&& 0 <= t.column + dc <= 7
    &&& s.pieces(opposite(s.turn)).has_piece(p, sq(t.row + dr, t.column + dc).index())
    &&& (p == Piece::Knight && knight_jump(dr, dc)) || (p == Piece::King && king_step(dr, dc)) || (
    p == Piece::Pawn && dr == -forward(opposite(s.turn)) && (dc == 1 || dc == -1))
}

/// A piece of kind `p` of the side not to move attacks `t` from `k` steps (one for a knight,
/// king or pawn) in the direction of `dr` rows and `dc` columns.
pub open spec fn attacks_from(s: BoardState, t: Square, dr: int, dc: int, k: int, p: Piece) -> bool {
    slider_hits(s, t, dr, dc, k, p) || (k == 1 && leaper_hits(s, t, dr, dc, p))
}

/// A slider found walking from the `j`-th square in a direction.
proof fn lemma_slider_found(s: BoardState, t: Square, dr: int, dc: int, j: int, fuel: nat, kind: Piece)
    requires
        t.on_board(),
        -1 <= dr <= 1,
        -1 <= dc <= 1,
        dr != 0 || dc != 0,
        kind == (if dr == 0 || dc == 0 {
            Piece::Rook
        } else {
            Piece::Bishop
        }),
        1 <= j,
        j + fuel <= 9,
        forall|i: int| 1 <= i < j ==> !s.occupied(#[trigger] along(t, dr, dc, i)),
        slider_attack(s, along(t, dr, dc, j), (dr as i8, dc as i8), fuel, kind),
    ensures
        exists|k: int, p: Piece| #[trigger] slider_hits(s, t, dr, dc, k, p),
    decreases fuel,
{
    let x = along(t, dr, dc, j);
    assert(x.row == t.row + steps(j, dr) && x.column == t.column + steps(j, dc));
    assert(along_on_board(t, dr, dc, j));
    let f = s.pieces(s.turn);
    let e = s.pieces(opposite(s.turn));
    if e.occupied_at(x.index()) {
        let p = if e.has_piece(kind, x.index()) {
            kind
        } else {
            Piece::Queen
        };
        assert(slider_hits(s, t, dr, dc, j, p));
    } else {
        assert(!s.occupied(x)) by {
            match s.turn {
                Color::White => {},
                Color::Black => {},
            }
        }
        assert(steps(j, dr) + dr == steps(j + 1, dr) && steps(j, dc) + dc == steps(j + 1, dc));
        assert(step(x, (dr as i8, dc as i8)) == along(t, dr, dc, j + 1));
        assert forall|i: int| 1 <= i < j + 1 implies !s.occupied(#[trigger] along(t, dr, dc, i)) by {
            if i == j {
            }
        }
        lemma_slider_found(s, t, dr, dc, j + 1, (fuel - 1) as nat, kind);
    }
}

/// An attack along the first `n` of `dirs` comes from one of them.
proof fn lemma_dirs_found(s: BoardState, t: Square, dirs: Seq<(i8, i8)>, n: nat, kind: Piece)
    requires
        n <= dirs.len(),
        slider_attack_dirs(s, t, dirs, n, kind),
    ensures
        exists|i: int| 0 <= i < n && slider_attack(s, step(t, #[trigger] dirs[i]), dirs[i], 8, kind),
    decreases n,
{
    if n > 0 {
        if slider_attack_dirs(s, t, dirs, (n - 1) as nat, kind) {
            lemma_dirs_found(s, t, dirs, (n - 1) as nat, kind);
        } else {
            assert(slider_attack(s, step(t, dirs[n - 1]), dirs[n - 1], 8, kind));
        }
    }
}

/// A step attack among the first `n` of `dirs` comes from one of them.
proof fn lemma_steps_found(s: BoardState, t: Square, dirs: Seq<(i8, i8)>, n: nat, p: Piece)
    requires
        n <= dirs.len(),
        step_attack_dirs(s, t, dirs, n, p),
    ensures
        exists|i: int|
            0 <= i < n && step(t, #[trigger] dirs[i]).on_board() && s.pieces(opposite(s.turn)).has_piece(
                p,
                step(t, dirs[i]).index(),
            ),
    decreases n,
{
    if n > 0 {
        if step_attack_dirs(s, t, dirs, (n - 1) as nat, p) {
            lemma_steps_found(s, t, dirs, (n - 1) as nat, p);
        } else {
            assert(step(t, dirs[n - 1]).on_board());
        }
    }
}

/// A slider attack along one of `dirs` (rook or bishop lines) has an attacker.
proof fn lemma_slider_dirs_attacker(s: BoardState, t: Square, straight: bool)
    requires
        t.on_board(),
        slider_attack_dirs(
            s,
            t,
            if straight {
                rook_dirs()
            } else {
                bishop_dirs()
            },
            4,
            if straight {
                Piece::Rook
            } else {
                Piece::Bishop
            },
        ),
    ensures
        exists|dr: int, dc: int, k: int, p: Piece| #[trigger] attacks_from(s, t, dr, dc, k, p),
{
    let dirs = if straight {
        rook_dirs()
    } else {
        bishop_dirs()
    };
    let kind = if straight {
        Piece::Rook
    } else {
        Piece::Bishop
    };
    lemma_dirs_found(s, t, dirs, 4, kind);
    let i = choose|i: int| 0 <= i < 4 && slider_attack(s, step(t, #[trigger] dirs[i]), dirs[i], 8, kind);
    let d = dirs[i];
    let dr = d.0 as int;
    let dc = d.1 as int;
    assert(-1 <= dr <= 1 && -1 <= dc <= 1 && (dr != 0 || dc != 0));
    assert(straight == (dr == 0 || dc == 0));
    assert(d == (dr as i8, dc as i8));
    assert(steps(0, dr) + dr == steps(1, dr) && steps(0, dc) + dc == steps(1, dc));
    assert(step(t, d) == along(t, dr, dc, 1));
    lemma_slider_found(s, t, dr, dc, 1, 8, kind);
    let (k, p) = choose|k: int, p: Piece| #[trigger] slider_hits(s, t, dr, dc, k, p);
    assert(attacks_from(s, t, dr, dc, k, p));
}

/// A step attack (knight or king) has an attacker.
proof fn lemma_step_dirs_attacker(s: BoardState, t: Square, knight: bool)
    requires
        t.on_board(),
        step_attack_dirs(
            s,
            t,
            if knight {
                knight_offsets()
            } else {
                king_offsets()
            },
            8,
            if knight {
                Piece::Knight
            } else {
                Piece::King
            },
        ),
    ensures
        exists|dr: int, dc: int, k: int, p: Piece| #[trigger] attacks_from(s, t, dr, dc, k, p),
{
    let dirs = if knight {
        knight_offsets()
    } else {
        king_offsets()
    };
    let p = if knight {
        Piece::Knight
    } else {
        Piece::King
    };
    lemma_steps_found(s, t, dirs, 8, p);
    let i = choose|i: int|
        0 <= i < 8 && step(t, #[trigger] dirs[i]).on_board() && s.pieces(opposite(s.turn)).has_piece(
            p,
            step(t, dirs[i]).index(),
        );
    let dr = dirs[i].0 as int;
    let dc = dirs[i].1 as int;
    if knight {
        assert(knight_jump(dr, dc));
    } else {
        assert(king_step(dr, dc));
    }
    assert(step(t, dirs[i]) == sq(t.row + dr, t.column + dc));
    assert(attacks_from(s, t, dr, dc, 1, p));
}

/// A square is attacked by the side not to move exactly when one of its pieces reaches it:
/// a pawn diagonally in front of it, a knight a jump away, a king next to it, or a queen, rook
/// or bishop along a line it slides on with only empty squares between. So the side to move is
/// in check exactly when its king's square is reached so.
pub proof fn lemma_attacked_exactly(s: BoardState, t: Square)
    requires
        t.on_board(),
    ensures
        attacked(s, t) <==> exists|dr: int, dc: int, k: int, p: Piece| #[trigger] attacks_from(
            s,
            t,
            dr,
            dc,
            k,
            p,
        ),
{
    if attacked(s, t) {
        if pawn_attack(s, t) {
            let dr = -forward(opposite(s.turn));
            let l = sq(t.row + dr, t.column - 1);
            if l.on_board() && s.pieces(opposite(s.turn)).has_piece(Piece::Pawn, l.index()) {
                assert(attacks_from(s, t, dr, -1, 1, Piece::Pawn)) by {
                    match s.turn {
                        Color::White => {},
                        Color::Black => {},
                    }
                }
            } else {
                assert(attacks_from(s, t, dr, 1, 1, Piece::Pawn)) by {
                    match s.turn {
                        Color::White => {},
                        Color::Black => {},
                    }
                }
            }
        } else if slider_attack_dirs(s, t, bishop_dirs(), 4, Piece::Bishop) {
            lemma_slider_dirs_attacker(s, t, false);
        } else if slider_attack_dirs(s, t, rook_dirs(), 4, Piece::Rook) {
            lemma_slider_dirs_attacker(s, t, true);
        } else if step_attack_dirs(s, t, king_offsets(), 8, Piece::King) {
            lemma_step_dirs_attacker(s, t, false);
        } else {
            lemma_step_dirs_attacker(s, t, true);
        }
    }
    if exists|dr: int, dc: int, k: int, p: Piece| #[trigger] attacks_from(s, t, dr, dc, k, p) {
        let (dr, dc, k, p) = choose|dr: int, dc: int, k: int, p: Piece| #[trigger] attacks_from(
            s,
            t,
            dr,
            dc,
            k,
            p,
        );
        if slider_hits(s, t, dr, dc, k, p) {
            lemma_slider_attacks(s, t, dr, dc, k, p);
        } else {
            lemma_leaper_attacks(s, t, dr, dc, p);
        }
    }
}

/// A move of a piece of the side to move is among the generated moves.
proof fn lemma_piece_move_generated(s: BoardState, from: Square, piece: Piece, m: Move)
    requires
        from.on_board(),
        s.pieces(s.turn).has_piece(piece, from.index()),
        piece_moves(s, s.turn, piece, from).contains(m),
    ensures
        pseudo_moves(s).contains(m),
{
    let squares = squares_of(s.pieces(s.turn).bb(piece));
    crate::board::square::lemma_squares_of_exact(s.pieces(s.turn).bb(piece));
    assert(squares.contains(from));
    let k = choose|k: int| 0 <= k < squares.len() && squares[k] == from;
    lemma_squares_moves_contain(s, piece, squares, squares.len(), k, m);
    let idx = piece_index(piece);
    assert(0 <= idx < 6 && piece_types()[idx] == piece);
    let mine = squares_moves(s, piece, squares, squares.len());
    let prev = kinds_moves(s, idx as nat);
    assert(kinds_moves(s, (idx + 1) as nat) == prev + mine);
    let i = choose|i: int| 0 <= i < mine.len() && mine[i] == m;
    assert(kinds_moves(s, (idx + 1) as nat)[prev.len() + i] == m);
    lemma_kinds_moves_grow(s, (idx + 1) as nat, 6, m);
}

/// The steps to the first `n` offsets include each one that lands on the board off the
/// mover's pieces.
proof fn lemma_step_moves_contain(s: BoardState, c: Color, from: Square, dirs: Seq<(i8, i8)>, n: nat, i: int)
    requires
        0 <= i < n <= dirs.len(),
        step(from, dirs[i]).on_board(),
        !s.pieces(c).occupied_at(step(from, dirs[i]).index()),
    ensures
        step_moves(s, c, from, dirs, n).contains(plain(step(from, dirs[i]), from)),
    decreases n,
{
    let m = plain(step(from, dirs[i]), from);
    let prev = step_moves(s, c, from, dirs, (n - 1) as nat);
    let t = step(from, dirs[n - 1]);
    let last = if t.on_board() && !s.pieces(c).occupied_at(t.index()) {
        seq![plain(t, from)]
    } else {
        seq![]
    };
    assert(step_moves(s, c, from, dirs, n) == prev + last);
    if i == n - 1 {
        assert((prev + last)[prev.len() as int] == m);
    } else {
        lemma_step_moves_contain(s, c, from, dirs, (n - 1) as nat, i);
        let j = choose|j: int| 0 <= j < prev.len() && prev[j] == m;
        assert((prev + last)[j] == m);
    }
}

/// A knight or king of the side to move may go to any square a jump (knight) or a step
/// (king) away that is on the board and not held by its own side: such a move is generated.
pub proof fn lemma_leaper_moves_generated(s: BoardState, from: Square, dr: int, dc: int, p: Piece)
    requires
        from.on_board(),
        0 <= from.row + dr <= 7,
        0 <= from.column + dc <= 7,
        s.pieces(s.turn).has_piece(p, from.index()),
        (p == Piece::Knight && knight_jump(dr, dc)) || (p == Piece::King && king_step(dr, dc)),
        !s.pieces(s.turn).occupied_at(sq(from.row + dr, from.column + dc).index()),
    ensures
        pseudo_moves(s).contains(plain(sq(from.row + dr, from.column + dc), from)),
{
    let c = s.turn;
    let to = sq(from.row + dr, from.column + dc);
    let dirs = if p == Piece::Knight {
        knight_offsets()
    } else {
        king_offsets()
    };
    let i: int = if p == Piece::Knight {
        if dr == -2 && dc == -1 {
            0
        } else if dr == -2 {
            1
        } else if dr == -1 && dc == -2 {
            2
        } else if dr == -1 {
            3
        } else if dr == 1 && dc == -2 {
            4
        } else if dr == 1 {
            5
        } else if dc == -1 {
            6
        } else {
            7
        }
    } else {
        if dr == 1 && dc == -1 {
            0
        } else if dr == 1 && dc == 0 {
            1
        } else if dr == 1 {
            2
        } else if dr == -1 && dc == -1 {
            3
        } else if dr == -1 && dc == 0 {
            4
        } else if dr == -1 {
            5
        } else if dc == -1 {
            6
        } else {
            7
        }
    };
    assert(dirs[i] == (dr as i8, dc as i8));
    assert(step(from, dirs[i]) == to);
    lemma_step_moves_contain(s, c, from, dirs, 8, i);
    let m = plain(to, from);
    let steps_part = step_moves(s, c, from, dirs, 8);
    if p == Piece::King {
        let j = choose|j: int| 0 <= j < steps_part.len() && steps_part[j] == m;
        let km = crate::board::board::king_moves(s, c, from);
        assert(km[j] == m);
    }
    lemma_piece_move_generated(s, from, p, m);
}

/// The ray from the `j`-th square reaches the square `k` steps away over empty squares.
proof fn lemma_ray_contains(s: BoardState, from: Square, dr: int, dc: int, j: int, k: int, fuel: nat)
    requires
        from.on_board(),
        -1 <= dr <= 1,
        -1 <= dc <= 1,
        dr != 0 || dc != 0,
        1 <= j <= k,
        fuel >= k - j + 1,
        along_on_board(from, dr, dc, k),
        forall|i: int| 1 <= i < k ==> !s.occupied(#[trigger] along(from, dr, dc, i)),
        !s.pieces(s.turn).occupied_at(along(from, dr, dc, k).index()),
    ensures
        ray_moves(s, s.turn, from, along(from, dr, dc, j), (dr as i8, dc as i8), fuel).contains(
            plain(along(from, dr, dc, k), from),
        ),
    decreases k - j,
{
    let c = s.turn;
    let x = along(from, dr, dc, j);
    assert(along_on_board(from, dr, dc, j));
    assert(x.row == from.row + steps(j, dr) && x.column == from.column + steps(j, dc));
    let m = plain(along(from, dr, dc, k), from);
    if j < k {
        assert(!s.occupied(x));
        assert(!s.pieces(c).occupied_at(x.index()) && !s.pieces(opposite(c)).occupied_at(x.index())) by {
            match c {
                Color::White => {},
                Color::Black => {},
            }
        }
        lemma_ray_contains(s, from, dr, dc, j + 1, k, (fuel - 1) as nat);
        assert(steps(j, dr) + dr == steps(j + 1, dr) && steps(j, dc) + dc == steps(j + 1, dc));
        assert(step(x, (dr as i8, dc as i8)) == along(from, dr, dc, j + 1));
        let rest = ray_moves(s, c, from, along(from, dr, dc, j + 1), (dr as i8, dc as i8), (fuel - 1) as nat);
        let i = choose|i: int| 0 <= i < rest.len() && rest[i] == m;
        assert((seq![plain(x, from)] + rest)[1 + i] == m);
    } else {
        let r = ray_moves(s, c, from, x, (dr as i8, dc as i8), fuel);
        assert(r[0] == m);
    }
}

/// The slides along the first `n` of `dirs` include those along the `i`-th.
proof fn lemma_slide_moves_contain(s: BoardState, c: Color, from: Square, dirs: Seq<(i8, i8)>, n: nat, i: int, m: Move)
    requires
        0 <= i < n <= dirs.len(),
        ray_moves(s, c, from, step(from, dirs[i]), dirs[i], 8).contains(m),
    ensures
        slide_moves(s, c, from, dirs, n).contains(m),
    decreases n,
{
    let prev = slide_moves(s, c, from, dirs, (n - 1) as nat);
    let last = ray_moves(s, c, from, step(from, dirs[n - 1]), dirs[n - 1], 8);
    if i == n - 1 {
        let j = choose|j: int| 0 <= j < last.len() && last[j] == m;
        assert((prev + last)[prev.len() + j] == m);
    } else {
        lemma_slide_moves_contain(s, c, from, dirs, (n - 1) as nat, i, m);
        let j = choose|j: int| 0 <= j < prev.len() && prev[j] == m;
        assert((prev + last)[j] == m);
    }
}

/// A queen, rook or bishop of the side to move may slide along its lines (ranks and files for
/// a queen or rook, diagonals for a queen or bishop) over empty squares to a square not held
/// by its own side, the first piece of the other side included: such a move is generated.
pub proof fn lemma_slider_moves_generated(s: BoardState, from: Square, dr: int, dc: int, k: int, p: Piece)
    requires
        from.on_board(),
        -1 <= dr <= 1,
        -1 <= dc <= 1,
        dr != 0 || dc != 0,
        1 <= k,
        along_on_board(from, dr, dc, k),
        forall|i: int| 1 <= i < k ==> !s.occupied(#[trigger] along(from, dr, dc, i)),
        !s.pieces(s.turn).occupied_at(along(from, dr, dc, k).index()),
        s.pieces(s.turn).has_piece(p, from.index()),
        slides_along(p, dr, dc),
    ensures
        pseudo_moves(s).contains(plain(along(from, dr, dc, k), from)),
{
    let c = s.turn;
    assert(k <= 7);
    let d = (dr as i8, dc as i8);
    let m = plain(along(from, dr, dc, k), from);
    let straight = dr == 0 || dc == 0;
    let dirs = if straight {
        rook_dirs()
    } else {
        bishop_dirs()
    };
    let i: int = if straight {
        if dr == 1 {
            0
        } else if dr == -1 {
            1
        } else if dc == 1 {
            2
        } else {
            3
        }
    } else {
        if dr == 1 && dc == 1 {
            0
        } else if dr == -1 && dc == -1 {
            1
        } else if dr == -1 {
            2
        } else {
            3
        }
    };
    assert(dirs[i] == d);
    lemma_ray_contains(s, from, dr, dc, 1, k, 8);
    assert(steps(0, dr) + dr == steps(1, dr) && steps(0, dc) + dc == steps(1, dc));
    assert(step(from, d) == along(from, dr, dc, 1));
    lemma_slide_moves_contain(s, c, from, dirs, 4, i, m);
    let part = slide_moves(s, c, from, dirs, 4);
    if p == Piece::Queen {
        let rook_part = slide_moves(s, c, from, rook_dirs(), 4);
        let bishop_part = slide_moves(s, c, from, bishop_dirs(), 4);
        let j = choose|j: int| 0 <= j < part.len() && part[j] == m;
        if straight {
            assert((rook_part + bishop_part)[j] == m);
        } else {
            assert((rook_part + bishop_part)[rook_part.len() + j] == m);
        }
    }
    lemma_piece_move_generated(s, from, p, m);
}

/// The row a pawn of `c` starts on.
pub open spec fn start_row(c: Color) -> int {
    match c {
        Color::White => 1,
        Color::Black => 6,
    }
}

/// A pawn of the side to move may advance one square onto an empty square (with a promotion
/// on the last row), and from its starting row two squares over two empty squares: such moves
/// are generated.
#[verifier::spinoff_prover]
#[verifier::rlimit(60)]
pub proof fn lemma_pawn_pushes_generated(s: BoardState, from: Square)
    requires
        from.on_board(),
        s.pieces(s.turn).has_piece(Piece::Pawn, from.index()),
        0 <= from.row + forward(s.turn) <= 7,
        !s.occupied(sq(from.row + forward(s.turn), from.column as int)),
    ensures
        lands(pseudo_moves(s), from, sq(from.row + forward(s.turn), from.column as int), s.turn),
        from.row == start_row(s.turn) && !s.occupied(sq(from.row + 2 * forward(s.turn), from.column as int))
            ==> pseudo_moves(s).contains(plain(sq(from.row + 2 * forward(s.turn), from.column as int), from)),
{
    let c = s.turn;
    let dir = crate::board::board::pawn_direction(c);
    assert(dir == forward(c));
    let row = crate::board::board::promotion_row(c);
    assert(row == last_row(c)) by {
        match c {
            Color::White => {},
            Color::Black => {},
        }
    }
    assert(crate::board::board::pawn_row(c) == start_row(c));
    let push = sq(from.row + dir, from.column as int);
    let jump = sq(from.row + 2 * dir, from.column as int);
    let moves = pawn_moves(s, c, from);
    let push_moves = crate::board::board::pawn_move_to(push, from, row);
    let jump_moves = if from.row == crate::board::board::pawn_row(c) && !s.occupied(jump)
        && !s.occupied(push) {
        seq![plain(jump, from)]
    } else {
        seq![]
    };
    let capture_left = sq(from.row + dir, from.column - 1);
    let capture_right = sq(from.row + dir, from.column + 1);
    let left_moves = if capture_left.on_board() && (s.pieces(opposite(c)).en_passant_at(
        capture_left.index(),
    ) || s.pieces(opposite(c)).occupied_at(capture_left.index())) {
        crate::board::board::pawn_move_to(capture_left, from, row)
    } else {
        seq![]
    };
    let right_moves = if capture_right.on_board() && (s.pieces(opposite(c)).en_passant_at(
        capture_right.index(),
    ) || s.pieces(opposite(c)).occupied_at(capture_right.index())) {
        crate::board::board::pawn_move_to(capture_right, from, row)
    } else {
        seq![]
    };
    assert(push.on_board());
    assert(moves == push_moves + jump_moves + left_moves + right_moves);
    let all = push_moves + jump_moves + left_moves + right_moves;
    assert forall|i: int| 0 <= i < push_moves.len() implies pseudo_moves(s).contains(
        #[trigger] push_moves[i],
    ) by {
        assert(all[i] == push_moves[i]);
        lemma_piece_move_generated(s, from, Piece::Pawn, push_moves[i]);
    }
    if push.row == last_row(c) {
        assert(push_moves[0] == Move { to: push, from, promotion: Some(Piece::Rook) });
        assert(push_moves[1] == Move { to: push, from, promotion: Some(Piece::Knight) });
        assert(push_moves[2] == Move { to: push, from, promotion: Some(Piece::Bishop) });
        assert(push_moves[3] == Move { to: push, from, promotion: Some(Piece::Queen) });
    } else {
        assert(push_moves[0] == Move { to: push, from, promotion: None });
    }
    if from.row == start_row(c) && !s.occupied(jump) {
        assert(all[push_moves.len() as int] == plain(jump, from));
        lemma_piece_move_generated(s, from, Piece::Pawn, plain(jump, from));
    }
}

/// The row of the pieces of `c` at the start: 0 for white, 7 for black.
pub open spec fn home_row(c: Color) -> int {
    match c {
        Color::White => 0,
        Color::Black => 7,
    }
}

/// The side to move may castle towards column 7 (`dir` 1) or column 0 (`dir` -1) when its
/// only king stands on its home square, its rights allow it, the squares between king and
/// rook are empty, the king's square and the two it crosses are not attacked, and its rook
/// stands in the corner: the king's move two columns over is then generated.
pub proof fn lemma_castle_generated(s: BoardState, dir: int)
    requires
        dir == 1 || dir == -1,
        s.pieces(s.turn).king == crate::bits::bit(sq(home_row(s.turn), 4).index()),
        dir == 1 ==> s.rights(s.turn).can_right(),
        dir == -1 ==> s.rights(s.turn).can_left(),
        !s.occupied(sq(home_row(s.turn), 4 + dir)),
        !s.occupied(sq(home_row(s.turn), 4 + 2 * dir)),
        dir == -1 ==> !s.occupied(sq(home_row(s.turn), 1)),
        !attacked(s, sq(home_row(s.turn), 4)),
        !attacked(s, sq(home_row(s.turn), 4 + dir)),
        !attacked(s, sq(home_row(s.turn), 4 + 2 * dir)),
        s.pieces(s.turn).has_piece(
            Piece::Rook,
            sq(home_row(s.turn), if dir == 1 {
                7
            } else {
                0
            }).index(),
        ),
    ensures
        pseudo_moves(s).contains(plain(sq(home_row(s.turn), 4 + 2 * dir), sq(home_row(s.turn), 4))),
{
    let c = s.turn;
    let e = sq(home_row(c), 4);
    assert(e.on_board());
    crate::board::square::lemma_index_square(e);
    crate::board::board::lemma_lowest_square_bit(e.index());
    assert(lowest_square(s.pieces(c).king) == e);
    crate::bits::lemma_is_set_bit(e.index(), e.index());
    assert(s.pieces(c).has_piece(Piece::King, e.index()));
    assert(castle_available(s, c, dir));
    let m = plain(sq(home_row(c), 4 + 2 * dir), e);
    let km = king_moves(s, c, e);
    let steps_part = step_moves(s, c, e, king_offsets(), 8);
    let left: Seq<Move> = if s.rights(c).can_left() && castle_available(s, c, -1) {
        seq![plain(sq(e.row as int, e.column - 2), e)]
    } else {
        seq![]
    };
    let right: Seq<Move> = if s.rights(c).can_right() && castle_available(s, c, 1) {
        seq![plain(sq(e.row as int, e.column + 2), e)]
    } else {
        seq![]
    };
    assert(km == steps_part + left + right);
    if dir == 1 {
        assert(km[(steps_part.len() + left.len()) as int] == m);
    } else {
        assert(km[steps_part.len() as int] == m);
    }
    lemma_piece_move_generated(s, e, Piece::King, m);
}

/// A king of the side to move is only ever generated a move of two columns as a castle: its
/// rights allow it, it is not attacked, the squares it crosses are empty and not attacked,
/// and its rook stands in the corner it castles towards.
#[verifier::spinoff_prover]
pub proof fn lemma_castle_only_when_safe(s: BoardState, m: Move, dir: int)
    requires
        king_home_ok(s, s.turn),
        exclusive(s),
        dir == 1 || dir == -1,
        pseudo_moves(s).contains(m),
        s.pieces(s.turn).has_piece(Piece::King, m.from.index()),
        m.to.row == m.from.row,
        m.to.column == m.from.column + 2 * dir,
    ensures
        dir == 1 ==> s.rights(s.turn).can_right(),
        dir == -1 ==> s.rights(s.turn).can_left(),
        !attacked(s, m.from),
        !s.occupied(sq(m.from.row as int, m.from.column + dir)),
        !attacked(s, sq(m.from.row as int, m.from.column + dir)),
        !s.occupied(m.to),
        !attacked(s, m.to),
        dir == -1 ==> !s.occupied(sq(m.from.row as int, m.from.column - 3)),
        s.pieces(s.turn).has_piece(
            Piece::Rook,
            sq(m.from.row as int, if dir == 1 {
                7
            } else {
                0
            }).index(),
        ),
{
    let c = s.turn;
    crate::board::shapes::lemma_pseudo_moves_shaped(s);
    let i = choose|i: int| 0 <= i < pseudo_moves(s).len() && pseudo_moves(s)[i] == m;
    assert(crate::board::shapes::some_shaped(s, pseudo_moves(s)[i]));
    let k = crate::board::board::lemma_shaped_kind(s, m);
    assert(k == Piece::King) by {
        assert(s.pieces(c).has_piece(k, m.from.index()) && s.pieces(c).has_piece(Piece::King, m.from.index()));
    }
    assert(crate::board::board::abs(m.to.column - m.from.column) == 2);
    assert(crate::board::shapes::castle_shaped(s, m));
    assert(sq(m.from.row as int, m.from.column + 2 * dir) == m.to);
}

} // verus!
