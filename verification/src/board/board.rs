use vstd::prelude::*;
use crate::board::castle_rights::CastleRights;
use crate::board::movement::{Move, MoveResult};
use crate::board::piece::{Color, Piece, PIECE_TYPES, opposite, piece_types};
use crate::bits::is_set;
use crate::board::hashing::{
    key_if, kinds_toggled, lemma_added_toggles, lemma_hash_en_passant, lemma_hash_pieces_toggle,
    lemma_hash_rights, lemma_hash_turn, lemma_removed_toggles, only_kind_at, with_pieces, with_rights,
};
use crate::board::shapes::{castle_shaped, lemma_pseudo_moves_shaped, shaped, some_shaped};
use crate::board::piece_set::{PieceSet, initial_piece_set, lowest_square};
use crate::board::square::{Square, sq, squares_of};
use crate::game::zobrist::{Zobrist, castle_left_key, castle_right_key, en_passant_key, piece_key, turn_key};
use core::ops::Not;
use crate::text::{chars_equal, contains_char, split_whitespace, string_of, words};
use vstd::string::StringSliceAdditionalSpecFns;
use vstd::utf8::encode_utf8;
use vstd::string::StringExecFns;

verus! {

/// What a board holds apart from its hash keys and its move buffer.
#[derive(Clone, Copy, PartialEq, Eq, Debug, Structural)]
pub struct BoardState {
    pub white: PieceSet,
    pub black: PieceSet,
    pub turn: Color,
    pub white_castle: CastleRights,
    pub black_castle: CastleRights,
    pub hash: u64,
}

impl BoardState {
    pub open spec fn pieces(self, c: Color) -> PieceSet {
        match c {
            Color::White => self.white,
            Color::Black => self.black,
        }
    }

    pub open spec fn rights(self, c: Color) -> CastleRights {
        match c {
            Color::White => self.white_castle,
            Color::Black => self.black_castle,
        }
    }

    /// A piece of either color stands on `t`.
    pub open spec fn occupied(self, t: Square) -> bool {
        self.white.occupied_at(t.index()) || self.black.occupied_at(t.index())
    }
}

/// The square one step from `t` in direction `d`.
pub open spec fn step(t: Square, d: (i8, i8)) -> Square {
    sq(t.row + d.0, t.column + d.1)
}

/// A move without promotion.
pub open spec fn plain(to: Square, from: Square) -> Move {
    Move { to, from, promotion: None }
}

/// Coordinates small enough that a step of up to two squares does not overflow an `i8`.
pub open spec fn coords_small(t: Square) -> bool {
    -126 <= t.row <= 125 && -126 <= t.column <= 125
}

/// A direction in which a rook or bishop slides.
pub open spec fn slide_dir(d: (i8, i8)) -> bool {
    (d.0 == 1 || d.0 == -1 || d.0 == 0) && (d.1 == 1 || d.1 == -1 || d.1 == 0) && (d.0 == 0
        ==> d.1 != 0)
}

/// How many squares of the board lie from `t` onwards in direction `d` (for `t` on the board).
pub open spec fn squares_ahead(t: Square, d: (i8, i8)) -> int {
    if d.0 == 1 {
        8 - t.row
    } else if d.0 == -1 {
        t.row + 1
    } else if d.1 == 1 {
        8 - t.column
    } else {
        t.column + 1
    }
}

pub open spec fn rook_dirs() -> Seq<(i8, i8)> {
    seq![(1i8, 0i8), (-1i8, 0i8), (0i8, 1i8), (0i8, -1i8)]
}

pub open spec fn bishop_dirs() -> Seq<(i8, i8)> {
    seq![(1i8, 1i8), (-1i8, -1i8), (-1i8, 1i8), (1i8, -1i8)]
}

pub open spec fn knight_offsets() -> Seq<(i8, i8)> {
    seq![
        (-2i8, -1i8),
        (-2i8, 1i8),
        (-1i8, -2i8),
        (-1i8, 2i8),
        (1i8, -2i8),
        (1i8, 2i8),
        (2i8, -1i8),
        (2i8, 1i8),
    ]
}

pub open spec fn king_offsets() -> Seq<(i8, i8)> {
    seq![
        (1i8, -1i8),
        (1i8, 0i8),
        (1i8, 1i8),
        (-1i8, -1i8),
        (-1i8, 0i8),
        (-1i8, 1i8),
        (0i8, -1i8),
        (0i8, 1i8),
    ]
}

// ---------------------------------------------------------------------------------------------
// Attacks on a square, by the side not to move.
// ---------------------------------------------------------------------------------------------

/// Walking from `t` in direction `d`, the first occupied square holds a `piece` or a queen of
/// the side not to move (a piece of the side to move blocks the line).
pub open spec fn slider_attack(s: BoardState, t: Square, d: (i8, i8), fuel: nat, piece: Piece) -> bool
    decreases fuel,
{
    let friendly = s.pieces(s.turn);
    let enemy = s.pieces(opposite(s.turn));
    if fuel == 0 || !t.on_board() {
        false
    } else if friendly.occupied_at(t.index()) {
        false
    } else if enemy.occupied_at(t.index()) {
        enemy.has_piece(piece, t.index()) || enemy.has_piece(Piece::Queen, t.index())
    } else {
        slider_attack(s, step(t, d), d, (fuel - 1) as nat, piece)
    }
}

/// `square` is attacked along one of the first `n` directions of `dirs`.
pub open spec fn slider_attack_dirs(
    s: BoardState,
    square: Square,
    dirs: Seq<(i8, i8)>,
    n: nat,
    piece: Piece,
) -> bool
    decreases n,
{
    if n == 0 {
        false
    } else {
        slider_attack_dirs(s, square, dirs, (n - 1) as nat, piece) || slider_attack(
            s,
            step(square, dirs[n - 1]),
            dirs[n - 1],
            8,
            piece,
        )
    }
}

/// A `piece` of the side not to move stands one of the first `n` offsets of `dirs` away.
pub open spec fn step_attack_dirs(
    s: BoardState,
    square: Square,
    dirs: Seq<(i8, i8)>,
    n: nat,
    piece: Piece,
) -> bool
    decreases n,
{
    if n == 0 {
        false
    } else {
        let t = step(square, dirs[n - 1]);
        step_attack_dirs(s, square, dirs, (n - 1) as nat, piece) || (t.on_board() && s.pieces(
            opposite(s.turn),
        ).has_piece(piece, t.index()))
    }
}

/// A pawn of the side not to move attacks `square`.
pub open spec fn pawn_attack(s: BoardState, square: Square) -> bool {
    let pawn_direction: int = match s.turn {
        Color::White => -1,
        Color::Black => 1,
    };
    let enemy = s.pieces(opposite(s.turn));
    let left = sq(square.row - pawn_direction, square.column - 1);
    let right = sq(square.row - pawn_direction, square.column + 1);
    (left.on_board() && enemy.has_piece(Piece::Pawn, left.index())) || (right.on_board()
        && enemy.has_piece(Piece::Pawn, right.index()))
}

/// `square` is attacked by the side not to move.
pub open spec fn attacked(s: BoardState, square: Square) -> bool {
    pawn_attack(s, square) || slider_attack_dirs(s, square, bishop_dirs(), 4, Piece::Bishop)
        || slider_attack_dirs(s, square, rook_dirs(), 4, Piece::Rook) || step_attack_dirs(
        s,
        square,
        king_offsets(),
        8,
        Piece::King,
    ) || step_attack_dirs(s, square, knight_offsets(), 8, Piece::Knight)
}

pub proof fn lemma_slider_attack_dirs_grows(
    s: BoardState,
    square: Square,
    dirs: Seq<(i8, i8)>,
    m: nat,
    n: nat,
    piece: Piece,
)
    requires
        m <= n,
        slider_attack_dirs(s, square, dirs, m, piece),
    ensures
        slider_attack_dirs(s, square, dirs, n, piece),
    decreases n - m,
{
    if m < n {
        lemma_slider_attack_dirs_grows(s, square, dirs, m, (n - 1) as nat, piece);
    }
}

pub proof fn lemma_step_attack_dirs_grows(
    s: BoardState,
    square: Square,
    dirs: Seq<(i8, i8)>,
    m: nat,
    n: nat,
    piece: Piece,
)
    requires
        m <= n,
        step_attack_dirs(s, square, dirs, m, piece),
    ensures
        step_attack_dirs(s, square, dirs, n, piece),
    decreases n - m,
{
    if m < n {
        lemma_step_attack_dirs_grows(s, square, dirs, m, (n - 1) as nat, piece);
    }
}

/// The side to move has its (lowest) king attacked.
pub open spec fn in_check(s: BoardState) -> bool {
    attacked(s, lowest_square(s.pieces(s.turn).king))
}

// ---------------------------------------------------------------------------------------------
// Moves of the pieces, before checks are considered.
// ---------------------------------------------------------------------------------------------

/// The moves of a piece of `c` on `from` sliding from `t` in direction `d`: up to and including
/// the first piece of the other side, and up to but excluding the first piece of its own.
pub open spec fn ray_moves(
    s: BoardState,
    c: Color,
    from: Square,
    t: Square,
    d: (i8, i8),
    fuel: nat,
) -> Seq<Move>
    decreases fuel,
{
    if fuel == 0 || !t.on_board() {
        seq![]
    } else if s.pieces(c).occupied_at(t.index()) {
        seq![]
    } else if s.pieces(opposite(c)).occupied_at(t.index()) {
        seq![plain(t, from)]
    } else {
        seq![plain(t, from)] + ray_moves(s, c, from, step(t, d), d, (fuel - 1) as nat)
    }
}

/// The sliding moves from `from` along the first `n` directions of `dirs`.
pub open spec fn slide_moves(s: BoardState, c: Color, from: Square, dirs: Seq<(i8, i8)>, n: nat) -> Seq<Move>
    decreases n,
{
    if n == 0 {
        seq![]
    } else {
        slide_moves(s, c, from, dirs, (n - 1) as nat) + ray_moves(
            s,
            c,
            from,
            step(from, dirs[n - 1]),
            dirs[n - 1],
            8,
        )
    }
}

/// The moves from `from` to the first `n` offsets of `dirs` that are on the board and not
/// occupied by a piece of `c`.
pub open spec fn step_moves(s: BoardState, c: Color, from: Square, dirs: Seq<(i8, i8)>, n: nat) -> Seq<Move>
    decreases n,
{
    if n == 0 {
        seq![]
    } else {
        let t = step(from, dirs[n - 1]);
        step_moves(s, c, from, dirs, (n - 1) as nat) + if t.on_board() && !s.pieces(c).occupied_at(
            t.index(),
        ) {
            seq![plain(t, from)]
        } else {
            seq![]
        }
    }
}

/// A pawn move to `to`: plain, or one move per promotion piece on the promotion row.
pub open spec fn pawn_move_to(to: Square, from: Square, promotion_row: int) -> Seq<Move> {
    if to.row != promotion_row {
        seq![plain(to, from)]
    } else {
        seq![
            Move { to, from, promotion: Some(Piece::Rook) },
            Move { to, from, promotion: Some(Piece::Knight) },
            Move { to, from, promotion: Some(Piece::Bishop) },
            Move { to, from, promotion: Some(Piece::Queen) },
        ]
    }
}

pub open spec fn pawn_direction(c: Color) -> int {
    match c {
        Color::White => 1,
        Color::Black => -1,
    }
}

pub open spec fn pawn_row(c: Color) -> int {
    match c {
        Color::White => 1,
        Color::Black => 6,
    }
}

pub open spec fn piece_row(c: Color) -> int {
    match c {
        Color::White => 0,
        Color::Black => 7,
    }
}

pub open spec fn promotion_row(c: Color) -> int {
    piece_row(opposite(c))
}

/// The moves of a pawn of `c` on `from`: the push, the double step from its starting row, and
/// the captures to either side (onto a piece or the en passant square of the other side).
pub open spec fn pawn_moves(s: BoardState, c: Color, from: Square) -> Seq<Move> {
    let dir = pawn_direction(c);
    let enemy = s.pieces(opposite(c));
    let push = sq(from.row + dir, from.column as int);
    let jump = sq(from.row + 2 * dir, from.column as int);
    let capture_left = sq(from.row + dir, from.column - 1);
    let capture_right = sq(from.row + dir, from.column + 1);
    let push_moves = if push.on_board() && !s.occupied(push) {
        pawn_move_to(push, from, promotion_row(c))
    } else {
        seq![]
    };
    let jump_moves = if from.row == pawn_row(c) && !s.occupied(jump) && !s.occupied(push) {
        seq![plain(jump, from)]
    } else {
        seq![]
    };
    let left_moves = if capture_left.on_board() && (enemy.en_passant_at(capture_left.index())
        || enemy.occupied_at(capture_left.index())) {
        pawn_move_to(capture_left, from, promotion_row(c))
    } else {
        seq![]
    };
    let right_moves = if capture_right.on_board() && (enemy.en_passant_at(capture_right.index())
        || enemy.occupied_at(capture_right.index())) {
        pawn_move_to(capture_right, from, promotion_row(c))
    } else {
        seq![]
    };
    push_moves + jump_moves + left_moves + right_moves
}

/// The king of `c` may castle in direction `dir` (-1 towards column 0, 1 towards column 7):
/// it is not attacked, the squares it crosses are empty and not attacked, the square next to
/// the rook on the long side is empty, and the rook stands in its corner.
pub open spec fn castle_available(s: BoardState, c: Color, dir: int) -> bool {
    let pieces = s.pieces(c);
    let king = lowest_square(pieces.king);
    let over_one = sq(king.row as int, king.column + dir);
    let over_two = sq(king.row as int, king.column + 2 * dir);
    let over_three = sq(king.row as int, king.column + 3 * dir);
    &&& !attacked(s, king)
    &&& !s.occupied(over_one)
    &&& !attacked(s, over_one)
    &&& !s.occupied(over_two)
    &&& !attacked(s, over_two)
    &&& if dir == -1 {
        !s.occupied(over_three) && pieces.has_piece(Piece::Rook, sq(king.row as int, 0).index())
    } else {
        pieces.has_piece(Piece::Rook, sq(king.row as int, 7).index())
    }
}

/// The inputs on which the castle test touches only squares it can index.
pub open spec fn castle_check_defined(s: BoardState, c: Color, dir: int) -> bool {
    let pieces = s.pieces(c);
    let king = lowest_square(pieces.king);
    let over_one = sq(king.row as int, king.column + dir);
    let over_two = sq(king.row as int, king.column + 2 * dir);
    let over_three = sq(king.row as int, king.column + 3 * dir);
    !attacked(s, king) ==> (over_one.bitmap_ok() && ((!s.occupied(over_one) && !attacked(
        s,
        over_one,
    )) ==> (over_two.bitmap_ok() && ((!s.occupied(over_two) && !attacked(s, over_two)) ==> (
    if dir == -1 {
        over_three.bitmap_ok() && (!s.occupied(over_three) ==> sq(king.row as int, 0).bitmap_ok())
    } else {
        sq(king.row as int, 7).bitmap_ok()
    })))))
}

/// The moves of a king of `c` on `from`: one step in any direction, and the castles.
pub open spec fn king_moves(s: BoardState, c: Color, from: Square) -> Seq<Move> {
    let rights = s.rights(c);
    step_moves(s, c, from, king_offsets(), 8) + (if rights.can_left() && castle_available(
        s,
        c,
        -1,
    ) {
        seq![plain(sq(from.row as int, from.column - 2), from)]
    } else {
        seq![]
    }) + (if rights.can_right() && castle_available(s, c, 1) {
        seq![plain(sq(from.row as int, from.column + 2), from)]
    } else {
        seq![]
    })
}

/// The moves of a `piece` of `c` on `from`.
pub open spec fn piece_moves(s: BoardState, c: Color, piece: Piece, from: Square) -> Seq<Move> {
    match piece {
        Piece::Pawn => pawn_moves(s, c, from),
        Piece::Rook => slide_moves(s, c, from, rook_dirs(), 4),
        Piece::Knight => step_moves(s, c, from, knight_offsets(), 8),
        Piece::Bishop => slide_moves(s, c, from, bishop_dirs(), 4),
        Piece::Queen => slide_moves(s, c, from, rook_dirs(), 4) + slide_moves(
            s,
            c,
            from,
            bishop_dirs(),
            4,
        ),
        Piece::King => king_moves(s, c, from),
    }
}

/// The moves of the pieces of kind `piece` of the side to move on the first `k` of `squares`.
pub open spec fn squares_moves(s: BoardState, piece: Piece, squares: Seq<Square>, k: nat) -> Seq<Move>
    decreases k,
{
    if k == 0 {
        seq![]
    } else {
        squares_moves(s, piece, squares, (k - 1) as nat) + piece_moves(
            s,
            s.turn,
            piece,
            squares[k - 1],
        )
    }
}

/// The moves of the side to move for the first `n` piece kinds of `piece_types()`.
pub open spec fn kinds_moves(s: BoardState, n: nat) -> Seq<Move>
    decreases n,
{
    if n == 0 {
        seq![]
    } else {
        let piece = piece_types()[n - 1];
        let squares = squares_of(s.pieces(s.turn).bb(piece));
        kinds_moves(s, (n - 1) as nat) + squares_moves(s, piece, squares, squares.len())
    }
}

/// The moves of the side to move before checks are considered, kind by kind (pawns, rooks,
/// knights, bishops, queens, king) and square by square.
pub open spec fn pseudo_moves(s: BoardState) -> Seq<Move> {
    kinds_moves(s, 6)
}

/// Move generation for the side to move touches only squares it can index.
pub open spec fn generation_defined(s: BoardState) -> bool {
    let c = s.turn;
    s.pieces(c).king != 0 ==> ((s.rights(c).can_left() ==> castle_check_defined(s, c, -1)) && (
    s.rights(c).can_right() ==> castle_check_defined(s, c, 1)))
}

pub struct Board {
    white_pieces: PieceSet,
    black_pieces: PieceSet,
    turn: Color,
    white_castle_rights: CastleRights,
    black_castle_rights: CastleRights,
    hash: u64,
    zobrist: Zobrist,
    moves: Vec<Move>,
}

impl View for Board {
    type V = BoardState;

    closed spec fn view(&self) -> BoardState {
        BoardState {
            white: self.white_pieces,
            black: self.black_pieces,
            turn: self.turn,
            white_castle: self.white_castle_rights,
            black_castle: self.black_castle_rights,
            hash: self.hash,
        }
    }
}

impl Board {
    pub const WHITE_PAWN_ROW: i8 = 1;

    pub const BLACK_PAWN_ROW: i8 = 6;

    pub const WHITE_PIECE_ROW: i8 = 0;

    pub const BLACK_PIECE_ROW: i8 = 7;

    const MAX_MOVE: usize = 300;

    /// The hash keys are those that `Zobrist::new` draws.
    pub closed spec fn wf(&self) -> bool {
        self.zobrist.wf()
    }

    /// The moves found by the last `find_current_possible_moves`.
    pub closed spec fn found_moves(&self) -> Seq<Move> {
        self.moves@
    }

    /// The hash keys the board updates its hash with.
    pub closed spec fn zobrist_keys(&self) -> Zobrist {
        self.zobrist
    }

    fn pieces_of(&self, c: Color) -> (p: PieceSet)
        ensures
            p == self@.pieces(c),
    {
        match c {
            Color::White => self.white_pieces,
            Color::Black => self.black_pieces,
        }
    }

    // --- attacks -----------------------------------------------------------------------------

    fn slider_attacks_from(&self, square: Square, d: (i8, i8), piece: Piece) -> (b: bool)
        requires
            coords_small(square),
            slide_dir(d),
        ensures
            b == slider_attack(self@, step(square, d), d, 8, piece),
    {
        let friendly = self.pieces_of(self.turn);
        let enemy = self.pieces_of(self.turn.not());
        let mut new_square = Square::new(square.row() + d.0, square.column() + d.1);
        let ghost mut fuel: nat = 8;
        while new_square.is_on_board()
            invariant
                slide_dir(d),
                friendly == self@.pieces(self@.turn),
                enemy == self@.pieces(opposite(self@.turn)),
                new_square.on_board() ==> fuel >= squares_ahead(new_square, d),
                slider_attack(self@, new_square, d, fuel, piece) == slider_attack(
                    self@,
                    step(square, d),
                    d,
                    8,
                    piece,
                ),
            decreases fuel,
        {
            if friendly.is_occupied(new_square) {
                return false;
            }
            if enemy.is_occupied(new_square) {
                return enemy.is_piece_type_on(piece, new_square) || enemy.is_piece_type_on(
                    Piece::Queen,
                    new_square,
                );
            }
            new_square = Square::new(new_square.row() + d.0, new_square.column() + d.1);
            proof {
                fuel = (fuel - 1) as nat;
            }
        }
        false
    }

    fn is_square_attacked_by_pawns(&self, square: Square) -> (b: bool)
        requires
            coords_small(square),
        ensures
            b == pawn_attack(self@, square),
    {
        let (pawn_direction, enemy_pieces): (i8, PieceSet) = match self.turn {
            Color::White => (-1, self.black_pieces),
            Color::Black => (1, self.white_pieces),
        };
        let left_pawn = Square::new(square.row() - pawn_direction, square.column() - 1);
        if left_pawn.is_on_board() {
            if enemy_pieces.is_piece_type_on(Piece::Pawn, left_pawn) {
                return true;
            }
        }
        let right_pawn = Square::new(square.row() - pawn_direction, square.column() + 1);
        if right_pawn.is_on_board() {
            if enemy_pieces.is_piece_type_on(Piece::Pawn, right_pawn) {
                return true;
            }
        }
        false
    }

    fn is_square_attacked_diagonally(&self, square: Square) -> (b: bool)
        requires
            coords_small(square),
        ensures
            b == slider_attack_dirs(self@, square, bishop_dirs(), 4, Piece::Bishop),
    {
        let move_directions: [(i8, i8); 4] = [(1, 1), (-1, -1), (-1, 1), (1, -1)];
        assert(move_directions@ == bishop_dirs());
        let mut i: usize = 0;
        while i < 4
            invariant
                i <= 4,
                coords_small(square),
                move_directions@ == bishop_dirs(),
                !slider_attack_dirs(self@, square, bishop_dirs(), i as nat, Piece::Bishop),
            decreases 4 - i,
        {
            if self.slider_attacks_from(square, move_directions[i], Piece::Bishop) {
                proof {
                    lemma_slider_attack_dirs_grows(self@, square, bishop_dirs(), (i + 1) as nat, 4, Piece::Bishop);
                }
                return true;
            }
            i = i + 1;
        }
        false
    }

    pub fn is_square_attacked_vert_horiz(&self, square: Square) -> (b: bool)
        requires
            coords_small(square),
        ensures
            b == slider_attack_dirs(self@, square, rook_dirs(), 4, Piece::Rook),
    {
        let move_directions: [(i8, i8); 4] = [(1, 0), (-1, 0), (0, 1), (0, -1)];
        assert(move_directions@ == rook_dirs());
        let mut i: usize = 0;
        while i < 4
            invariant
                i <= 4,
                coords_small(square),
                move_directions@ == rook_dirs(),
                !slider_attack_dirs(self@, square, rook_dirs(), i as nat, Piece::Rook),
            decreases 4 - i,
        {
            if self.slider_attacks_from(square, move_directions[i], Piece::Rook) {
                proof {
                    lemma_slider_attack_dirs_grows(self@, square, rook_dirs(), (i + 1) as nat, 4, Piece::Rook);
                }
                return true;
            }
            i = i + 1;
        }
        false
    }

    fn step_attacks(&self, square: Square, dirs: &[(i8, i8); 8], piece: Piece) -> (b: bool)
        requires
            coords_small(square),
            forall|i: int| 0 <= i < 8 ==> -2 <= #[trigger] dirs@[i].0 <= 2 && -2 <= dirs@[i].1 <= 2,
        ensures
            b == step_attack_dirs(self@, square, dirs@, 8, piece),
    {
        let enemy_pieces = self.pieces_of(self.turn.not());
        let mut i: usize = 0;
        while i < 8
            invariant
                i <= 8,
                coords_small(square),
                enemy_pieces == self@.pieces(opposite(self@.turn)),
                forall|j: int| 0 <= j < 8 ==> -2 <= #[trigger] dirs@[j].0 <= 2 && -2 <= dirs@[j].1 <= 2,
                !step_attack_dirs(self@, square, dirs@, i as nat, piece),
            decreases 8 - i,
        {
            let direction = dirs[i];
            let new_square = Square::new(square.row() + direction.0, square.column() + direction.1);
            if new_square.is_on_board() {
                if enemy_pieces.is_piece_type_on(piece, new_square) {
                    proof {
                        lemma_step_attack_dirs_grows(self@, square, dirs@, (i + 1) as nat, 8, piece);
                    }
                    return true;
                }
            }
            i = i + 1;
        }
        false
    }

    pub fn is_square_attacked_by_king(&self, square: Square) -> (b: bool)
        requires
            coords_small(square),
        ensures
            b == step_attack_dirs(self@, square, king_offsets(), 8, Piece::King),
    {
        let move_directions: [(i8, i8); 8] = [
            (1, -1),
            (1, 0),
            (1, 1),
            (-1, -1),
            (-1, 0),
            (-1, 1),
            (0, -1),
            (0, 1),
        ];
        assert(move_directions@ == king_offsets());
        self.step_attacks(square, &move_directions, Piece::King)
    }

    pub fn is_square_attacked_by_knight(&self, square: Square) -> (b: bool)
        requires
            coords_small(square),
        ensures
            b == step_attack_dirs(self@, square, knight_offsets(), 8, Piece::Knight),
    {
        let move_directions: [(i8, i8); 8] = [
            (-2, -1),
            (-2, 1),
            (-1, -2),
            (-1, 2),
            (1, -2),
            (1, 2),
            (2, -1),
            (2, 1),
        ];
        assert(move_directions@ == knight_offsets());
        self.step_attacks(square, &move_directions, Piece::Knight)
    }

    /// Whether the side not to move attacks `square`.
    pub fn is_square_attacked(&self, square: Square) -> (b: bool)
        requires
            coords_small(square),
        ensures
            b == attacked(self@, square),
    {
        self.is_square_attacked_by_pawns(square) || self.is_square_attacked_diagonally(square)
            || self.is_square_attacked_vert_horiz(square) || self.is_square_attacked_by_king(square)
            || self.is_square_attacked_by_knight(square)
    }

    /// Whether the king of the side to move is attacked.
    pub fn is_in_check(&self) -> (b: bool)
        ensures
            b == in_check(self@),
    {
        let friendly_pieces = self.pieces_of(self.turn);
        let king_pos = friendly_pieces.find_king();
        proof {
            vstd::std_specs::bits::axiom_u64_trailing_zeros(friendly_pieces.king);
        }
        self.is_square_attacked(king_pos)
    }

    pub fn turn(&self) -> (c: Color)
        ensures
            c == self@.turn,
    {
        self.turn
    }

    pub fn white_pieces(&self) -> (p: &PieceSet)
        ensures
            *p == self@.white,
    {
        &self.white_pieces
    }

    pub fn black_pieces(&self) -> (p: &PieceSet)
        ensures
            *p == self@.black,
    {
        &self.black_pieces
    }

    pub fn hash(&self) -> (h: u64)
        ensures
            h == self@.hash,
    {
        self.hash
    }
}

proof fn lemma_squares_moves_step(s: BoardState, piece: Piece, squares: Seq<Square>, k: nat)
    ensures
        squares_moves(s, piece, squares, k + 1) == squares_moves(s, piece, squares, k)
            + piece_moves(s, s.turn, piece, squares[k as int]),
{
}

impl Board {
    /// Appends the moves of a piece of `color` on `square` sliding in direction `d`.
    fn push_ray_moves(&mut self, square: Square, d: (i8, i8), color: Color)
        requires
            square.on_board(),
            slide_dir(d),
        ensures
            final(self)@ == old(self)@,
            final(self).zobrist == old(self).zobrist,
            final(self).moves@ == old(self).moves@ + ray_moves(
                old(self)@,
                color,
                square,
                step(square, d),
                d,
                8,
            ),
    {
        let ghost s = self@;
        let ghost target = self.moves@ + ray_moves(s, color, square, step(square, d), d, 8);
        let friendly = self.pieces_of(color);
        let enemy = self.pieces_of(color.not());
        let mut new_square = Square::new(square.row() + d.0, square.column() + d.1);
        let ghost mut fuel: nat = 8;
        while new_square.is_on_board()
            invariant
                slide_dir(d),
                s == old(self)@,
                target == old(self).moves@ + ray_moves(s, color, square, step(square, d), d, 8),
                self@ == s,
                self.zobrist == old(self).zobrist,
                friendly == s.pieces(color),
                enemy == s.pieces(opposite(color)),
                new_square.on_board() ==> fuel >= squares_ahead(new_square, d),
                self.moves@ + ray_moves(s, color, square, new_square, d, fuel) == target,
            decreases fuel,
        {
            if friendly.is_occupied(new_square) {
                assert(self.moves@ + seq![] =~= self.moves@);
                return;
            }
            if enemy.is_occupied(new_square) {
                self.moves.push(Move::new(new_square, square, None));
                return;
            }
            self.moves.push(Move::new(new_square, square, None));
            new_square = Square::new(new_square.row() + d.0, new_square.column() + d.1);
            proof {
                fuel = (fuel - 1) as nat;
                assert(self.moves@ + ray_moves(s, color, square, new_square, d, fuel) =~= target);
            }
        }
        assert(self.moves@ + seq![] =~= self.moves@);
    }

    /// Appends the sliding moves along the four directions of `dirs`.
    fn push_slide_moves(&mut self, square: Square, color: Color, dirs: &[(i8, i8); 4])
        requires
            square.on_board(),
            forall|i: int| 0 <= i < 4 ==> slide_dir(#[trigger] dirs@[i]),
        ensures
            final(self)@ == old(self)@,
            final(self).zobrist == old(self).zobrist,
            final(self).moves@ == old(self).moves@ + slide_moves(old(self)@, color, square, dirs@, 4),
    {
        let ghost s = self@;
        let ghost start = self.moves@;
        let mut i: usize = 0;
        while i < 4
            invariant
                i <= 4,
                square.on_board(),
                forall|j: int| 0 <= j < 4 ==> slide_dir(#[trigger] dirs@[j]),
                self@ == s,
                self.zobrist == old(self).zobrist,
                self.moves@ == start + slide_moves(s, color, square, dirs@, i as nat),
            decreases 4 - i,
        {
            self.push_ray_moves(square, dirs[i], color);
            assert(slide_moves(s, color, square, dirs@, (i + 1) as nat) == slide_moves(s, color, square, dirs@, i as nat) + ray_moves(s, color, square, step(square, dirs@[i as int]), dirs@[i as int], 8));
            assert(self.moves@ =~= start + slide_moves(s, color, square, dirs@, (i + 1) as nat));
            i = i + 1;
        }
    }

    /// Appends the moves to the eight offsets of `dirs` that are on the board and free of
    /// pieces of `color`.
    fn push_step_moves(&mut self, square: Square, color: Color, dirs: &[(i8, i8); 8])
        requires
            square.on_board(),
            forall|i: int| 0 <= i < 8 ==> -2 <= #[trigger] dirs@[i].0 <= 2 && -2 <= dirs@[i].1 <= 2,
        ensures
            final(self)@ == old(self)@,
            final(self).zobrist == old(self).zobrist,
            final(self).moves@ == old(self).moves@ + step_moves(old(self)@, color, square, dirs@, 8),
    {
        let ghost s = self@;
        let ghost start = self.moves@;
        let friendly = self.pieces_of(color);
        let mut i: usize = 0;
        while i < 8
            invariant
                i <= 8,
                square.on_board(),
                forall|j: int| 0 <= j < 8 ==> -2 <= #[trigger] dirs@[j].0 <= 2 && -2 <= dirs@[j].1 <= 2,
                friendly == s.pieces(color),
                self@ == s,
                self.zobrist == old(self).zobrist,
                self.moves@ == start + step_moves(s, color, square, dirs@, i as nat),
            decreases 8 - i,
        {
            let direction = dirs[i];
            let new_square = Square::new(square.row() + direction.0, square.column() + direction.1);
            if new_square.is_on_board() && !friendly.is_occupied(new_square) {
                self.moves.push(Move::new(new_square, square, None));
            }
            assert(self.moves@ =~= start + step_moves(s, color, square, dirs@, (i + 1) as nat));
            i = i + 1;
        }
    }

    /// Appends a pawn move to `to`: plain, or once per promotion piece on the promotion row.
    fn push_pawn_move(&mut self, to: Square, from: Square, promotion_row: i8)
        ensures
            final(self)@ == old(self)@,
            final(self).zobrist == old(self).zobrist,
            final(self).moves@ == old(self).moves@ + pawn_move_to(to, from, promotion_row as int),
    {
        if to.row() != promotion_row {
            self.moves.push(Move::new(to, from, None));
        } else {
            self.moves.push(Move::new(to, from, Some(Piece::Rook)));
            self.moves.push(Move::new(to, from, Some(Piece::Knight)));
            self.moves.push(Move::new(to, from, Some(Piece::Bishop)));
            self.moves.push(Move::new(to, from, Some(Piece::Queen)));
        }
        assert(self.moves@ =~= old(self).moves@ + pawn_move_to(to, from, promotion_row as int));
    }

    #[verifier::rlimit(40)]
    fn find_legal_moves_pawn(&mut self, square: Square, color: Color)
        requires
            square.on_board(),
        ensures
            final(self)@ == old(self)@,
            final(self).zobrist == old(self).zobrist,
            final(self).moves@ == old(self).moves@ + pawn_moves(old(self)@, color, square),
    {
        let ghost s = self@;
        let ghost start = self.moves@;
        let (move_direction, enemy_pieces, promotion_row, pawn_row): (i8, PieceSet, i8, i8) =
            match color {
            Color::White => (1, self.black_pieces, Board::BLACK_PIECE_ROW, Board::WHITE_PAWN_ROW),
            Color::Black => (-1, self.white_pieces, Board::WHITE_PIECE_ROW, Board::BLACK_PAWN_ROW),
        };
        let white = self.white_pieces;
        let black = self.black_pieces;
        let push = Square::new(square.row() + move_direction, square.column());
        if push.is_on_board() && !white.is_occupied(push) && !black.is_occupied(push) {
            self.push_pawn_move(push, square, promotion_row);
        }
        let ghost after_push = self.moves@;
        if square.row() == pawn_row {
            let jump = Square::new(square.row() + move_direction * 2, square.column());
            if !black.is_occupied(jump) && !white.is_occupied(jump) && !white.is_occupied(push)
                && !black.is_occupied(push) {
                self.moves.push(Move::new(jump, square, None));
            }
        }
        let ghost after_jump = self.moves@;
        let capture_left = Square::new(square.row() + move_direction, square.column() - 1);
        if capture_left.is_on_board() && (enemy_pieces.is_en_passant(capture_left)
            || enemy_pieces.is_occupied(capture_left)) {
            self.push_pawn_move(capture_left, square, promotion_row);
        }
        let ghost after_left = self.moves@;
        let capture_right = Square::new(square.row() + move_direction, square.column() + 1);
        if capture_right.is_on_board() && (enemy_pieces.is_en_passant(capture_right)
            || enemy_pieces.is_occupied(capture_right)) {
            self.push_pawn_move(capture_right, square, promotion_row);
        }
        assert(self.moves@ =~= start + pawn_moves(s, color, square));
    }

    fn find_legal_moves_rook(&mut self, square: Square, color: Color)
        requires
            square.on_board(),
        ensures
            final(self)@ == old(self)@,
            final(self).zobrist == old(self).zobrist,
            final(self).moves@ == old(self).moves@ + slide_moves(old(self)@, color, square, rook_dirs(), 4),
    {
        let move_directions: [(i8, i8); 4] = [(1, 0), (-1, 0), (0, 1), (0, -1)];
        assert(move_directions@ == rook_dirs());
        self.push_slide_moves(square, color, &move_directions);
    }

    fn find_legal_moves_bishop(&mut self, square: Square, color: Color)
        requires
            square.on_board(),
        ensures
            final(self)@ == old(self)@,
            final(self).zobrist == old(self).zobrist,
            final(self).moves@ == old(self).moves@ + slide_moves(old(self)@, color, square, bishop_dirs(), 4),
    {
        let move_directions: [(i8, i8); 4] = [(1, 1), (-1, -1), (-1, 1), (1, -1)];
        assert(move_directions@ == bishop_dirs());
        self.push_slide_moves(square, color, &move_directions);
    }

    fn find_legal_moves_knight(&mut self, square: Square, color: Color)
        requires
            square.on_board(),
        ensures
            final(self)@ == old(self)@,
            final(self).zobrist == old(self).zobrist,
            final(self).moves@ == old(self).moves@ + step_moves(old(self)@, color, square, knight_offsets(), 8),
    {
        let move_directions: [(i8, i8); 8] = [
            (-2, -1),
            (-2, 1),
            (-1, -2),
            (-1, 2),
            (1, -2),
            (1, 2),
            (2, -1),
            (2, 1),
        ];
        assert(move_directions@ == knight_offsets());
        self.push_step_moves(square, color, &move_directions);
    }

    fn find_legal_moves_queen(&mut self, square: Square, color: Color)
        requires
            square.on_board(),
        ensures
            final(self)@ == old(self)@,
            final(self).zobrist == old(self).zobrist,
            final(self).moves@ == old(self).moves@ + piece_moves(old(self)@, color, Piece::Queen, square),
    {
        self.find_legal_moves_rook(square, color);
        self.find_legal_moves_bishop(square, color);
        assert(self.moves@ =~= old(self).moves@ + piece_moves(old(self)@, color, Piece::Queen, square));
    }

    /// Whether `color` may castle towards `direction` (-1 towards column 0, 1 towards column
    /// 7): its king not attacked, the squares it crosses empty and not attacked, the square
    /// next to the rook empty when castling towards column 0, and its rook in the corner.
    pub fn is_castle_available(&self, color: Color, direction: i8) -> (b: bool)
        requires
            direction == -1 || direction == 1,
            castle_check_defined(self@, color, direction as int),
        ensures
            b == castle_available(self@, color, direction as int),
    {
        let friendly_pieces = self.pieces_of(color);
        let king_square = friendly_pieces.find_king();
        proof {
            vstd::std_specs::bits::axiom_u64_trailing_zeros(friendly_pieces.king);
        }
        if self.is_square_attacked(king_square) {
            return false;
        }
        let over_one = Square::new(king_square.row(), king_square.column() + direction);
        if self.white_pieces.is_occupied(over_one) || self.black_pieces.is_occupied(over_one) {
            return false;
        }
        if self.is_square_attacked(over_one) {
            return false;
        }
        let over_two = Square::new(king_square.row(), king_square.column() + 2 * direction);
        if self.white_pieces.is_occupied(over_two) || self.black_pieces.is_occupied(over_two) {
            return false;
        }
        if self.is_square_attacked(over_two) {
            return false;
        }
        if direction == -1 {
            let over_three = Square::new(king_square.row(), king_square.column() + 3 * direction);
            if self.white_pieces.is_occupied(over_three) || self.black_pieces.is_occupied(
                over_three,
            ) {
                return false;
            }
            if !friendly_pieces.is_piece_type_on(Piece::Rook, Square::new(king_square.row(), 0)) {
                return false;
            }
        } else {
            if !friendly_pieces.is_piece_type_on(Piece::Rook, Square::new(king_square.row(), 7)) {
                return false;
            }
        }
        true
    }

    #[verifier::rlimit(40)]
    /// Adds the moves of the king of `color` on `square`: its steps onto squares not held by
    /// its own side, then the castles its rights and the board allow.
    pub fn find_legal_moves_king(&mut self, square: Square, color: Color)
        requires
            square.on_board(),
            old(self)@.rights(color).can_left() ==> castle_check_defined(old(self)@, color, -1),
            old(self)@.rights(color).can_right() ==> castle_check_defined(old(self)@, color, 1),
        ensures
            final(self)@ == old(self)@,
            final(self).zobrist_keys() == old(self).zobrist_keys(),
            final(self).found_moves() == old(self).found_moves() + king_moves(old(self)@, color, square),
    {
        let ghost s = self@;
        let ghost start = self.moves@;
        let move_directions: [(i8, i8); 8] = [
            (1, -1),
            (1, 0),
            (1, 1),
            (-1, -1),
            (-1, 0),
            (-1, 1),
            (0, -1),
            (0, 1),
        ];
        assert(move_directions@ == king_offsets());
        self.push_step_moves(square, color, &move_directions);
        let can_castle = match color {
            Color::White => self.white_castle_rights,
            Color::Black => self.black_castle_rights,
        };
        let ghost after_steps = self.moves@;
        if can_castle.left() && self.is_castle_available(color, -1) {
            let left_two = Square::new(square.row(), square.column() - 2);
            self.moves.push(Move::new(left_two, square, None));
        }
        let ghost after_left = self.moves@;
        if can_castle.right() && self.is_castle_available(color, 1) {
            let right_two = Square::new(square.row(), square.column() + 2);
            self.moves.push(Move::new(right_two, square, None));
        }
        assert(self.moves@ =~= start + king_moves(s, color, square));
    }

    fn find_legal_moves(&mut self, piece: Piece, square: Square, color: Color)
        requires
            square.on_board(),
            piece == Piece::King ==> (old(self)@.rights(color).can_left() ==> castle_check_defined(
                old(self)@,
                color,
                -1,
            )),
            piece == Piece::King ==> (old(self)@.rights(color).can_right() ==> castle_check_defined(
                old(self)@,
                color,
                1,
            )),
        ensures
            final(self)@ == old(self)@,
            final(self).zobrist == old(self).zobrist,
            final(self).moves@ == old(self).moves@ + piece_moves(old(self)@, color, piece, square),
    {
        match piece {
            Piece::Pawn => self.find_legal_moves_pawn(square, color),
            Piece::Rook => self.find_legal_moves_rook(square, color),
            Piece::Knight => self.find_legal_moves_knight(square, color),
            Piece::Bishop => self.find_legal_moves_bishop(square, color),
            Piece::Queen => self.find_legal_moves_queen(square, color),
            Piece::King => self.find_legal_moves_king(square, color),
        };
    }

    /// The moves of the side to move before checks are considered: for each piece kind in
    /// the order pawn, rook, knight, bishop, queen, king, for each square of that kind from
    /// index 0 upwards, the moves of that piece.
    pub fn find_current_possible_moves(&mut self) -> (moves: &Vec<Move>)
        requires
            generation_defined(old(self)@),
        ensures
            final(self)@ == old(self)@,
            final(self).wf() == old(self).wf(),
            moves@ == pseudo_moves(old(self)@),
            final(self).found_moves() == moves@,
    {
        let ghost s = self@;
        self.moves.clear();
        let types = PIECE_TYPES;
        assert(types@ == piece_types());
        let mut k: usize = 0;
        while k < 6
            invariant
                k <= 6,
                types@ == piece_types(),
                self@ == s,
                generation_defined(s),
                self.zobrist == old(self).zobrist,
                self.moves@ == kinds_moves(s, k as nat),
            decreases 6 - k,
        {
            let piece_type = types[k];
            let attacking_pieces = self.pieces_of(self.turn);
            let pieces = attacking_pieces.find_piece(piece_type);
            proof {
                crate::board::square::lemma_squares_upto(attacking_pieces.bb(piece_type), 64);
            }
            let ghost before = self.moves@;
            let mut j: usize = 0;
            while j < pieces.len()
                invariant
                    j <= pieces@.len(),
                    self@ == s,
                    generation_defined(s),
                    self.zobrist == old(self).zobrist,
                    pieces@ == squares_of(s.pieces(s.turn).bb(piece_type)),
                    forall|i: int| 0 <= i < pieces@.len() ==> (#[trigger] pieces@[i]).on_board(),
                    s.pieces(s.turn).bb(piece_type) == 0 ==> pieces@.len() == 0,
                    self.moves@ == before + squares_moves(s, piece_type, pieces@, j as nat),
                decreases pieces@.len() - j,
            {
                let square = pieces[j];
                self.find_legal_moves(piece_type, square, self.turn);
                proof {
                    lemma_squares_moves_step(s, piece_type, pieces@, j as nat);
                }
                assert(self.moves@ =~= before + squares_moves(s, piece_type, pieces@, (j + 1) as nat));
                j = j + 1;
            }
            assert(self.moves@ =~= kinds_moves(s, (k + 1) as nat));
            k = k + 1;
        }
        &self.moves
    }
}

// ---------------------------------------------------------------------------------------------
// Playing a move.
// ---------------------------------------------------------------------------------------------

/// The pieces and rights of the side to move and of the other side, as a move sees them.
#[derive(Clone, Copy)]
pub struct MoveContext {
    pub friendly_pieces: PieceSet,
    pub enemy_pieces: PieceSet,
    pub castle_rights: CastleRights,
    pub enemy_castle_rights: CastleRights,
    pub pawn_row: i8,
    pub piece_row: i8,
    pub enemy_piece_row: i8,
    pub pawn_direction: i8,
    pub turn: Color,
}

pub open spec fn context_of(s: BoardState) -> MoveContext {
    let c = s.turn;
    MoveContext {
        friendly_pieces: s.pieces(c),
        enemy_pieces: s.pieces(opposite(c)),
        castle_rights: s.rights(c),
        enemy_castle_rights: s.rights(opposite(c)),
        pawn_row: pawn_row(c) as i8,
        piece_row: piece_row(c) as i8,
        enemy_piece_row: piece_row(opposite(c)) as i8,
        pawn_direction: pawn_direction(c) as i8,
        turn: c,
    }
}

/// The board with the pieces and rights of `ctx` written back, and hash `h`.
pub open spec fn with_context(s: BoardState, ctx: MoveContext, h: u64) -> BoardState {
    match s.turn {
        Color::White => BoardState {
            white: ctx.friendly_pieces,
            black: ctx.enemy_pieces,
            white_castle: ctx.castle_rights,
            black_castle: ctx.enemy_castle_rights,
            hash: h,
            ..s
        },
        Color::Black => BoardState {
            white: ctx.enemy_pieces,
            black: ctx.friendly_pieces,
            white_castle: ctx.enemy_castle_rights,
            black_castle: ctx.castle_rights,
            hash: h,
            ..s
        },
    }
}

/// Toggles `key` into `h` when `changed`.
pub open spec fn toggle(h: u64, changed: bool, key: u64) -> u64 {
    if changed {
        h ^ key
    } else {
        h
    }
}

/// The rights after a rook leaves or is taken on `t` of a side whose pieces start on `row`.
pub open spec fn rook_left_square(rights: CastleRights, t: Square, row: int) -> CastleRights {
    if t.column == 0 && t.row == row {
        CastleRights { left_rook_moved: true, ..rights }
    } else if t.column == 7 && t.row == row {
        CastleRights { right_rook_moved: true, ..rights }
    } else {
        rights
    }
}

pub open spec fn spec_update_castle_rights(ctx: MoveContext, piece: Piece, m: Move, h: u64) -> (MoveContext, u64) {
    let old_rights = ctx.castle_rights;
    let rights = if piece == Piece::King {
        CastleRights { king_moved: true, ..old_rights }
    } else if piece == Piece::Rook {
        rook_left_square(old_rights, m.from, ctx.piece_row as int)
    } else {
        old_rights
    };
    let h1 = toggle(h, old_rights.can_left() != rights.can_left(), castle_left_key(ctx.turn));
    let h2 = toggle(h1, old_rights.can_right() != rights.can_right(), castle_right_key(ctx.turn));
    (MoveContext { castle_rights: rights, ..ctx }, h2)
}

pub open spec fn spec_piece_move(ctx: MoveContext, piece: Piece, m: Move, h: u64) -> (MoveContext, u64) {
    (
        MoveContext {
            friendly_pieces: ctx.friendly_pieces.added(m.to.index(), piece).removed(m.from.index()),
            ..ctx
        },
        h ^ piece_key(ctx.turn, piece, m.to.index()) ^ piece_key(ctx.turn, piece, m.from.index()),
    )
}

pub open spec fn spec_capture(ctx: MoveContext, m: Move, h: u64) -> (MoveContext, u64) {
    match ctx.enemy_pieces.piece_at(m.to.index()) {
        Some(captured) => {
            let h1 = h ^ piece_key(opposite(ctx.turn), captured, m.to.index());
            let old_rights = ctx.enemy_castle_rights;
            let rights = if captured == Piece::Rook {
                rook_left_square(old_rights, m.to, ctx.enemy_piece_row as int)
            } else {
                old_rights
            };
            let h2 = toggle(
                h1,
                old_rights.can_left() != rights.can_left(),
                castle_left_key(opposite(ctx.turn)),
            );
            let h3 = toggle(
                h2,
                old_rights.can_right() != rights.can_right(),
                castle_right_key(opposite(ctx.turn)),
            );
            (
                MoveContext {
                    enemy_pieces: ctx.enemy_pieces.removed(m.to.index()),
                    enemy_castle_rights: rights,
                    ..ctx
                },
                h3,
            )
        },
        None => (ctx, h),
    }
}

/// The corner the rook leaves and the square it lands on when the king castles with `m`.
pub open spec fn castle_rook_squares(m: Move, row: int) -> (Square, Square) {
    if m.to.column > m.from.column {
        (sq(row, 7), sq(row, m.to.column - 1))
    } else {
        (sq(row, 0), sq(row, m.to.column + 1))
    }
}

pub open spec fn spec_castle(ctx: MoveContext, m: Move, h: u64) -> (MoveContext, u64) {
    let (current, new) = castle_rook_squares(m, ctx.piece_row as int);
    (
        MoveContext {
            friendly_pieces: ctx.friendly_pieces.added(new.index(), Piece::Rook).removed(
                current.index(),
            ),
            ..ctx
        },
        h ^ piece_key(ctx.turn, Piece::Rook, new.index()) ^ piece_key(
            ctx.turn,
            Piece::Rook,
            current.index(),
        ),
    )
}

/// The square of the pawn taken en passant by a pawn of `c` moving to `to`.
pub open spec fn en_passant_victim(c: Color, to: Square) -> Square {
    match c {
        Color::White => sq(to.row - 1, to.column as int),
        Color::Black => sq(to.row + 1, to.column as int),
    }
}

pub open spec fn spec_en_passant(ctx: MoveContext, m: Move, h: u64) -> (MoveContext, u64) {
    let victim = en_passant_victim(ctx.turn, m.to);
    (
        MoveContext { enemy_pieces: ctx.enemy_pieces.removed(victim.index()), ..ctx },
        h ^ piece_key(opposite(ctx.turn), Piece::Pawn, victim.index()),
    )
}

pub open spec fn spec_pawn_jump(ctx: MoveContext, m: Move, h: u64) -> (MoveContext, u64) {
    let skipped = sq(ctx.pawn_row + ctx.pawn_direction, m.from.column as int);
    (
        MoveContext {
            friendly_pieces: PieceSet { en_passant: crate::bits::bit(skipped.index()), ..ctx.friendly_pieces },
            ..ctx
        },
        h ^ en_passant_key(skipped.column as int),
    )
}

pub open spec fn spec_promotion(ctx: MoveContext, m: Move, promoted: Piece, h: u64) -> (MoveContext, u64) {
    (
        MoveContext {
            friendly_pieces: ctx.friendly_pieces.removed(m.to.index()).added(m.to.index(), promoted),
            enemy_pieces: ctx.enemy_pieces.removed(m.to.index()),
            ..ctx
        },
        h ^ piece_key(ctx.turn, Piece::Pawn, m.to.index()) ^ piece_key(ctx.turn, promoted, m.to.index()),
    )
}

pub open spec fn abs(x: int) -> int {
    if x < 0 {
        -x
    } else {
        x
    }
}

/// The king steps two columns: a castle.
pub open spec fn is_castle_move(piece: Piece, m: Move) -> bool {
    piece == Piece::King && abs(m.to.column - m.from.column) == 2
}

/// A move from the pawn row of `c` two rows away from it: for a pawn, a double step.
pub open spec fn is_jump_move(c: Color, m: Move) -> bool {
    m.from.row == pawn_row(c) && abs(m.to.row - pawn_row(c)) == 2
}

/// The board after the side to move plays `m` (its turn does not pass), and the outcome.
pub open spec fn after_move(s: BoardState, m: Move) -> (BoardState, MoveResult) {
    let ctx0 = context_of(s);
    match ctx0.friendly_pieces.piece_at(m.from.index()) {
        None => (s, MoveResult::Illegal),
        Some(piece) => {
            let (ctx1, h1) = spec_update_castle_rights(ctx0, piece, m, s.hash);
            let (ctx2, h2) = spec_piece_move(ctx1, piece, m, h1);
            let (ctx3, h3) = if piece == Piece::Pawn && is_jump_move(s.turn, m) {
                spec_pawn_jump(ctx2, m, h2)
            } else if piece == Piece::Pawn && ctx2.enemy_pieces.en_passant_at(m.to.index()) {
                spec_en_passant(ctx2, m, h2)
            } else if m.promotion is Some {
                spec_promotion(ctx2, m, m.promotion->0, h2)
            } else if is_castle_move(piece, m) {
                spec_castle(ctx2, m, h2)
            } else {
                spec_capture(ctx2, m, h2)
            };
            let h4 = match ctx3.enemy_pieces.en_passant_square() {
                Some(ep) => h3 ^ en_passant_key(ep.column as int),
                None => h3,
            };
            let ctx4 = MoveContext {
                enemy_pieces: PieceSet { en_passant: 0, ..ctx3.enemy_pieces },
                ..ctx3
            };
            (with_context(s, ctx4, h4), MoveResult::Played)
        },
    }
}

/// The inputs on which playing `m` touches only squares it can index.
pub open spec fn make_move_defined(s: BoardState, m: Move) -> bool {
    let c = s.turn;
    &&& m.from.bitmap_ok()
    &&& s.pieces(c).piece_at(m.from.index()) matches Some(piece) ==> {
        &&& m.to.bitmap_ok()
        &&& if piece == Piece::Pawn && is_jump_move(c, m) {
            0 <= m.from.column <= 7
        } else if piece == Piece::Pawn && s.pieces(opposite(c)).en_passant_at(m.to.index()) {
            en_passant_victim(c, m.to).bitmap_ok()
        } else if m.promotion is Some {
            true
        } else if is_castle_move(piece, m) {
            castle_rook_squares(m, piece_row(c)).1.bitmap_ok()
        } else {
            true
        }
    }
}

fn abs_diff(a: i8, b: i8) -> (d: u8)
    ensures
        d == abs(a - b),
{
    let x = a as i16 - b as i16;
    if x < 0 {
        (-x) as u8
    } else {
        x as u8
    }
}

impl Board {
    fn move_context(&self) -> (ctx: MoveContext)
        ensures
            ctx == context_of(self@),
    {
        match self.turn {
            Color::White => MoveContext {
                friendly_pieces: self.white_pieces,
                enemy_pieces: self.black_pieces,
                castle_rights: self.white_castle_rights,
                enemy_castle_rights: self.black_castle_rights,
                pawn_row: Self::WHITE_PAWN_ROW,
                piece_row: Self::WHITE_PIECE_ROW,
                enemy_piece_row: Self::BLACK_PIECE_ROW,
                pawn_direction: 1,
                turn: self.turn,
            },
            Color::Black => MoveContext {
                friendly_pieces: self.black_pieces,
                enemy_pieces: self.white_pieces,
                castle_rights: self.black_castle_rights,
                enemy_castle_rights: self.white_castle_rights,
                pawn_row: Self::BLACK_PAWN_ROW,
                piece_row: Self::BLACK_PIECE_ROW,
                enemy_piece_row: Self::WHITE_PIECE_ROW,
                pawn_direction: -1,
                turn: self.turn,
            },
        }
    }

    fn update_castle_rights(
        ctx: &mut MoveContext,
        zobrist: &Zobrist,
        piece: Piece,
        movement: &Move,
        new_hash: &mut u64,
    )
        requires
            zobrist.wf(),
        ensures
            (*final(ctx), *final(new_hash)) == spec_update_castle_rights(
                *old(ctx),
                piece,
                *movement,
                *old(new_hash),
            ),
    {
        let (old_left, old_right) = (ctx.castle_rights.left(), ctx.castle_rights.right());
        if piece == Piece::King {
            ctx.castle_rights.king_moved();
        } else if piece == Piece::Rook {
            let left_rook_home_square = movement.from().column() == 0 && movement.from().row()
                == ctx.piece_row;
            let right_rook_home_square = movement.from().column() == 7 && movement.from().row()
                == ctx.piece_row;
            if left_rook_home_square {
                ctx.castle_rights.left_rook_moved();
            } else if right_rook_home_square {
                ctx.castle_rights.right_rook_moved();
            }
        }
        if old_left != ctx.castle_rights.left() {
            *new_hash = *new_hash ^ zobrist.get_castle_left(ctx.turn);
        }
        if old_right != ctx.castle_rights.right() {
            *new_hash = *new_hash ^ zobrist.get_castle_right(ctx.turn);
        }
    }

    fn handle_piece_move(
        ctx: &mut MoveContext,
        zobrist: &Zobrist,
        piece: Piece,
        movement: &Move,
        new_hash: &mut u64,
    )
        requires
            zobrist.wf(),
            movement.from.bitmap_ok(),
            movement.to.bitmap_ok(),
        ensures
            (*final(ctx), *final(new_hash)) == spec_piece_move(
                *old(ctx),
                piece,
                *movement,
                *old(new_hash),
            ),
    {
        ctx.friendly_pieces.add_piece(movement.to(), piece);
        ctx.friendly_pieces.remove_piece(movement.from());
        *new_hash = *new_hash ^ zobrist.get_piece(ctx.turn, piece, movement.to());
        *new_hash = *new_hash ^ zobrist.get_piece(ctx.turn, piece, movement.from());
    }

    fn handle_capture(ctx: &mut MoveContext, zobrist: &Zobrist, movement: &Move, new_hash: &mut u64)
        requires
            zobrist.wf(),
            movement.to.bitmap_ok(),
        ensures
            (*final(ctx), *final(new_hash)) == spec_capture(*old(ctx), *movement, *old(new_hash)),
    {
        if let Some(captured) = ctx.enemy_pieces.get(movement.to()) {
            *new_hash = *new_hash ^ zobrist.get_piece(ctx.turn.not(), captured, movement.to());
            if captured == Piece::Rook {
                let (old_enemy_left, old_enemy_right) = (
                    ctx.enemy_castle_rights.left(),
                    ctx.enemy_castle_rights.right(),
                );
                let capture_left_rook_home_square = movement.to().column() == 0
                    && movement.to().row() == ctx.enemy_piece_row;
                let capture_right_rook_home_square = movement.to().column() == 7
                    && movement.to().row() == ctx.enemy_piece_row;
                if capture_left_rook_home_square {
                    ctx.enemy_castle_rights.left_rook_moved();
                } else if capture_right_rook_home_square {
                    ctx.enemy_castle_rights.right_rook_moved();
                }
                if old_enemy_left != ctx.enemy_castle_rights.left() {
                    *new_hash = *new_hash ^ zobrist.get_castle_left(ctx.turn.not());
                }
                if old_enemy_right != ctx.enemy_castle_rights.right() {
                    *new_hash = *new_hash ^ zobrist.get_castle_right(ctx.turn.not());
                }
            }
            ctx.enemy_pieces.remove_piece(movement.to());
        }
    }

    fn handle_castle(ctx: &mut MoveContext, zobrist: &Zobrist, movement: &Move, new_hash: &mut u64)
        requires
            zobrist.wf(),
            old(ctx).piece_row == 0 || old(ctx).piece_row == 7,
            abs(movement.to.column - movement.from.column) == 2,
            movement.to.bitmap_ok(),
            castle_rook_squares(*movement, old(ctx).piece_row as int).1.bitmap_ok(),
        ensures
            (*final(ctx), *final(new_hash)) == spec_castle(*old(ctx), *movement, *old(new_hash)),
    {
        let (current_rook_square, new_rook_square) = if movement.to().column()
            > movement.from().column() {
            (Square::new(ctx.piece_row, 7), Square::new(ctx.piece_row, movement.to().column() - 1))
        } else {
            (Square::new(ctx.piece_row, 0), Square::new(ctx.piece_row, movement.to().column() + 1))
        };
        ctx.friendly_pieces.add_piece(new_rook_square, Piece::Rook);
        ctx.friendly_pieces.remove_piece(current_rook_square);
        *new_hash = *new_hash ^ zobrist.get_piece(ctx.turn, Piece::Rook, new_rook_square);
        *new_hash = *new_hash ^ zobrist.get_piece(ctx.turn, Piece::Rook, current_rook_square);
    }

    fn handle_en_passant(ctx: &mut MoveContext, zobrist: &Zobrist, movement: &Move, new_hash: &mut u64)
        requires
            zobrist.wf(),
            movement.to.bitmap_ok(),
            en_passant_victim(old(ctx).turn, movement.to).bitmap_ok(),
        ensures
            (*final(ctx), *final(new_hash)) == spec_en_passant(*old(ctx), *movement, *old(new_hash)),
    {
        let capture_square = match ctx.turn {
            Color::White => Square::new(movement.to().row() - 1, movement.to().column()),
            Color::Black => Square::new(movement.to().row() + 1, movement.to().column()),
        };
        ctx.enemy_pieces.remove_piece(capture_square);
        *new_hash = *new_hash ^ zobrist.get_piece(ctx.turn.not(), Piece::Pawn, capture_square);
    }

    fn handle_pawn_jump(ctx: &mut MoveContext, zobrist: &Zobrist, movement: &Move, new_hash: &mut u64)
        requires
            zobrist.wf(),
            old(ctx).pawn_row == 1 && old(ctx).pawn_direction == 1 || old(ctx).pawn_row == 6
                && old(ctx).pawn_direction == -1,
            0 <= movement.from.column <= 7,
        ensures
            (*final(ctx), *final(new_hash)) == spec_pawn_jump(*old(ctx), *movement, *old(new_hash)),
    {
        let en_passant = Square::new(ctx.pawn_row + ctx.pawn_direction, movement.from().column());
        ctx.friendly_pieces.set_en_passant(en_passant);
        *new_hash = *new_hash ^ zobrist.get_en_passant(en_passant.column() as usize);
    }

    fn handle_promotion(
        ctx: &mut MoveContext,
        zobrist: &Zobrist,
        movement: &Move,
        promoted_piece: Piece,
        new_hash: &mut u64,
    )
        requires
            zobrist.wf(),
            movement.to.bitmap_ok(),
        ensures
            (*final(ctx), *final(new_hash)) == spec_promotion(
                *old(ctx),
                *movement,
                promoted_piece,
                *old(new_hash),
            ),
    {
        ctx.friendly_pieces.remove_piece(movement.to());
        ctx.enemy_pieces.remove_piece(movement.to());
        ctx.friendly_pieces.add_piece(movement.to(), promoted_piece);
        *new_hash = *new_hash ^ zobrist.get_piece(ctx.turn, Piece::Pawn, movement.to());
        *new_hash = *new_hash ^ zobrist.get_piece(ctx.turn, promoted_piece, movement.to());
    }

    fn store_context(&mut self, ctx: &MoveContext, new_hash: u64)
        requires
            ctx.turn == old(self)@.turn,
        ensures
            final(self)@ == with_context(old(self)@, *ctx, new_hash),
            final(self).zobrist == old(self).zobrist,
            final(self).moves == old(self).moves,
    {
        match self.turn {
            Color::White => {
                self.white_pieces = ctx.friendly_pieces;
                self.black_pieces = ctx.enemy_pieces;
                self.white_castle_rights = ctx.castle_rights;
                self.black_castle_rights = ctx.enemy_castle_rights;
            },
            Color::Black => {
                self.black_pieces = ctx.friendly_pieces;
                self.white_pieces = ctx.enemy_pieces;
                self.black_castle_rights = ctx.castle_rights;
                self.white_castle_rights = ctx.enemy_castle_rights;
            },
        }
        self.hash = new_hash;
    }

    /// Plays `movement` for the side to move, keeping the hash up to date; the turn does not
    /// pass. A move from a square without a piece of the side to move is `Illegal` and
    /// changes nothing; any other move is played as the piece on its origin moves.
    pub fn make_move(&mut self, movement: Move) -> (r: MoveResult)
        requires
            old(self).wf(),
            make_move_defined(old(self)@, movement),
        ensures
            final(self).wf(),
            (final(self)@, r) == after_move(old(self)@, movement),
            (r == MoveResult::Illegal) == (old(self)@.pieces(old(self)@.turn).piece_at(
                movement.from.index(),
            ) is None),
    {
        let ghost s = self@;
        let mut new_hash = self.hash;
        let mut ctx = self.move_context();
        let Some(piece) = ctx.friendly_pieces.get(movement.from()) else {
            return MoveResult::Illegal;
        };
        Self::update_castle_rights(&mut ctx, &self.zobrist, piece, &movement, &mut new_hash);
        Self::handle_piece_move(&mut ctx, &self.zobrist, piece, &movement, &mut new_hash);
        let move_was_castle = piece == Piece::King && abs_diff(
            movement.to().column(),
            movement.from().column(),
        ) == 2;
        let move_was_jump = movement.from().row() == ctx.pawn_row && abs_diff(
            movement.to().row(),
            ctx.pawn_row,
        ) == 2;
        if piece == Piece::Pawn && move_was_jump {
            Self::handle_pawn_jump(&mut ctx, &self.zobrist, &movement, &mut new_hash);
        } else if piece == Piece::Pawn && ctx.enemy_pieces.is_en_passant(movement.to()) {
            Self::handle_en_passant(&mut ctx, &self.zobrist, &movement, &mut new_hash);
        } else if let Some(promoted_piece) = movement.promotion() {
            Self::handle_promotion(&mut ctx, &self.zobrist, &movement, promoted_piece, &mut new_hash);
        } else if move_was_castle {
            Self::handle_castle(&mut ctx, &self.zobrist, &movement, &mut new_hash);
        } else {
            Self::handle_capture(&mut ctx, &self.zobrist, &movement, &mut new_hash);
        }
        if let Some(en_passant) = ctx.enemy_pieces.find_en_passant() {
            proof {
                vstd::std_specs::bits::axiom_u64_trailing_zeros(ctx.enemy_pieces.en_passant);
            }
            new_hash = new_hash ^ self.zobrist.get_en_passant(en_passant.column() as usize);
        }
        ctx.enemy_pieces.unset_en_passant();
        self.store_context(&ctx, new_hash);
        MoveResult::Played
    }

    /// Passes the turn to the other side, toggling the side-to-move key in the hash.
    pub fn end_turn(&mut self)
        requires
            old(self).wf(),
        ensures
            final(self).wf(),
            final(self)@ == turn_passed(old(self)@),
    {
        self.hash = self.hash ^ self.zobrist.get_turn();
        self.turn = self.turn.not();
    }
}

// ---------------------------------------------------------------------------------------------
// Hashing a whole position, and the starting position.
// ---------------------------------------------------------------------------------------------

/// `acc` with the keys of a `p` of `c` on each of `squares` toggled in, in order.
pub open spec fn xor_squares(acc: u64, c: Color, p: Piece, squares: Seq<Square>) -> u64
    decreases squares.len(),
{
    if squares.len() == 0 {
        acc
    } else {
        xor_squares(acc, c, p, squares.drop_last()) ^ piece_key(c, p, squares.last().index())
    }
}

/// `acc` with the keys of the pieces of the first `n` kinds of `ps` toggled in.
pub open spec fn xor_kinds(acc: u64, ps: PieceSet, c: Color, n: nat) -> u64
    decreases n,
{
    if n == 0 {
        acc
    } else {
        let p = piece_types()[n - 1];
        xor_squares(xor_kinds(acc, ps, c, (n - 1) as nat), c, p, squares_of(ps.bb(p)))
    }
}

/// The key of the en passant square of `ps`, or 0 when it has none.
pub open spec fn en_passant_hash(ps: PieceSet) -> u64 {
    match ps.en_passant_square() {
        Some(e) => en_passant_key(e.column as int),
        None => 0,
    }
}

/// The Zobrist hash of a position: the keys of all pieces, of the castle rights still held,
/// of the en passant squares, and of black to move, combined by exclusive or.
pub open spec fn position_hash(s: BoardState) -> u64 {
    let pieces = xor_kinds(xor_kinds(0, s.white, Color::White, 6), s.black, Color::Black, 6);
    let c1 = toggle(pieces, s.white_castle.can_left(), castle_left_key(Color::White));
    let c2 = toggle(c1, s.white_castle.can_right(), castle_right_key(Color::White));
    let c3 = toggle(c2, s.black_castle.can_left(), castle_left_key(Color::Black));
    let c4 = toggle(c3, s.black_castle.can_right(), castle_right_key(Color::Black));
    let e = c4 ^ en_passant_hash(s.white) ^ en_passant_hash(s.black);
    toggle(e, s.turn == Color::Black, turn_key())
}

/// The starting position, white to move, with its hash.
pub open spec fn initial_state() -> BoardState {
    let s = BoardState {
        white: initial_piece_set(Color::White),
        black: initial_piece_set(Color::Black),
        turn: Color::White,
        white_castle: CastleRights { king_moved: false, right_rook_moved: false, left_rook_moved: false },
        black_castle: CastleRights { king_moved: false, right_rook_moved: false, left_rook_moved: false },
        hash: 0,
    };
    BoardState { hash: position_hash(s), ..s }
}

proof fn lemma_xor_zero(x: u64)
    ensures
        x ^ 0 == x,
{
    assert(x ^ 0 == x) by (bit_vector);
}

impl Board {
    /// Toggles into `hash` the keys of every piece of `ps`, kind by kind and square by square.
    fn hash_pieces(zobrist: &Zobrist, ps: &PieceSet, color: Color, hash: u64) -> (h: u64)
        requires
            zobrist.wf(),
        ensures
            h == xor_kinds(hash, *ps, color, 6),
    {
        let mut h = hash;
        let types = PIECE_TYPES;
        assert(types@ == piece_types());
        let mut k: usize = 0;
        while k < 6
            invariant
                k <= 6,
                types@ == piece_types(),
                zobrist.wf(),
                h == xor_kinds(hash, *ps, color, k as nat),
            decreases 6 - k,
        {
            let piece = types[k];
            let squares = ps.find_piece(piece);
            proof {
                crate::board::square::lemma_squares_upto(ps.bb(piece), 64);
            }
            let ghost start = h;
            let mut j: usize = 0;
            while j < squares.len()
                invariant
                    j <= squares@.len(),
                    zobrist.wf(),
                    forall|i: int| 0 <= i < squares@.len() ==> (#[trigger] squares@[i]).bitmap_ok(),
                    h == xor_squares(start, color, piece, squares@.take(j as int)),
                decreases squares@.len() - j,
            {
                h = h ^ zobrist.get_piece(color, piece, squares[j]);
                assert(squares@.take((j + 1) as int).drop_last() =~= squares@.take(j as int));
                j = j + 1;
            }
            assert(squares@.take(squares@.len() as int) =~= squares@);
            k = k + 1;
        }
        h
    }

    /// The starting position, white to move, with its hash computed from its pieces and
    /// castle rights.
    pub fn new() -> (b: Self)
        ensures
            b.wf(),
            b@ == initial_state(),
            b.found_moves() == Seq::<Move>::empty(),
    {
        let white_pieces = PieceSet::new(Color::White);
        let black_pieces = PieceSet::new(Color::Black);
        let zobrist = Zobrist::new();
        let mut hash = Self::hash_pieces(&zobrist, &white_pieces, Color::White, 0);
        hash = Self::hash_pieces(&zobrist, &black_pieces, Color::Black, hash);
        hash = hash ^ zobrist.get_castle_left(Color::White);
        hash = hash ^ zobrist.get_castle_right(Color::White);
        hash = hash ^ zobrist.get_castle_left(Color::Black);
        hash = hash ^ zobrist.get_castle_right(Color::Black);
        proof {
            lemma_xor_zero(hash);
            lemma_xor_zero(hash ^ 0);
        }
        Self {
            white_pieces,
            black_pieces,
            turn: Color::White,
            white_castle_rights: CastleRights::new(),
            black_castle_rights: CastleRights::new(),
            zobrist,
            hash,
            moves: Vec::with_capacity(Self::MAX_MOVE),
        }
    }
}

impl Clone for Board {
    /// A copy of the position, with an empty move buffer.
    fn clone(&self) -> (b: Self)
        ensures
            b@ == self@,
            self.wf() ==> b.wf(),
            b.found_moves() == Seq::<Move>::empty(),
    {
        Self {
            white_pieces: self.white_pieces,
            black_pieces: self.black_pieces,
            turn: self.turn,
            white_castle_rights: self.white_castle_rights,
            black_castle_rights: self.black_castle_rights,
            hash: self.hash,
            zobrist: self.zobrist.clone(),
            moves: Vec::with_capacity(Self::MAX_MOVE),
        }
    }
}

// ---------------------------------------------------------------------------------------------
// Reading a position in Forsyth-Edwards notation.
// ---------------------------------------------------------------------------------------------

/// The color and kind of piece that a letter of a FEN board names: uppercase for white.
pub open spec fn fen_piece(c: char) -> Option<(Color, Piece)> {
    if c == 'P' {
        Some((Color::White, Piece::Pawn))
    } else if c == 'N' {
        Some((Color::White, Piece::Knight))
    } else if c == 'B' {
        Some((Color::White, Piece::Bishop))
    } else if c == 'R' {
        Some((Color::White, Piece::Rook))
    } else if c == 'Q' {
        Some((Color::White, Piece::Queen))
    } else if c == 'K' {
        Some((Color::White, Piece::King))
    } else if c == 'p' {
        Some((Color::Black, Piece::Pawn))
    } else if c == 'n' {
        Some((Color::Black, Piece::Knight))
    } else if c == 'b' {
        Some((Color::Black, Piece::Bishop))
    } else if c == 'r' {
        Some((Color::Black, Piece::Rook))
    } else if c == 'q' {
        Some((Color::Black, Piece::Queen))
    } else if c == 'k' {
        Some((Color::Black, Piece::King))
    } else {
        None
    }
}

/// Reading one more character `c` of a FEN board, with white and black pieces placed so far
/// and the row and column reached: the new state, an error message, or `None` where the
/// reading cannot go on (a row or column that overflows, or a square beyond the bitboards).
pub open spec fn fen_board_step(
    white: PieceSet,
    black: PieceSet,
    row: int,
    col: int,
    c: char,
) -> Option<Result<(PieceSet, PieceSet, int, int), Seq<char>>> {
    if c == '/' {
        if col != 8 {
            Some(Err("Invalid FEN board"@))
        } else if row - 1 < -128 {
            None
        } else {
            Some(Ok((white, black, row - 1, 0)))
        }
    } else if '1' <= c <= '8' {
        let next = col + (c as int - 48);
        if next > usize::MAX {
            None
        } else {
            Some(Ok((white, black, row, next)))
        }
    } else {
        match fen_piece(c) {
            None => Some(Err("Invalid piece '"@ + seq![c] + "'"@)),
            Some((color, piece)) => if col >= 8 {
                Some(Err("Invalid FEN board"@))
            } else if !sq(row, col).bitmap_ok() {
                None
            } else {
                let i = sq(row, col).index();
                match color {
                    Color::White => Some(Ok((white.added(i, piece), black, row, col + 1))),
                    Color::Black => Some(Ok((white, black.added(i, piece), row, col + 1))),
                }
            },
        }
    }
}

/// Reading the board field `cs` of a FEN record from row 7, column 0.
pub open spec fn fen_board(cs: Seq<char>) -> Option<Result<(PieceSet, PieceSet, int, int), Seq<char>>>
    decreases cs.len(),
{
    if cs.len() == 0 {
        let empty = PieceSet {
            pawns: 0,
            rooks: 0,
            knights: 0,
            bishops: 0,
            queens: 0,
            king: 0,
            en_passant: 0,
        };
        Some(Ok((empty, empty, 7, 0)))
    } else {
        match fen_board(cs.drop_last()) {
            Some(Ok((white, black, row, col))) => fen_board_step(white, black, row, col, cs.last()),
            other => other,
        }
    }
}

/// The castle rights named by the castling field of a FEN record, for white (`K`, `Q`) and
/// black (`k`, `q`); `-` leaves none.
pub open spec fn fen_castles(field: Seq<char>) -> (CastleRights, CastleRights) {
    if field == "-"@ {
        (
            CastleRights { king_moved: true, right_rook_moved: false, left_rook_moved: false },
            CastleRights { king_moved: true, right_rook_moved: false, left_rook_moved: false },
        )
    } else {
        (
            CastleRights {
                king_moved: false,
                right_rook_moved: !field.contains('K'),
                left_rook_moved: !field.contains('Q'),
            },
            CastleRights {
                king_moved: false,
                right_rook_moved: !field.contains('k'),
                left_rook_moved: !field.contains('q'),
            },
        )
    }
}

/// What reading the FEN record `fen` gives: the position (with hash 0), an error message, or
/// `None` where the reading cannot go on. The halfmove and fullmove fields are not read.
pub open spec fn fen_outcome(fen: Seq<char>) -> Option<Result<BoardState, Seq<char>>> {
    let parts = words(fen);
    if parts.len() != 6 {
        Some(Err("Invalid FEN"@))
    } else {
        match fen_board(parts[0]) {
            None => None,
            Some(Err(e)) => Some(Err(e)),
            Some(Ok((white, black, _, _))) => if parts[1] != "w"@ && parts[1] != "b"@ {
                Some(Err("Invalid side to move"@))
            } else {
                let turn = if parts[1] == "w"@ {
                    Color::White
                } else {
                    Color::Black
                };
                let (white_castle, black_castle) = fen_castles(parts[2]);
                let s = BoardState { white, black, turn, white_castle, black_castle, hash: 0 };
                if parts[3] == "-"@ {
                    Some(Ok(s))
                } else {
                    let bytes = encode_utf8(parts[3]);
                    if bytes.len() != 2 {
                        Some(Err("Invalid en passant square"@))
                    } else if bytes[0] < 97 || bytes[1] < 49 {
                        None
                    } else {
                        let pos = sq(
                            ((bytes[1] - 49) as i8) as int,
                            ((bytes[0] - 97) as i8) as int,
                        );
                        if !pos.bitmap_ok() {
                            None
                        } else {
                            let e = crate::bits::bit(pos.index());
                            match turn {
                                Color::White => Some(
                                    Ok(BoardState { black: PieceSet { en_passant: e, ..black }, ..s }),
                                ),
                                Color::Black => Some(
                                    Ok(BoardState { white: PieceSet { en_passant: e, ..white }, ..s }),
                                ),
                            }
                        }
                    }
                }
            },
        }
    }
}

fn fen_piece_of(ch: char) -> (r: Option<(Color, Piece)>)
    ensures
        r == fen_piece(ch),
{
    match ch {
        'P' => Some((Color::White, Piece::Pawn)),
        'N' => Some((Color::White, Piece::Knight)),
        'B' => Some((Color::White, Piece::Bishop)),
        'R' => Some((Color::White, Piece::Rook)),
        'Q' => Some((Color::White, Piece::Queen)),
        'K' => Some((Color::White, Piece::King)),
        'p' => Some((Color::Black, Piece::Pawn)),
        'n' => Some((Color::Black, Piece::Knight)),
        'b' => Some((Color::Black, Piece::Bishop)),
        'r' => Some((Color::Black, Piece::Rook)),
        'q' => Some((Color::Black, Piece::Queen)),
        'k' => Some((Color::Black, Piece::King)),
        _ => None,
    }
}

impl Board {
    /// Places the pieces of the board field `field` of a FEN record.
    fn place_fen_pieces(field: &Vec<char>) -> (r: Result<(PieceSet, PieceSet), String>)
        requires
            fen_board(field@) is Some,
        ensures
            match r {
                Ok((white, black)) => fen_board(field@) matches Some(Ok((w, b, _, _))) && w
                    == white && b == black,
                Err(e) => fen_board(field@) == Some(Err::<(PieceSet, PieceSet, int, int), Seq<char>>(e@)),
            },
    {
        let mut white = PieceSet::_empty();
        let mut black = PieceSet::_empty();
        let mut row: i8 = 7;
        let mut col: usize = 0;
        let mut i: usize = 0;
        while i < field.len()
            invariant
                i <= field@.len(),
                fen_board(field@) is Some,
                fen_board(field@.take(i as int)) == Some(
                    Ok::<(PieceSet, PieceSet, int, int), Seq<char>>(
                        (white, black, row as int, col as int),
                    ),
                ),
            decreases field@.len() - i,
        {
            proof {
                assert(field@.take((i + 1) as int).drop_last() =~= field@.take(i as int));
                lemma_fen_board_prefix(field@, (i + 1) as nat);
            }
            let ch = field[i];
            if ch == '/' {
                if col != 8 {
                    proof {
                        lemma_fen_board_error_stays(field@, (i + 1) as nat);
                    }
                    return Err("Invalid FEN board".to_owned());
                }
                row = row - 1;
                col = 0;
            } else if '1' <= ch && ch <= '8' {
                col = col + (ch as u32 - 48) as usize;
            } else {
                let Some((color, piece)) = fen_piece_of(ch) else {
                    let mut e = "Invalid piece '".to_owned();
                    crate::text::push_char(&mut e, ch);
                    e.append("'");
                    assert(e@ =~= "Invalid piece '"@ + seq![ch] + "'"@);
                    proof {
                        lemma_fen_board_error_stays(field@, (i + 1) as nat);
                    }
                    return Err(e);
                };
                if col >= 8 {
                    proof {
                        lemma_fen_board_error_stays(field@, (i + 1) as nat);
                    }
                    return Err("Invalid FEN board".to_owned());
                }
                let square = Square::new(row, col as i8);
                match color {
                    Color::White => white.add_piece(square, piece),
                    Color::Black => black.add_piece(square, piece),
                }
                col = col + 1;
            }
            i = i + 1;
        }
        assert(field@.take(field@.len() as int) =~= field@);
        Ok((white, black))
    }

    /// Reads a position in Forsyth-Edwards notation: board, side to move, castling rights and
    /// en passant square (the halfmove and fullmove fields are not read). Castle rights are
    /// absent unless the castling field names them; the hash of the result is 0.
    pub fn _from_fen(fen: &str) -> (r: Result<Self, String>)
        requires
            fen_outcome(fen@) is Some,
        ensures
            match r {
                Ok(b) => b.wf() && fen_outcome(fen@) == Some(Ok::<BoardState, Seq<char>>(b@))
                    && b.found_moves() == Seq::<Move>::empty(),
                Err(e) => fen_outcome(fen@) == Some(Err::<BoardState, Seq<char>>(e@)),
            },
    {
        let parts = split_whitespace(fen);
        if parts.len() != 6 {
            return Err("Invalid FEN".to_owned());
        }
        let (white_pieces, black_pieces) = Self::place_fen_pieces(&parts[0])?;
        let turn = if chars_equal(&parts[1], "w") {
            Color::White
        } else if chars_equal(&parts[1], "b") {
            Color::Black
        } else {
            return Err("Invalid side to move".to_owned());
        };
        let mut white = CastleRights::_none();
        let mut black = CastleRights::_none();
        if !chars_equal(&parts[2], "-") {
            white = CastleRights::new();
            black = CastleRights::new();
            if !contains_char(&parts[2], 'K') {
                white.right_rook_moved();
            }
            if !contains_char(&parts[2], 'Q') {
                white.left_rook_moved();
            }
            if !contains_char(&parts[2], 'k') {
                black.right_rook_moved();
            }
            if !contains_char(&parts[2], 'q') {
                black.left_rook_moved();
            }
        }
        let mut board = Self {
            white_pieces,
            black_pieces,
            turn,
            white_castle_rights: white,
            black_castle_rights: black,
            zobrist: Zobrist::new(),
            hash: 0,
            moves: Vec::with_capacity(Self::MAX_MOVE),
        };
        if !chars_equal(&parts[3], "-") {
            let field = string_of(&parts[3]);
            let bytes = field.as_str().as_bytes();
            if bytes.len() != 2 {
                return Err("Invalid en passant square".to_owned());
            }
            let file = (bytes[0] - 97) as usize;
            let rank = (bytes[1] - 49) as usize;
            let pos = Square::new(rank as i8, file as i8);
            match board.turn {
                Color::White => board.black_pieces.set_en_passant(pos),
                Color::Black => board.white_pieces.set_en_passant(pos),
            }
        }
        Ok(board)
    }
}

/// What reading the board field `field` of a FEN record comes to: 0 where the reading
/// cannot go on, 1 for an error, 2 for pieces placed.
fn fen_board_status(field: &Vec<char>) -> (r: u8)
    ensures
        (r == 0) == (fen_board(field@) is None),
        (r == 1) == (fen_board(field@) matches Some(Err(_))),
        (r == 2) == (fen_board(field@) matches Some(Ok(_))),
{
    let mut row: i64 = 7;
    let mut col: usize = 0;
    let mut i: usize = 0;
    while i < field.len()
        invariant
            i <= field@.len(),
            -128 <= row <= 7,
            fen_board(field@.take(i as int)) matches Some(Ok((_, _, r, c))) && r == row && c == col,
        decreases field@.len() - i,
    {
        proof {
            assert(field@.take((i + 1) as int).drop_last() =~= field@.take(i as int));
        }
        let ch = field[i];
        if ch == '/' {
            if col != 8 {
                proof {
                    lemma_fen_board_error_stays(field@, (i + 1) as nat);
                }
                return 1;
            }
            if row - 1 < -128 {
                proof {
                    if fen_board(field@) is Some {
                        lemma_fen_board_prefix(field@, (i + 1) as nat);
                    }
                }
                return 0;
            }
            row = row - 1;
            col = 0;
        } else if '1' <= ch && ch <= '8' {
            match col.checked_add((ch as u32 - 48) as usize) {
                Some(next) => {
                    col = next;
                },
                None => {
                    proof {
                        if fen_board(field@) is Some {
                            lemma_fen_board_prefix(field@, (i + 1) as nat);
                        }
                    }
                    return 0;
                },
            }
        } else {
            if fen_piece_of(ch).is_none() || col >= 8 {
                proof {
                    lemma_fen_board_error_stays(field@, (i + 1) as nat);
                }
                return 1;
            }
            let r = row as i8;
            let c = col as i8;
            let index = c as i64 + (r as i64) * 8;
            if !(-16 <= r && r <= 15 && 0 <= index && index < 64) {
                proof {
                    if fen_board(field@) is Some {
                        lemma_fen_board_prefix(field@, (i + 1) as nat);
                    }
                }
                return 0;
            }
            col = col + 1;
        }
        i = i + 1;
    }
    assert(field@.take(field@.len() as int) =~= field@);
    2
}

/// Whether a FEN record can be read to the end: reading stops without a result only where a
/// row or column leaves the range of the bitboards, or the en passant square is not a letter
/// and digit at or above `a1`.
pub fn fen_readable(fen: &str) -> (b: bool)
    ensures
        b == (fen_outcome(fen@) is Some),
{
    let parts = split_whitespace(fen);
    if parts.len() != 6 {
        return true;
    }
    let status = fen_board_status(&parts[0]);
    if status != 2 {
        return status == 1;
    }
    if !chars_equal(&parts[1], "w") && !chars_equal(&parts[1], "b") {
        return true;
    }
    if chars_equal(&parts[3], "-") {
        return true;
    }
    let field = string_of(&parts[3]);
    let bytes = field.as_str().as_bytes();
    if bytes.len() != 2 {
        return true;
    }
    if bytes[0] < 97 || bytes[1] < 49 {
        return false;
    }
    let r = (bytes[1] - 49) as i8;
    let c = (bytes[0] - 97) as i8;
    let index = c as i64 + (r as i64) * 8;
    -16 <= r && r <= 15 && 0 <= index && index < 64
}

proof fn lemma_fen_board_error_stays(cs: Seq<char>, n: nat)
    requires
        n <= cs.len(),
        fen_board(cs.take(n as int)) matches Some(Err(_)),
    ensures
        fen_board(cs) == fen_board(cs.take(n as int)),
    decreases cs.len() - n,
{
    if n < cs.len() {
        assert(cs.take((n + 1) as int).drop_last() =~= cs.take(n as int));
        lemma_fen_board_error_stays(cs, n + 1);
    } else {
        assert(cs.take(n as int) =~= cs);
    }
}

proof fn lemma_fen_board_prefix(cs: Seq<char>, n: nat)
    requires
        n <= cs.len(),
        fen_board(cs) is Some,
    ensures
        fen_board(cs.take(n as int)) is Some,
    decreases cs.len() - n,
{
    if n < cs.len() {
        assert(cs.take((n + 1) as int).drop_last() =~= cs.take(n as int));
        lemma_fen_board_prefix(cs, n + 1);
    } else {
        assert(cs.take(n as int) =~= cs);
    }
}

// ---------------------------------------------------------------------------------------------
// Positions whose moves can all be played.
// ---------------------------------------------------------------------------------------------

/// The en passant marker of `ps` is absent or marks one square of row `row`.
pub open spec fn en_passant_ok(ps: PieceSet, row: int) -> bool {
    ps.en_passant == 0 || (lowest_square(ps.en_passant).row == row && ps.en_passant
        == crate::bits::bit(lowest_square(ps.en_passant).index()))
}

/// A side that may still castle has no king, or one king on its starting square.
pub open spec fn king_home_ok(s: BoardState, c: Color) -> bool {
    (s.rights(c).can_left() || s.rights(c).can_right()) ==> (s.pieces(c).king == 0
        || s.pieces(c).king == crate::bits::bit(sq(piece_row(c), 4).index()))
}

/// The invariant of positions reached by play: white's en passant marker is on row 2 and
/// black's on row 5, and castling is only still allowed for a king on its starting square.
pub open spec fn consistent(s: BoardState) -> bool {
    &&& en_passant_ok(s.white, 2)
    &&& en_passant_ok(s.black, 5)
    &&& king_home_ok(s, Color::White)
    &&& king_home_ok(s, Color::Black)
}

/// Every move that move generation yields can be played.
pub open spec fn moves_defined(s: BoardState) -> bool {
    &&& generation_defined(s)
    &&& forall|i: int|
        0 <= i < pseudo_moves(s).len() ==> make_move_defined(s, #[trigger] pseudo_moves(s)[i])
}

/// The board with the turn passed to the other side and the side-to-move key toggled.
pub open spec fn turn_passed(s: BoardState) -> BoardState {
    BoardState { hash: s.hash ^ turn_key(), turn: opposite(s.turn), ..s }
}

/// The board after playing `m` and passing the turn.
pub open spec fn after_turn(s: BoardState, m: Move) -> BoardState {
    turn_passed(after_move(s, m).0)
}

/// Passing the turn twice gives back the same board, hash included.
pub proof fn lemma_turn_passed_twice(s: BoardState)
    ensures
        turn_passed(turn_passed(s)) == s,
{
    let k = turn_key();
    let h = s.hash;
    assert(h ^ k ^ k == h) by (bit_vector);
}

/// The starting position is consistent.
pub proof fn lemma_initial_state_consistent()
    ensures
        consistent(initial_state()),
{
    assert(1u64 << 4u64 == 0x10u64 && 1u64 << 60u64 == 0x1000_0000_0000_0000u64) by (bit_vector);
}

/// Every move of `ms` leaves `from` for a square of the board, promoting to no king.
pub open spec fn moves_from(ms: Seq<Move>, from: Square) -> bool {
    forall|i: int|
        0 <= i < ms.len() ==> (#[trigger] ms[i]).from == from && ms[i].to.on_board()
            && ms[i].promotion != Some(Piece::King)
}

/// Every move of `ms` goes from a square of the board to a square of the board, promoting to
/// no king.
pub open spec fn moves_on_board(ms: Seq<Move>) -> bool {
    forall|i: int|
        0 <= i < ms.len() ==> (#[trigger] ms[i]).from.on_board() && ms[i].to.on_board()
            && ms[i].promotion != Some(Piece::King)
}

proof fn lemma_moves_from_add(a: Seq<Move>, b: Seq<Move>, from: Square)
    requires
        moves_from(a, from),
        moves_from(b, from),
    ensures
        moves_from(a + b, from),
{
    assert forall|i: int| 0 <= i < (a + b).len() implies (#[trigger] (a + b)[i]).from == from
        && (a + b)[i].to.on_board() && (a + b)[i].promotion != Some(Piece::King) by {
        if i < a.len() {
            assert((a + b)[i] == a[i]);
        } else {
            assert((a + b)[i] == b[i - a.len()]);
        }
    }
}

proof fn lemma_moves_on_board_add(a: Seq<Move>, b: Seq<Move>)
    requires
        moves_on_board(a),
        moves_on_board(b),
    ensures
        moves_on_board(a + b),
{
    assert forall|i: int| 0 <= i < (a + b).len() implies (#[trigger] (a + b)[i]).from.on_board()
        && (a + b)[i].to.on_board() && (a + b)[i].promotion != Some(Piece::King) by {
        if i < a.len() {
            assert((a + b)[i] == a[i]);
        } else {
            assert((a + b)[i] == b[i - a.len()]);
        }
    }
}

proof fn lemma_ray_moves_from(s: BoardState, c: Color, from: Square, t: Square, d: (i8, i8), fuel: nat)
    ensures
        moves_from(ray_moves(s, c, from, t, d, fuel), from),
    decreases fuel,
{
    if fuel > 0 && t.on_board() && !s.pieces(c).occupied_at(t.index()) && !s.pieces(
        opposite(c),
    ).occupied_at(t.index()) {
        lemma_ray_moves_from(s, c, from, step(t, d), d, (fuel - 1) as nat);
        lemma_moves_from_add(
            seq![plain(t, from)],
            ray_moves(s, c, from, step(t, d), d, (fuel - 1) as nat),
            from,
        );
    }
}

proof fn lemma_slide_moves_from(s: BoardState, c: Color, from: Square, dirs: Seq<(i8, i8)>, n: nat)
    ensures
        moves_from(slide_moves(s, c, from, dirs, n), from),
    decreases n,
{
    if n > 0 {
        lemma_slide_moves_from(s, c, from, dirs, (n - 1) as nat);
        lemma_ray_moves_from(s, c, from, step(from, dirs[n - 1]), dirs[n - 1], 8);
        lemma_moves_from_add(
            slide_moves(s, c, from, dirs, (n - 1) as nat),
            ray_moves(s, c, from, step(from, dirs[n - 1]), dirs[n - 1], 8),
            from,
        );
    }
}

proof fn lemma_step_moves_from(s: BoardState, c: Color, from: Square, dirs: Seq<(i8, i8)>, n: nat)
    ensures
        moves_from(step_moves(s, c, from, dirs, n), from),
    decreases n,
{
    if n > 0 {
        let t = step(from, dirs[n - 1]);
        lemma_step_moves_from(s, c, from, dirs, (n - 1) as nat);
        let tail: Seq<Move> = if t.on_board() && !s.pieces(c).occupied_at(t.index()) {
            seq![plain(t, from)]
        } else {
            seq![]
        };
        lemma_moves_from_add(step_moves(s, c, from, dirs, (n - 1) as nat), tail, from);
    }
}

proof fn lemma_pawn_moves_from(s: BoardState, c: Color, from: Square)
    requires
        from.on_board(),
    ensures
        moves_from(pawn_moves(s, c, from), from),
{
    let dir = pawn_direction(c);
    let enemy = s.pieces(opposite(c));
    let push = sq(from.row + dir, from.column as int);
    let jump = sq(from.row + 2 * dir, from.column as int);
    let capture_left = sq(from.row + dir, from.column - 1);
    let capture_right = sq(from.row + dir, from.column + 1);
    let row = promotion_row(c);
    let push_moves = if push.on_board() && !s.occupied(push) {
        pawn_move_to(push, from, row)
    } else {
        seq![]
    };
    let jump_moves = if from.row == pawn_row(c) && !s.occupied(jump) && !s.occupied(push) {
        seq![plain(jump, from)]
    } else {
        seq![]
    };
    let left_moves = if capture_left.on_board() && (enemy.en_passant_at(capture_left.index())
        || enemy.occupied_at(capture_left.index())) {
        pawn_move_to(capture_left, from, row)
    } else {
        seq![]
    };
    let right_moves = if capture_right.on_board() && (enemy.en_passant_at(capture_right.index())
        || enemy.occupied_at(capture_right.index())) {
        pawn_move_to(capture_right, from, row)
    } else {
        seq![]
    };
    assert(moves_from(push_moves, from));
    assert(moves_from(jump_moves, from));
    assert(moves_from(left_moves, from));
    assert(moves_from(right_moves, from));
    lemma_moves_from_add(push_moves, jump_moves, from);
    lemma_moves_from_add(push_moves + jump_moves, left_moves, from);
    lemma_moves_from_add(push_moves + jump_moves + left_moves, right_moves, from);
}

/// The square on which a king of `c` starts.
pub open spec fn king_home(c: Color) -> Square {
    sq(piece_row(c), 4)
}

proof fn lemma_king_moves_from(s: BoardState, c: Color, from: Square)
    requires
        from.on_board(),
        king_home_ok(s, c),
        is_set(s.pieces(c).king, from.index()),
    ensures
        moves_from(king_moves(s, c, from), from),
{
    let rights = s.rights(c);
    lemma_step_moves_from(s, c, from, king_offsets(), 8);
    if rights.can_left() || rights.can_right() {
        if s.pieces(c).king == 0 {
            crate::bits::lemma_is_set_zero(from.index());
        } else {
            crate::bits::lemma_is_set_bit(king_home(c).index(), from.index());
        }
        assert(from == king_home(c));
    }
    let left: Seq<Move> = if rights.can_left() && castle_available(s, c, -1) {
        seq![plain(sq(from.row as int, from.column - 2), from)]
    } else {
        seq![]
    };
    let right: Seq<Move> = if rights.can_right() && castle_available(s, c, 1) {
        seq![plain(sq(from.row as int, from.column + 2), from)]
    } else {
        seq![]
    };
    assert(moves_from(left, from));
    assert(moves_from(right, from));
    lemma_moves_from_add(step_moves(s, c, from, king_offsets(), 8), left, from);
    lemma_moves_from_add(step_moves(s, c, from, king_offsets(), 8) + left, right, from);
}

proof fn lemma_piece_moves_from(s: BoardState, c: Color, piece: Piece, from: Square)
    requires
        from.on_board(),
        king_home_ok(s, c),
        piece == Piece::King ==> is_set(s.pieces(c).king, from.index()),
    ensures
        moves_from(piece_moves(s, c, piece, from), from),
{
    match piece {
        Piece::Pawn => lemma_pawn_moves_from(s, c, from),
        Piece::Rook => lemma_slide_moves_from(s, c, from, rook_dirs(), 4),
        Piece::Knight => lemma_step_moves_from(s, c, from, knight_offsets(), 8),
        Piece::Bishop => lemma_slide_moves_from(s, c, from, bishop_dirs(), 4),
        Piece::Queen => {
            lemma_slide_moves_from(s, c, from, rook_dirs(), 4);
            lemma_slide_moves_from(s, c, from, bishop_dirs(), 4);
            lemma_moves_from_add(
                slide_moves(s, c, from, rook_dirs(), 4),
                slide_moves(s, c, from, bishop_dirs(), 4),
                from,
            );
        },
        Piece::King => lemma_king_moves_from(s, c, from),
    }
}

proof fn lemma_squares_moves_on_board(s: BoardState, piece: Piece, squares: Seq<Square>, k: nat)
    requires
        k <= squares.len(),
        king_home_ok(s, s.turn),
        forall|i: int| 0 <= i < squares.len() ==> (#[trigger] squares[i]).on_board(),
        piece == Piece::King ==> forall|i: int|
            0 <= i < squares.len() ==> is_set(s.pieces(s.turn).king, (#[trigger] squares[i]).index()),
    ensures
        moves_on_board(squares_moves(s, piece, squares, k)),
    decreases k,
{
    if k > 0 {
        let from = squares[k - 1];
        lemma_squares_moves_on_board(s, piece, squares, (k - 1) as nat);
        lemma_piece_moves_from(s, s.turn, piece, from);
        lemma_moves_on_board_add(
            squares_moves(s, piece, squares, (k - 1) as nat),
            piece_moves(s, s.turn, piece, from),
        );
    }
}

proof fn lemma_kinds_moves_on_board(s: BoardState, n: nat)
    requires
        n <= 6,
        king_home_ok(s, s.turn),
    ensures
        moves_on_board(kinds_moves(s, n)),
    decreases n,
{
    if n > 0 {
        let piece = piece_types()[n - 1];
        let bb = s.pieces(s.turn).bb(piece);
        let squares = squares_of(bb);
        lemma_kinds_moves_on_board(s, (n - 1) as nat);
        crate::board::square::lemma_squares_upto(bb, 64);
        lemma_squares_moves_on_board(s, piece, squares, squares.len());
        lemma_moves_on_board_add(
            kinds_moves(s, (n - 1) as nat),
            squares_moves(s, piece, squares, squares.len()),
        );
    }
}

/// In a position where castling is allowed only for a king on its home square, every
/// generated move goes between squares of the board and promotes to no king.
pub proof fn lemma_pseudo_moves_on_board(s: BoardState)
    requires
        king_home_ok(s, s.turn),
    ensures
        moves_on_board(pseudo_moves(s)),
{
    lemma_kinds_moves_on_board(s, 6);
}

pub proof fn lemma_lowest_square_bit(i: int)
    requires
        0 <= i < 64,
    ensures
        lowest_square(crate::bits::bit(i)) == crate::board::square::square_of_index(i),
{
    let b = crate::bits::bit(i);
    crate::bits::lemma_bit_facts(i, i);
    vstd::std_specs::bits::axiom_u64_trailing_zeros(b);
    let t = vstd::std_specs::bits::u64_trailing_zeros(b) as int;
    assert(crate::bits::is_set(b, t));
    crate::bits::lemma_is_set_bit(i, t);
}

/// Where a side has at most one en passant marker, its en passant square (what
/// `find_en_passant` returns) is exactly the square marked, and nothing where none is.
pub proof fn lemma_en_passant_square_exact(ps: PieceSet)
    requires
        ps.en_passant == 0 || exists|i: int| 0 <= i < 64 && ps.en_passant == #[trigger] crate::bits::bit(i),
    ensures
        forall|t: Square|
            t.on_board() ==> (ps.en_passant_square() == Some(t) <==> ps.en_passant_at(t.index())),
        ps.en_passant_square() is None <==> forall|t: Square|
            t.on_board() ==> !ps.en_passant_at(t.index()),
{
    if ps.en_passant != 0 {
        let i = choose|i: int| 0 <= i < 64 && ps.en_passant == #[trigger] crate::bits::bit(i);
        lemma_lowest_square_bit(i);
        crate::board::square::lemma_square_of_index(i);
        let m = crate::board::square::square_of_index(i);
        assert forall|t: Square| t.on_board() implies (ps.en_passant_square() == Some(t)
            <==> ps.en_passant_at(t.index())) by {
            crate::board::square::lemma_index_square(t);
            crate::bits::lemma_bit_facts(t.index(), i);
        }
        assert(m.on_board() && ps.en_passant_at(m.index()));
    }
}

/// The en passant marker `ps` of a consistent side marks row `row` only.
proof fn lemma_en_passant_row(ps: PieceSet, row: int, to: Square)
    requires
        en_passant_ok(ps, row),
        to.on_board(),
        ps.en_passant_at(to.index()),
    ensures
        to.row == row,
{
    let ep = ps.en_passant;
    vstd::std_specs::bits::axiom_u64_trailing_zeros(ep);
    let t = vstd::std_specs::bits::u64_trailing_zeros(ep) as int;
    crate::board::square::lemma_square_of_index(t);
    let l = lowest_square(ep);
    assert(l == crate::board::square::square_of_index(t));
    crate::bits::lemma_bit_facts(to.index(), l.index());
}

proof fn lemma_move_defined(s: BoardState, m: Move)
    requires
        consistent(s),
        m.from.on_board(),
        m.to.on_board(),
    ensures
        make_move_defined(s, m),
{
    let c = s.turn;
    let enemy = s.pieces(opposite(c));
    if enemy.en_passant_at(m.to.index()) {
        match c {
            Color::White => lemma_en_passant_row(enemy, 5, m.to),
            Color::Black => lemma_en_passant_row(enemy, 2, m.to),
        }
    }
}

/// In a consistent position every generated move can be played.
pub proof fn lemma_consistent_moves_defined(s: BoardState)
    requires
        consistent(s),
    ensures
        moves_defined(s),
{
    let c = s.turn;
    lemma_pseudo_moves_on_board(s);
    assert forall|i: int| 0 <= i < pseudo_moves(s).len() implies make_move_defined(
        s,
        #[trigger] pseudo_moves(s)[i],
    ) by {
        lemma_move_defined(s, pseudo_moves(s)[i]);
    }
    if s.pieces(c).king != 0 && (s.rights(c).can_left() || s.rights(c).can_right()) {
        lemma_lowest_square_bit(king_home(c).index());
        crate::board::square::lemma_square_of_index(king_home(c).index());
    }
}

/// A side whose king bitboard is empty or its home square, so far as castling asks it.
pub open spec fn side_ok(ps: PieceSet, rights: CastleRights, c: Color) -> bool {
    (rights.can_left() || rights.can_right()) ==> (ps.king == 0 || ps.king
        == crate::bits::bit(king_home(c).index()))
}

/// The castle rights `b` allow nothing that `a` did not.
pub open spec fn rights_shrink(a: CastleRights, b: CastleRights) -> bool {
    (b.can_left() ==> a.can_left()) && (b.can_right() ==> a.can_right())
}

proof fn lemma_king_removed(k: u64, h: int, j: int)
    requires
        0 <= h < 64,
        0 <= j < 64,
    ensures
        (k == 0 || k == crate::bits::bit(h)) ==> ((k & !crate::bits::bit(j)) == 0 || (k
            & !crate::bits::bit(j)) == crate::bits::bit(h)),
{
    let hh = h as u64;
    let jj = j as u64;
    assert(hh < 64 && jj < 64 ==> ((k == 0 || k == (1u64 << hh)) ==> ((k & !(1u64 << jj)) == 0 || (
    k & !(1u64 << jj)) == (1u64 << hh)))) by (bit_vector);
}

/// Removing a square from a side keeps its king where castling needs it.
proof fn lemma_side_removed(ps: PieceSet, rights: CastleRights, c: Color, j: int)
    requires
        side_ok(ps, rights, c),
        0 <= j < 64,
    ensures
        side_ok(ps.removed(j), rights, c),
        ps.removed(j).en_passant == ps.en_passant,
{
    lemma_king_removed(ps.king, king_home(c).index(), j);
}

proof fn lemma_rook_left_shrinks(rights: CastleRights, t: Square, row: int)
    ensures
        rights_shrink(rights, rook_left_square(rights, t, row)),
{
}

/// Playing a generated move and passing the turn keeps a position consistent.
#[verifier::rlimit(60)]
pub proof fn lemma_consistent_after_turn(s: BoardState, m: Move)
    requires
        consistent(s),
        pseudo_moves(s).contains(m),
    ensures
        consistent(after_turn(s, m)),
{
    let c = s.turn;
    lemma_pseudo_moves_on_board(s);
    let k = choose|k: int| 0 <= k < pseudo_moves(s).len() && pseudo_moves(s)[k] == m;
    assert(m.from.on_board() && m.to.on_board() && m.promotion != Some(Piece::King));
    lemma_move_defined(s, m);
    let ctx0 = context_of(s);
    assert(side_ok(ctx0.friendly_pieces, ctx0.castle_rights, c));
    assert(side_ok(ctx0.enemy_pieces, ctx0.enemy_castle_rights, opposite(c)));
    match ctx0.friendly_pieces.piece_at(m.from.index()) {
        None => {},
        Some(piece) => {
            let (ctx1, h1) = spec_update_castle_rights(ctx0, piece, m, s.hash);
            assert(rights_shrink(ctx0.castle_rights, ctx1.castle_rights));
            assert(piece == Piece::King ==> !ctx1.castle_rights.can_left()
                && !ctx1.castle_rights.can_right());
            let (ctx2, h2) = spec_piece_move(ctx1, piece, m, h1);
            if piece != Piece::King {
                lemma_side_removed(
                    ctx0.friendly_pieces.added(m.to.index(), piece),
                    ctx1.castle_rights,
                    c,
                    m.from.index(),
                );
                assert(side_ok(ctx2.friendly_pieces, ctx2.castle_rights, c));
            }
            assert(ctx2.friendly_pieces.en_passant == ctx0.friendly_pieces.en_passant);
            let (ctx3, h3) = if piece == Piece::Pawn && is_jump_move(s.turn, m) {
                spec_pawn_jump(ctx2, m, h2)
            } else if piece == Piece::Pawn && ctx2.enemy_pieces.en_passant_at(m.to.index()) {
                spec_en_passant(ctx2, m, h2)
            } else if m.promotion is Some {
                spec_promotion(ctx2, m, m.promotion->0, h2)
            } else if is_castle_move(piece, m) {
                spec_castle(ctx2, m, h2)
            } else {
                spec_capture(ctx2, m, h2)
            };
            if piece == Piece::Pawn && is_jump_move(s.turn, m) {
                let skipped = sq(ctx2.pawn_row + ctx2.pawn_direction, m.from.column as int);
                crate::board::square::lemma_square_of_index(skipped.index());
                lemma_lowest_square_bit(skipped.index());
                assert(crate::board::square::square_of_index(skipped.index()) == skipped);
                assert(en_passant_ok(ctx3.friendly_pieces, if c == Color::White { 2 } else { 5 }));
            } else if piece == Piece::Pawn && ctx2.enemy_pieces.en_passant_at(m.to.index()) {
                lemma_side_removed(
                    ctx2.enemy_pieces,
                    ctx2.enemy_castle_rights,
                    opposite(c),
                    en_passant_victim(c, m.to).index(),
                );
            } else if m.promotion is Some {
                if piece != Piece::King {
                    lemma_side_removed(ctx2.friendly_pieces, ctx2.castle_rights, c, m.to.index());
                }
                lemma_side_removed(
                    ctx2.enemy_pieces,
                    ctx2.enemy_castle_rights,
                    opposite(c),
                    m.to.index(),
                );
            } else if is_castle_move(piece, m) {
            } else {
                if ctx2.enemy_pieces.piece_at(m.to.index()) is Some {
                    lemma_side_removed(
                        ctx2.enemy_pieces,
                        ctx2.enemy_castle_rights,
                        opposite(c),
                        m.to.index(),
                    );
                    lemma_rook_left_shrinks(
                        ctx2.enemy_castle_rights,
                        m.to,
                        ctx2.enemy_piece_row as int,
                    );
                }
            }
            assert(side_ok(ctx3.enemy_pieces, ctx3.enemy_castle_rights, opposite(c)));
            assert(piece != Piece::King ==> side_ok(ctx3.friendly_pieces, ctx3.castle_rights, c));
            assert(piece == Piece::King ==> side_ok(ctx3.friendly_pieces, ctx3.castle_rights, c));
        },
    }
}

// ---------------------------------------------------------------------------------------------
// The hash kept up move by move is the hash of the position.
// ---------------------------------------------------------------------------------------------

/// No square holds two pieces.
pub open spec fn exclusive(s: BoardState) -> bool {
    forall|j: int, c1: Color, p1: Piece, c2: Color, p2: Piece|
        0 <= j < 64 && #[trigger] s.pieces(c1).has_piece(p1, j) && #[trigger] s.pieces(
            c2,
        ).has_piece(p2, j) ==> c1 == c2 && p1 == p2
}

/// The en passant marker of the side not to move, if any, marks an empty square behind one of
/// its pawns.
pub open spec fn en_passant_target_ok(s: BoardState) -> bool {
    let e = s.pieces(opposite(s.turn));
    e.en_passant != 0 ==> {
        let x = lowest_square(e.en_passant);
        &&& !s.occupied(x)
        &&& e.has_piece(Piece::Pawn, en_passant_victim(s.turn, x).index())
    }
}

/// The invariant of positions reached by play from the start, under which the hash kept up
/// move by move is the Zobrist hash of the position.
pub open spec fn hash_invariant(s: BoardState) -> bool {
    &&& consistent(s)
    &&& exclusive(s)
    &&& s.pieces(s.turn).en_passant == 0
    &&& en_passant_target_ok(s)
    &&& s.hash == position_hash(s)
}

/// The board that `ctx` describes, with the hash of `s`.
spec fn ctx_state(s: BoardState, ctx: MoveContext) -> BoardState {
    with_context(s, ctx, s.hash)
}

/// The context of a board describes the board.
spec fn ctx_fits(s: BoardState, ctx: MoveContext) -> bool {
    &&& ctx.turn == s.turn
    &&& ctx.piece_row == piece_row(s.turn)
    &&& ctx.enemy_piece_row == piece_row(opposite(s.turn))
    &&& ctx.pawn_row == pawn_row(s.turn)
    &&& ctx.pawn_direction == pawn_direction(s.turn)
}

proof fn lemma_toggle_key_if(h: u64, b: bool, k: u64)
    ensures
        toggle(h, b, k) == h ^ key_if(b, k),
{
    lemma_xor_zero(h);
}

proof fn lemma_xor_zero_right(h: u64)
    ensures
        h ^ 0 == h,
{
    lemma_xor_zero(h);
}

proof fn lemma_hash_phase_rights(s: BoardState, piece: Piece, m: Move)
    ensures
        position_hash(ctx_state(s, spec_update_castle_rights(context_of(s), piece, m, position_hash(s)).0))
            == spec_update_castle_rights(context_of(s), piece, m, position_hash(s)).1,
        ctx_fits(s, spec_update_castle_rights(context_of(s), piece, m, position_hash(s)).0),
{
    let c = s.turn;
    let ctx0 = context_of(s);
    let (ctx1, h1) = spec_update_castle_rights(ctx0, piece, m, position_hash(s));
    let r2 = ctx1.castle_rights;
    assert(ctx_state(s, ctx1) == with_rights(s, c, r2));
    lemma_hash_rights(s, c, r2);
    let h = position_hash(s);
    lemma_toggle_key_if(h, ctx0.castle_rights.can_left() != r2.can_left(), castle_left_key(c));
    lemma_toggle_key_if(
        toggle(h, ctx0.castle_rights.can_left() != r2.can_left(), castle_left_key(c)),
        ctx0.castle_rights.can_right() != r2.can_right(),
        castle_right_key(c),
    );
}

/// Setting bit `i` of one kind keeps the other squares and kinds as they are.
pub proof fn lemma_added_has(ps: PieceSet, i: int, p: Piece, q: Piece, j: int)
    requires
        0 <= i < 64,
        0 <= j < 64,
    ensures
        ps.added(i, p).has_piece(q, j) == (ps.has_piece(q, j) || (q == p && j == i)),
        ps.added(i, p).en_passant == ps.en_passant,
{
    crate::bits::lemma_is_set_or_bit(ps.bb(q), i, j);
}

/// Clearing square `i` keeps the other squares as they are.
pub proof fn lemma_removed_has(ps: PieceSet, i: int, q: Piece, j: int)
    requires
        0 <= i < 64,
        0 <= j < 64,
    ensures
        ps.removed(i).has_piece(q, j) == (ps.has_piece(q, j) && j != i),
        ps.removed(i).en_passant == ps.en_passant,
{
    crate::bits::lemma_is_set_and_not_bit(ps.bb(q), i, j);
}

proof fn lemma_hash_phase_piece_move(s: BoardState, ctx1: MoveContext, piece: Piece, m: Move, h1: u64)
    requires
        ctx_fits(s, ctx1),
        position_hash(ctx_state(s, ctx1)) == h1,
        m.from.on_board(),
        m.to.on_board(),
        m.from.index() != m.to.index(),
        only_kind_at(ctx1.friendly_pieces, piece, m.from.index()),
        !ctx1.friendly_pieces.occupied_at(m.to.index()),
    ensures
        position_hash(ctx_state(s, spec_piece_move(ctx1, piece, m, h1).0)) == spec_piece_move(
            ctx1,
            piece,
            m,
            h1,
        ).1,
        ctx_fits(s, spec_piece_move(ctx1, piece, m, h1).0),
{
    let c = s.turn;
    let f = ctx1.friendly_pieces;
    let (from, to) = (m.from.index(), m.to.index());
    let fa = f.added(to, piece);
    let st1 = ctx_state(s, ctx1);
    lemma_added_toggles(f, to, piece);
    assert(st1.pieces(c) == f);
    lemma_hash_pieces_toggle(st1, c, fa, piece, to, true);
    let st_a = with_pieces(st1, c, fa);
    assert forall|q: Piece| #[trigger] fa.has_piece(q, from) implies q == piece by {
        lemma_added_has(f, to, piece, q, from);
    }
    lemma_added_has(f, to, piece, piece, from);
    assert(only_kind_at(fa, piece, from));
    lemma_removed_toggles(fa, from, piece, true);
    assert(st_a.pieces(c) == fa);
    lemma_hash_pieces_toggle(st_a, c, fa.removed(from), piece, from, true);
    let (ctx2, h2) = spec_piece_move(ctx1, piece, m, h1);
    assert(ctx_state(s, ctx2) == with_pieces(st_a, c, fa.removed(from)));
}

proof fn lemma_position_hash_ignores_hash(a: BoardState, b: BoardState)
    requires
        a.white == b.white,
        a.black == b.black,
        a.white_castle == b.white_castle,
        a.black_castle == b.black_castle,
        a.turn == b.turn,
    ensures
        position_hash(a) == position_hash(b),
{
    assert(a == BoardState { hash: a.hash, ..b });
}

/// Adding a `p` of `c` on square `i`, where `c` has none, flips its key.
proof fn lemma_state_add(st: BoardState, c: Color, p: Piece, i: int)
    requires
        0 <= i < 64,
        !st.pieces(c).has_piece(p, i),
    ensures
        position_hash(with_pieces(st, c, st.pieces(c).added(i, p))) == position_hash(st) ^ piece_key(c, p, i),
{
    lemma_added_toggles(st.pieces(c), i, p);
    lemma_hash_pieces_toggle(st, c, st.pieces(c).added(i, p), p, i, true);
}

/// Clearing square `i` of the pieces of `c` flips the key of the one `p` on it, or changes
/// nothing when it is empty.
proof fn lemma_state_remove(st: BoardState, c: Color, p: Piece, i: int, flip: bool)
    requires
        0 <= i < 64,
        flip ==> only_kind_at(st.pieces(c), p, i),
        !flip ==> !st.pieces(c).occupied_at(i),
    ensures
        position_hash(with_pieces(st, c, st.pieces(c).removed(i))) == position_hash(st) ^ key_if(
            flip,
            piece_key(c, p, i),
        ),
{
    lemma_removed_toggles(st.pieces(c), i, p, flip);
    lemma_hash_pieces_toggle(st, c, st.pieces(c).removed(i), p, i, flip);
}

/// Moving the one `p` of `c` on square `a` to the square `b`, where `c` has no `p`.
proof fn lemma_state_shift(st: BoardState, c: Color, p: Piece, a: int, b: int)
    requires
        0 <= a < 64,
        0 <= b < 64,
        a != b,
        only_kind_at(st.pieces(c), p, a),
        !st.pieces(c).has_piece(p, b),
    ensures
        position_hash(with_pieces(st, c, st.pieces(c).added(b, p).removed(a))) == position_hash(st)
            ^ piece_key(c, p, b) ^ piece_key(c, p, a),
{
    let f = st.pieces(c);
    let fa = f.added(b, p);
    lemma_state_add(st, c, p, b);
    let st_a = with_pieces(st, c, fa);
    assert forall|q: Piece| #[trigger] fa.has_piece(q, a) implies q == p by {
        lemma_added_has(f, b, p, q, a);
    }
    lemma_added_has(f, b, p, p, a);
    assert(st_a.pieces(c) == fa);
    lemma_state_remove(st_a, c, p, a, true);
    assert(with_pieces(st_a, c, fa.removed(a)) == with_pieces(st, c, fa.removed(a)));
}

proof fn lemma_hash_phase_jump(s: BoardState, ctx2: MoveContext, m: Move, h2: u64)
    requires
        ctx_fits(s, ctx2),
        position_hash(ctx_state(s, ctx2)) == h2,
        ctx2.friendly_pieces.en_passant == 0,
        0 <= m.from.column <= 7,
    ensures
        position_hash(ctx_state(s, spec_pawn_jump(ctx2, m, h2).0)) == spec_pawn_jump(ctx2, m, h2).1,
        ctx_fits(s, spec_pawn_jump(ctx2, m, h2).0),
{
    let c = s.turn;
    let skipped = sq(ctx2.pawn_row + ctx2.pawn_direction, m.from.column as int);
    let i = skipped.index();
    let st2 = ctx_state(s, ctx2);
    crate::board::square::lemma_square_of_index(i);
    lemma_lowest_square_bit(i);
    assert(crate::board::square::square_of_index(i) == skipped);
    assert(st2.pieces(c) == ctx2.friendly_pieces);
    lemma_hash_en_passant(st2, c, crate::bits::bit(i));
    crate::bits::lemma_bit_facts(i, i);
    lemma_xor_zero_right(h2);
    let (ctx3, h3) = spec_pawn_jump(ctx2, m, h2);
    assert(ctx_state(s, ctx3) == with_pieces(
        st2,
        c,
        PieceSet { en_passant: crate::bits::bit(i), ..st2.pieces(c) },
    ));
}

proof fn lemma_hash_phase_en_passant(s: BoardState, ctx2: MoveContext, m: Move, h2: u64)
    requires
        ctx_fits(s, ctx2),
        position_hash(ctx_state(s, ctx2)) == h2,
        0 <= en_passant_victim(s.turn, m.to).index() < 64,
        only_kind_at(ctx2.enemy_pieces, Piece::Pawn, en_passant_victim(s.turn, m.to).index()),
    ensures
        position_hash(ctx_state(s, spec_en_passant(ctx2, m, h2).0)) == spec_en_passant(ctx2, m, h2).1,
        ctx_fits(s, spec_en_passant(ctx2, m, h2).0),
{
    let c = s.turn;
    let v = en_passant_victim(c, m.to).index();
    let st2 = ctx_state(s, ctx2);
    assert(st2.pieces(opposite(c)) == ctx2.enemy_pieces);
    lemma_state_remove(st2, opposite(c), Piece::Pawn, v, true);
    let (ctx3, h3) = spec_en_passant(ctx2, m, h2);
    assert(ctx_state(s, ctx3) == with_pieces(st2, opposite(c), ctx2.enemy_pieces.removed(v)));
}

proof fn lemma_hash_phase_promotion(s: BoardState, ctx2: MoveContext, m: Move, promoted: Piece, h2: u64)
    requires
        ctx_fits(s, ctx2),
        position_hash(ctx_state(s, ctx2)) == h2,
        m.to.on_board(),
        only_kind_at(ctx2.friendly_pieces, Piece::Pawn, m.to.index()),
        promoted != Piece::Pawn,
        !ctx2.enemy_pieces.occupied_at(m.to.index()),
    ensures
        position_hash(ctx_state(s, spec_promotion(ctx2, m, promoted, h2).0)) == spec_promotion(
            ctx2,
            m,
            promoted,
            h2,
        ).1,
        ctx_fits(s, spec_promotion(ctx2, m, promoted, h2).0),
{
    let c = s.turn;
    let t = m.to.index();
    let st2 = ctx_state(s, ctx2);
    let f = ctx2.friendly_pieces;
    assert(st2.pieces(c) == f);
    lemma_state_remove(st2, c, Piece::Pawn, t, true);
    let st_a = with_pieces(st2, c, f.removed(t));
    lemma_removed_has(f, t, promoted, t);
    assert(st_a.pieces(c) == f.removed(t));
    lemma_state_add(st_a, c, promoted, t);
    let st_b = with_pieces(st_a, c, f.removed(t).added(t, promoted));
    assert(st_b.pieces(opposite(c)) == ctx2.enemy_pieces);
    lemma_state_remove(st_b, opposite(c), Piece::Pawn, t, false);
    let (ctx3, h3) = spec_promotion(ctx2, m, promoted, h2);
    lemma_xor_zero_right(h3);
    assert(ctx_state(s, ctx3) == with_pieces(st_b, opposite(c), ctx2.enemy_pieces.removed(t)));
}

proof fn lemma_hash_phase_castle(s: BoardState, ctx2: MoveContext, m: Move, h2: u64)
    requires
        ctx_fits(s, ctx2),
        position_hash(ctx_state(s, ctx2)) == h2,
        castle_rook_squares(m, ctx2.piece_row as int).0.on_board(),
        castle_rook_squares(m, ctx2.piece_row as int).1.on_board(),
        castle_rook_squares(m, ctx2.piece_row as int).0.index() != castle_rook_squares(
            m,
            ctx2.piece_row as int,
        ).1.index(),
        only_kind_at(ctx2.friendly_pieces, Piece::Rook, castle_rook_squares(m, ctx2.piece_row as int).0.index()),
        !ctx2.friendly_pieces.has_piece(Piece::Rook, castle_rook_squares(m, ctx2.piece_row as int).1.index()),
    ensures
        position_hash(ctx_state(s, spec_castle(ctx2, m, h2).0)) == spec_castle(ctx2, m, h2).1,
        ctx_fits(s, spec_castle(ctx2, m, h2).0),
{
    let c = s.turn;
    let (current, new) = castle_rook_squares(m, ctx2.piece_row as int);
    let st2 = ctx_state(s, ctx2);
    assert(st2.pieces(c) == ctx2.friendly_pieces);
    lemma_state_shift(st2, c, Piece::Rook, current.index(), new.index());
    let (ctx3, h3) = spec_castle(ctx2, m, h2);
    assert(ctx_state(s, ctx3) == with_pieces(
        st2,
        c,
        ctx2.friendly_pieces.added(new.index(), Piece::Rook).removed(current.index()),
    ));
}

proof fn lemma_hash_phase_capture(s: BoardState, ctx2: MoveContext, m: Move, h2: u64)
    requires
        ctx_fits(s, ctx2),
        position_hash(ctx_state(s, ctx2)) == h2,
        m.to.on_board(),
        ctx2.enemy_pieces.piece_at(m.to.index()) matches Some(p) ==> only_kind_at(
            ctx2.enemy_pieces,
            p,
            m.to.index(),
        ),
    ensures
        position_hash(ctx_state(s, spec_capture(ctx2, m, h2).0)) == spec_capture(ctx2, m, h2).1,
        ctx_fits(s, spec_capture(ctx2, m, h2).0),
{
    let c = s.turn;
    let e = opposite(c);
    let t = m.to.index();
    let st2 = ctx_state(s, ctx2);
    match ctx2.enemy_pieces.piece_at(t) {
        None => {},
        Some(captured) => {
            assert(st2.pieces(e) == ctx2.enemy_pieces);
            lemma_state_remove(st2, e, captured, t, true);
            let st_a = with_pieces(st2, e, ctx2.enemy_pieces.removed(t));
            let h_a = h2 ^ piece_key(e, captured, t);
            let old_rights = ctx2.enemy_castle_rights;
            let rights = if captured == Piece::Rook {
                rook_left_square(old_rights, m.to, ctx2.enemy_piece_row as int)
            } else {
                old_rights
            };
            assert(st_a.rights(e) == old_rights);
            lemma_hash_rights(st_a, e, rights);
            lemma_toggle_key_if(h_a, old_rights.can_left() != rights.can_left(), castle_left_key(e));
            lemma_toggle_key_if(
                toggle(h_a, old_rights.can_left() != rights.can_left(), castle_left_key(e)),
                old_rights.can_right() != rights.can_right(),
                castle_right_key(e),
            );
            let (ctx3, h3) = spec_capture(ctx2, m, h2);
            assert(ctx_state(s, ctx3) == with_rights(st_a, e, rights));
        },
    }
}

proof fn lemma_hash_phase_clear(s: BoardState, ctx3: MoveContext, h3: u64)
    requires
        ctx_fits(s, ctx3),
        position_hash(ctx_state(s, ctx3)) == h3,
    ensures
        position_hash(ctx_state(s, MoveContext {
            enemy_pieces: PieceSet { en_passant: 0, ..ctx3.enemy_pieces },
            ..ctx3
        })) == match ctx3.enemy_pieces.en_passant_square() {
            Some(ep) => h3 ^ en_passant_key(ep.column as int),
            None => h3,
        },
{
    let c = s.turn;
    let e = opposite(c);
    let st3 = ctx_state(s, ctx3);
    assert(st3.pieces(e) == ctx3.enemy_pieces);
    lemma_hash_en_passant(st3, e, 0);
    lemma_xor_zero_right(h3);
    lemma_xor_zero_right(h3 ^ en_passant_hash(ctx3.enemy_pieces));
    let ctx4 = MoveContext { enemy_pieces: PieceSet { en_passant: 0, ..ctx3.enemy_pieces }, ..ctx3 };
    assert(ctx_state(s, ctx4) == with_pieces(
        st3,
        e,
        PieceSet { en_passant: 0, ..st3.pieces(e) },
    ));
}

/// The kind of piece a shaped move is a move of.
pub proof fn lemma_shaped_kind(s: BoardState, m: Move) -> (k: Piece)
    requires
        some_shaped(s, m),
    ensures
        shaped(s, k, m),
{
    if shaped(s, Piece::Pawn, m) {
        Piece::Pawn
    } else if shaped(s, Piece::Rook, m) {
        Piece::Rook
    } else if shaped(s, Piece::Knight, m) {
        Piece::Knight
    } else if shaped(s, Piece::Bishop, m) {
        Piece::Bishop
    } else if shaped(s, Piece::Queen, m) {
        Piece::Queen
    } else {
        Piece::King
    }
}

/// What a generated move of a position under the hash invariant brings with it: the kind of
/// the piece that moves, alone on its square, and a target square that its side does not hold.
proof fn lemma_move_facts(s: BoardState, m: Move) -> (k: Piece)
    requires
        hash_invariant(s),
        pseudo_moves(s).contains(m),
    ensures
        shaped(s, k, m),
        only_kind_at(s.pieces(s.turn), k, m.from.index()),
        s.pieces(s.turn).piece_at(m.from.index()) == Some(k),
        !s.pieces(s.turn).occupied_at(m.to.index()),
        m.from.index() != m.to.index(),
        m.from.on_board() && m.to.on_board(),
        make_move_defined(s, m),
{
    let c = s.turn;
    let f = s.pieces(c);
    let e = s.pieces(opposite(c));
    lemma_pseudo_moves_shaped(s);
    let i = choose|i: int| 0 <= i < pseudo_moves(s).len() && pseudo_moves(s)[i] == m;
    assert(some_shaped(s, pseudo_moves(s)[i]));
    let k = lemma_shaped_kind(s, m);
    let (from, to) = (m.from.index(), m.to.index());
    assert forall|q: Piece| #[trigger] f.has_piece(q, from) implies q == k by {
        assert(s.pieces(c).has_piece(q, from) && s.pieces(c).has_piece(k, from));
    }
    if f.occupied_at(to) {
        if e.occupied_at(to) {
            let q1 = f.piece_at(to)->0;
            let q2 = e.piece_at(to)->0;
            assert(s.pieces(c).has_piece(q1, to) && s.pieces(opposite(c)).has_piece(q2, to));
        } else {
            let ep = e.en_passant;
            let x = lowest_square(ep);
            vstd::std_specs::bits::axiom_u64_trailing_zeros(ep);
            let t = vstd::std_specs::bits::u64_trailing_zeros(ep) as int;
            crate::board::square::lemma_square_of_index(t);
            assert(x == crate::board::square::square_of_index(t));
            assert(ep == crate::bits::bit(x.index())) by {
                match c {
                    Color::White => {},
                    Color::Black => {},
                }
            }
            crate::bits::lemma_bit_facts(to, x.index());
            assert(false);
        }
    }
    lemma_move_defined(s, m);
    k
}

/// The common ground of the branches of the third phase of a move.
spec fn phase_three_ready(s: BoardState, m: Move, k: Piece, ctx2: MoveContext, h2: u64) -> bool {
    &&& hash_invariant(s)
    &&& !(m.promotion is Some && s.pieces(opposite(s.turn)).occupied_at(m.to.index()))
    &&& shaped(s, k, m)
    &&& only_kind_at(s.pieces(s.turn), k, m.from.index())
    &&& !s.pieces(s.turn).occupied_at(m.to.index())
    &&& m.from.index() != m.to.index()
    &&& m.from.on_board() && m.to.on_board()
    &&& ctx_fits(s, ctx2)
    &&& position_hash(ctx_state(s, ctx2)) == h2
    &&& ctx2.friendly_pieces == s.pieces(s.turn).added(m.to.index(), k).removed(m.from.index())
    &&& ctx2.enemy_pieces == s.pieces(opposite(s.turn))
    &&& ctx2.enemy_castle_rights == s.rights(opposite(s.turn))
}

/// After the piece moved, its side holds what it held on squares other than the two of the
/// move, and only the moved kind on the target square.
pub proof fn lemma_moved_has(f: PieceSet, k: Piece, from: int, to: int, q: Piece, j: int)
    requires
        0 <= from < 64,
        0 <= to < 64,
        0 <= j < 64,
        from != to,
        !f.occupied_at(to),
    ensures
        j != from && j != to ==> f.added(to, k).removed(from).has_piece(q, j) == f.has_piece(q, j),
        j == to ==> f.added(to, k).removed(from).has_piece(q, j) == (q == k),
        j == from ==> !f.added(to, k).removed(from).has_piece(q, j),
        f.added(to, k).removed(from).en_passant == f.en_passant,
{
    lemma_added_has(f, to, k, q, j);
    lemma_removed_has(f.added(to, k), from, q, j);
}

proof fn lemma_three_en_passant(s: BoardState, m: Move, k: Piece, ctx2: MoveContext, h2: u64)
    requires
        phase_three_ready(s, m, k, ctx2, h2),
        ctx2.enemy_pieces.en_passant_at(m.to.index()),
    ensures
        position_hash(ctx_state(s, spec_en_passant(ctx2, m, h2).0)) == spec_en_passant(ctx2, m, h2).1,
        ctx_fits(s, spec_en_passant(ctx2, m, h2).0),
{
    let c = s.turn;
    let e = s.pieces(opposite(c));
    let to = m.to.index();
    let ep = e.en_passant;
    let x = lowest_square(ep);
    vstd::std_specs::bits::axiom_u64_trailing_zeros(ep);
    let t = vstd::std_specs::bits::u64_trailing_zeros(ep) as int;
    crate::board::square::lemma_square_of_index(t);
    assert(x == crate::board::square::square_of_index(t));
    crate::bits::lemma_bit_facts(to, x.index());
    assert(m.to == x);
    let v = en_passant_victim(c, m.to);
    assert(0 <= v.index() < 64) by {
        lemma_en_passant_row(e, if c == Color::White { 5 } else { 2 }, m.to);
    }
    assert forall|q: Piece| #[trigger] e.has_piece(q, v.index()) implies q == Piece::Pawn by {
        assert(s.pieces(opposite(c)).has_piece(q, v.index()) && s.pieces(opposite(c)).has_piece(
            Piece::Pawn,
            v.index(),
        ));
    }
    lemma_hash_phase_en_passant(s, ctx2, m, h2);
}

proof fn lemma_three_promotion(s: BoardState, m: Move, k: Piece, ctx2: MoveContext, h2: u64)
    requires
        phase_three_ready(s, m, k, ctx2, h2),
        m.promotion is Some,
    ensures
        position_hash(ctx_state(s, spec_promotion(ctx2, m, m.promotion->0, h2).0)) == spec_promotion(
            ctx2,
            m,
            m.promotion->0,
            h2,
        ).1,
        ctx_fits(s, spec_promotion(ctx2, m, m.promotion->0, h2).0),
{
    let c = s.turn;
    let f = s.pieces(c);
    let (from, to) = (m.from.index(), m.to.index());
    let f2 = ctx2.friendly_pieces;
    assert(k == Piece::Pawn);
    assert forall|q: Piece| #[trigger] f2.has_piece(q, to) implies q == Piece::Pawn by {
        lemma_moved_has(f, k, from, to, q, to);
    }
    lemma_moved_has(f, k, from, to, k, to);
    lemma_hash_phase_promotion(s, ctx2, m, m.promotion->0, h2);
}

proof fn lemma_three_castle(s: BoardState, m: Move, k: Piece, ctx2: MoveContext, h2: u64)
    requires
        phase_three_ready(s, m, k, ctx2, h2),
        is_castle_move(k, m),
    ensures
        position_hash(ctx_state(s, spec_castle(ctx2, m, h2).0)) == spec_castle(ctx2, m, h2).1,
        ctx_fits(s, spec_castle(ctx2, m, h2).0),
{
    let c = s.turn;
    let f = s.pieces(c);
    let (from, to) = (m.from.index(), m.to.index());
    let f2 = ctx2.friendly_pieces;
    assert(castle_shaped(s, m));
    let home = king_home(c);
    assert(s.rights(c).can_left() || s.rights(c).can_right());
    assert(f.king != 0) by {
        if f.king == 0 {
            crate::bits::lemma_is_set_zero(from);
        }
    }
    lemma_lowest_square_bit(home.index());
    crate::board::square::lemma_square_of_index(home.index());
    assert(m.from == home);
    let (current, new) = castle_rook_squares(m, ctx2.piece_row as int);
    assert(current.on_board() && new.on_board() && current.index() != new.index());
    assert(current.index() != from && current.index() != to);
    assert(new.index() != from && new.index() != to);
    assert forall|q: Piece| #[trigger] f2.has_piece(q, current.index()) implies q == Piece::Rook by {
        lemma_moved_has(f, k, from, to, q, current.index());
        assert(s.pieces(c).has_piece(q, current.index()) && s.pieces(c).has_piece(
            Piece::Rook,
            current.index(),
        ));
    }
    lemma_moved_has(f, k, from, to, Piece::Rook, current.index());
    lemma_moved_has(f, k, from, to, Piece::Rook, new.index());
    lemma_hash_phase_castle(s, ctx2, m, h2);
}

proof fn lemma_three_capture(s: BoardState, m: Move, k: Piece, ctx2: MoveContext, h2: u64)
    requires
        phase_three_ready(s, m, k, ctx2, h2),
    ensures
        position_hash(ctx_state(s, spec_capture(ctx2, m, h2).0)) == spec_capture(ctx2, m, h2).1,
        ctx_fits(s, spec_capture(ctx2, m, h2).0),
{
    let c = s.turn;
    let e = s.pieces(opposite(c));
    let to = m.to.index();
    match e.piece_at(to) {
        Some(p) => {
            assert forall|q: Piece| #[trigger] e.has_piece(q, to) implies q == p by {
                assert(s.pieces(opposite(c)).has_piece(q, to) && s.pieces(opposite(c)).has_piece(
                    p,
                    to,
                ));
            }
        },
        None => {},
    }
    lemma_hash_phase_capture(s, ctx2, m, h2);
}

proof fn lemma_hash_phase_three(s: BoardState, m: Move, k: Piece, ctx2: MoveContext, h2: u64)
    requires
        phase_three_ready(s, m, k, ctx2, h2),
    ensures
        ({
            let (ctx3, h3) = if k == Piece::Pawn && is_jump_move(s.turn, m) {
                spec_pawn_jump(ctx2, m, h2)
            } else if k == Piece::Pawn && ctx2.enemy_pieces.en_passant_at(m.to.index()) {
                spec_en_passant(ctx2, m, h2)
            } else if m.promotion is Some {
                spec_promotion(ctx2, m, m.promotion->0, h2)
            } else if is_castle_move(k, m) {
                spec_castle(ctx2, m, h2)
            } else {
                spec_capture(ctx2, m, h2)
            };
            position_hash(ctx_state(s, ctx3)) == h3 && ctx_fits(s, ctx3)
        }),
{
    let c = s.turn;
    if k == Piece::Pawn && is_jump_move(c, m) {
        lemma_moved_has(s.pieces(c), k, m.from.index(), m.to.index(), k, m.to.index());
        lemma_hash_phase_jump(s, ctx2, m, h2);
    } else if k == Piece::Pawn && ctx2.enemy_pieces.en_passant_at(m.to.index()) {
        lemma_three_en_passant(s, m, k, ctx2, h2);
    } else if m.promotion is Some {
        lemma_three_promotion(s, m, k, ctx2, h2);
    } else if is_castle_move(k, m) {
        lemma_three_castle(s, m, k, ctx2, h2);
    } else {
        lemma_three_capture(s, m, k, ctx2, h2);
    }
}

/// The hash that a move keeps up is the Zobrist hash of the position it leads to: in a
/// position reached by play, after any generated move that is not a promotion onto an enemy
/// piece, the hash held equals `position_hash` of the new position.
pub proof fn lemma_hash_after_turn(s: BoardState, m: Move)
    requires
        hash_invariant(s),
        pseudo_moves(s).contains(m),
        !(m.promotion is Some && s.pieces(opposite(s.turn)).occupied_at(m.to.index())),
    ensures
        after_turn(s, m).hash == position_hash(after_turn(s, m)),
{
    let c = s.turn;
    let k = lemma_move_facts(s, m);
    let ctx0 = context_of(s);
    assert(ctx0.friendly_pieces.piece_at(m.from.index()) == Some(k));
    lemma_hash_phase_rights(s, k, m);
    let (ctx1, h1) = spec_update_castle_rights(ctx0, k, m, s.hash);
    lemma_hash_phase_piece_move(s, ctx1, k, m, h1);
    let (ctx2, h2) = spec_piece_move(ctx1, k, m, h1);
    lemma_hash_phase_three(s, m, k, ctx2, h2);
    let (ctx3, h3) = if k == Piece::Pawn && is_jump_move(s.turn, m) {
        spec_pawn_jump(ctx2, m, h2)
    } else if k == Piece::Pawn && ctx2.enemy_pieces.en_passant_at(m.to.index()) {
        spec_en_passant(ctx2, m, h2)
    } else if m.promotion is Some {
        spec_promotion(ctx2, m, m.promotion->0, h2)
    } else if is_castle_move(k, m) {
        spec_castle(ctx2, m, h2)
    } else {
        spec_capture(ctx2, m, h2)
    };
    lemma_hash_phase_clear(s, ctx3, h3);
    let h4 = match ctx3.enemy_pieces.en_passant_square() {
        Some(ep) => h3 ^ en_passant_key(ep.column as int),
        None => h3,
    };
    let ctx4 = MoveContext { enemy_pieces: PieceSet { en_passant: 0, ..ctx3.enemy_pieces }, ..ctx3 };
    let after = after_move(s, m).0;
    assert(after == with_context(s, ctx4, h4));
    lemma_position_hash_ignores_hash(after, ctx_state(s, ctx4));
    lemma_hash_turn(after);
    lemma_position_hash_ignores_hash(after_turn(s, m), BoardState { turn: opposite(after.turn), ..after });
}

// ---------------------------------------------------------------------------------------------
// Play keeps the hash invariant.
// ---------------------------------------------------------------------------------------------

/// After a move of `c`, its pieces `f4` and the other side's `e4` hold only what they held,
/// but on the landing square `a` (and `b` when `use_b`), where only the piece of kind `ka`
/// (`kb`) of `c` stands.
spec fn landed(
    s: BoardState,
    c: Color,
    f4: PieceSet,
    e4: PieceSet,
    a: int,
    ka: Piece,
    b: int,
    kb: Piece,
    use_b: bool,
) -> bool {
    let f = s.pieces(c);
    let e = s.pieces(opposite(c));
    &&& forall|q: Piece, j: int|
        0 <= j < 64 && j != a && !(use_b && j == b) && #[trigger] f4.has_piece(q, j) ==> f.has_piece(q, j)
    &&& forall|q: Piece, j: int|
        0 <= j < 64 && j != a && !(use_b && j == b) && #[trigger] e4.has_piece(q, j) ==> e.has_piece(q, j)
    &&& forall|q: Piece| #[trigger] f4.has_piece(q, a) ==> q == ka
    &&& forall|q: Piece| !#[trigger] e4.has_piece(q, a)
    &&& use_b ==> (forall|q: Piece| #[trigger] f4.has_piece(q, b) ==> q == kb)
    &&& use_b ==> (forall|q: Piece| !#[trigger] e4.has_piece(q, b))
}

proof fn lemma_exclusive_landed(
    s: BoardState,
    t: BoardState,
    c: Color,
    a: int,
    ka: Piece,
    b: int,
    kb: Piece,
    use_b: bool,
)
    requires
        exclusive(s),
        0 <= a < 64,
        0 <= b < 64,
        landed(s, c, t.pieces(c), t.pieces(opposite(c)), a, ka, b, kb, use_b),
    ensures
        exclusive(t),
{
    assert forall|j: int, c1: Color, p1: Piece, c2: Color, p2: Piece|
        0 <= j < 64 && #[trigger] t.pieces(c1).has_piece(p1, j) && #[trigger] t.pieces(c2).has_piece(
            p2,
            j,
        ) implies c1 == c2 && p1 == p2 by {
        if j == a || (use_b && j == b) {
            assert(c1 == c || c1 == opposite(c));
            assert(c2 == c || c2 == opposite(c));
        } else {
            assert(c1 == c || c1 == opposite(c));
            assert(c2 == c || c2 == opposite(c));
            assert(s.pieces(c1).has_piece(p1, j));
            assert(s.pieces(c2).has_piece(p2, j));
        }
    }
}

/// `ps` with its en passant marker cleared.
pub open spec fn cleared(ps: PieceSet) -> PieceSet {
    PieceSet { en_passant: 0, ..ps }
}

proof fn lemma_landed_general(
    s: BoardState,
    m: Move,
    k: Piece,
    ctx2: MoveContext,
    h2: u64,
    f3: PieceSet,
    e3: PieceSet,
    ka: Piece,
    b: int,
    kb: Piece,
    use_b: bool,
)
    requires
        phase_three_ready(s, m, k, ctx2, h2),
        forall|q: Piece, j: int|
            0 <= j < 64 && j != m.to.index() && !(use_b && j == b) && #[trigger] f3.has_piece(q, j)
                ==> ctx2.friendly_pieces.has_piece(q, j),
        forall|q: Piece| #[trigger] f3.has_piece(q, m.to.index()) ==> q == ka,
        use_b ==> forall|q: Piece| #[trigger] f3.has_piece(q, b) ==> q == kb,
        use_b ==> forall|q: Piece| !#[trigger] e3.has_piece(q, b),
        forall|q: Piece, j: int|
            0 <= j < 64 && #[trigger] e3.has_piece(q, j) ==> s.pieces(opposite(s.turn)).has_piece(q, j),
        forall|q: Piece| !#[trigger] e3.has_piece(q, m.to.index()),
    ensures
        landed(s, s.turn, f3, cleared(e3), m.to.index(), ka, b, kb, use_b),
{
    let c = s.turn;
    let f = s.pieces(c);
    let (from, to) = (m.from.index(), m.to.index());
    assert forall|q: Piece, j: int|
        0 <= j < 64 && j != to && !(use_b && j == b) && #[trigger] f3.has_piece(q, j) implies f.has_piece(q, j) by {
        lemma_moved_has(f, k, from, to, q, j);
    }
    assert forall|q: Piece, j: int| #[trigger] cleared(e3).has_piece(q, j) == e3.has_piece(q, j) by {
    }
}

proof fn lemma_invariant_jump(s: BoardState, m: Move, k: Piece, ctx2: MoveContext, h2: u64)
    requires
        phase_three_ready(s, m, k, ctx2, h2),
        k == Piece::Pawn && is_jump_move(s.turn, m),
    ensures
        ({
            let ctx3 = spec_pawn_jump(ctx2, m, h2).0;
            let x = sq(ctx2.pawn_row + ctx2.pawn_direction, m.from.column as int);
            &&& landed(s, s.turn, ctx3.friendly_pieces, cleared(ctx3.enemy_pieces), m.to.index(), k, 0, k, false)
            &&& ctx3.friendly_pieces.en_passant == crate::bits::bit(x.index())
            &&& x.on_board()
            &&& x.index() != m.to.index()
            &&& !s.occupied(x)
            &&& ctx3.friendly_pieces.has_piece(Piece::Pawn, m.to.index())
            &&& en_passant_victim(opposite(s.turn), x) == m.to
        }),
{
    let c = s.turn;
    let f = s.pieces(c);
    let (from, to) = (m.from.index(), m.to.index());
    let ctx3 = spec_pawn_jump(ctx2, m, h2).0;
    lemma_moved_has(f, k, from, to, k, to);
    assert forall|q: Piece, j: int| 0 <= j < 64 implies #[trigger] ctx3.friendly_pieces.has_piece(q, j)
        == ctx2.friendly_pieces.has_piece(q, j) by {
    }
    assert forall|q: Piece| #[trigger] ctx3.friendly_pieces.has_piece(q, to) implies q == k by {
        lemma_moved_has(f, k, from, to, q, to);
    }
    lemma_landed_general(s, m, k, ctx2, h2, ctx3.friendly_pieces, ctx3.enemy_pieces, k, 0, k, false);
}

proof fn lemma_invariant_en_passant(s: BoardState, m: Move, k: Piece, ctx2: MoveContext, h2: u64)
    requires
        phase_three_ready(s, m, k, ctx2, h2),
        ctx2.enemy_pieces.en_passant_at(m.to.index()),
    ensures
        ({
            let ctx3 = spec_en_passant(ctx2, m, h2).0;
            &&& landed(s, s.turn, ctx3.friendly_pieces, cleared(ctx3.enemy_pieces), m.to.index(), k, 0, k, false)
            &&& ctx3.friendly_pieces.en_passant == 0
        }),
{
    let c = s.turn;
    let e = s.pieces(opposite(c));
    let to = m.to.index();
    let ep = e.en_passant;
    let x = lowest_square(ep);
    vstd::std_specs::bits::axiom_u64_trailing_zeros(ep);
    let t = vstd::std_specs::bits::u64_trailing_zeros(ep) as int;
    crate::board::square::lemma_square_of_index(t);
    assert(x == crate::board::square::square_of_index(t));
    crate::bits::lemma_bit_facts(to, x.index());
    assert(m.to == x);
    let v = en_passant_victim(c, m.to);
    assert(0 <= v.index() < 64) by {
        lemma_en_passant_row(e, if c == Color::White { 5 } else { 2 }, m.to);
    }
    let ctx3 = spec_en_passant(ctx2, m, h2).0;
    assert forall|q: Piece, j: int| 0 <= j < 64 implies #[trigger] ctx3.enemy_pieces.has_piece(q, j)
        == (e.has_piece(q, j) && j != v.index()) by {
        lemma_removed_has(e, v.index(), q, j);
    }
    lemma_moved_has(s.pieces(c), k, m.from.index(), to, k, to);
    assert forall|q: Piece| #[trigger] ctx3.friendly_pieces.has_piece(q, to) implies q == k by {
        lemma_moved_has(s.pieces(c), k, m.from.index(), to, q, to);
    }
    lemma_landed_general(s, m, k, ctx2, h2, ctx3.friendly_pieces, ctx3.enemy_pieces, k, 0, k, false);
}

proof fn lemma_invariant_promotion(s: BoardState, m: Move, k: Piece, ctx2: MoveContext, h2: u64)
    requires
        phase_three_ready(s, m, k, ctx2, h2),
        m.promotion is Some,
    ensures
        ({
            let ctx3 = spec_promotion(ctx2, m, m.promotion->0, h2).0;
            &&& landed(s, s.turn, ctx3.friendly_pieces, cleared(ctx3.enemy_pieces), m.to.index(), m.promotion->0, 0, k, false)
            &&& ctx3.friendly_pieces.en_passant == 0
        }),
{
    let c = s.turn;
    let f = s.pieces(c);
    let e = s.pieces(opposite(c));
    let (from, to) = (m.from.index(), m.to.index());
    let p = m.promotion->0;
    let f2 = ctx2.friendly_pieces;
    let ctx3 = spec_promotion(ctx2, m, p, h2).0;
    assert forall|q: Piece, j: int| 0 <= j < 64 implies #[trigger] ctx3.friendly_pieces.has_piece(q, j)
        == (if j == to { q == p } else { f2.has_piece(q, j) }) by {
        lemma_removed_has(f2, to, q, j);
        lemma_added_has(f2.removed(to), to, p, q, j);
    }
    assert forall|q: Piece, j: int| 0 <= j < 64 implies #[trigger] ctx3.enemy_pieces.has_piece(q, j)
        == (e.has_piece(q, j) && j != to) by {
        lemma_removed_has(e, to, q, j);
    }
    lemma_moved_has(f, k, from, to, k, to);
    lemma_landed_general(s, m, k, ctx2, h2, ctx3.friendly_pieces, ctx3.enemy_pieces, p, 0, k, false);
}

proof fn lemma_invariant_castle(s: BoardState, m: Move, k: Piece, ctx2: MoveContext, h2: u64)
    requires
        phase_three_ready(s, m, k, ctx2, h2),
        is_castle_move(k, m),
    ensures
        ({
            let ctx3 = spec_castle(ctx2, m, h2).0;
            let new = castle_rook_squares(m, ctx2.piece_row as int).1;
            &&& landed(s, s.turn, ctx3.friendly_pieces, cleared(ctx3.enemy_pieces), m.to.index(), k, new.index(), Piece::Rook, true)
            &&& 0 <= new.index() < 64
            &&& ctx3.friendly_pieces.en_passant == 0
        }),
{
    let c = s.turn;
    let f = s.pieces(c);
    let (from, to) = (m.from.index(), m.to.index());
    let f2 = ctx2.friendly_pieces;
    assert(castle_shaped(s, m));
    let home = king_home(c);
    assert(f.king != 0) by {
        if f.king == 0 {
            crate::bits::lemma_is_set_zero(from);
        }
    }
    lemma_lowest_square_bit(home.index());
    crate::board::square::lemma_square_of_index(home.index());
    assert(m.from == home);
    let (current, new) = castle_rook_squares(m, ctx2.piece_row as int);
    let (ci, ni) = (current.index(), new.index());
    assert(current.on_board() && new.on_board() && ci != ni);
    assert(ci != from && ci != to && ni != from && ni != to);
    assert(!s.occupied(new) && !s.occupied(m.to));
    let ctx3 = spec_castle(ctx2, m, h2).0;
    assert forall|q: Piece, j: int| 0 <= j < 64 implies #[trigger] ctx3.friendly_pieces.has_piece(q, j)
        == (if j == ci { false } else if j == ni { f2.has_piece(q, j) || q == Piece::Rook } else {
        f2.has_piece(q, j) }) by {
        lemma_added_has(f2, ni, Piece::Rook, q, j);
        lemma_removed_has(f2.added(ni, Piece::Rook), ci, q, j);
    }
    assert forall|q: Piece| #[trigger] f2.has_piece(q, ni) == f.has_piece(q, ni) by {
        lemma_moved_has(f, k, from, to, q, ni);
    }
    assert forall|q: Piece| #[trigger] ctx3.friendly_pieces.has_piece(q, to) == f2.has_piece(q, to) by {
        lemma_added_has(f2, ni, Piece::Rook, q, to);
        lemma_removed_has(f2.added(ni, Piece::Rook), ci, q, to);
    }
    assert forall|q: Piece| #[trigger] f2.has_piece(q, to) implies q == k by {
        lemma_moved_has(f, k, from, to, q, to);
    }
    lemma_landed_general(s, m, k, ctx2, h2, ctx3.friendly_pieces, ctx3.enemy_pieces, k, ni, Piece::Rook, true);
}

proof fn lemma_invariant_capture(s: BoardState, m: Move, k: Piece, ctx2: MoveContext, h2: u64)
    requires
        phase_three_ready(s, m, k, ctx2, h2),
    ensures
        ({
            let ctx3 = spec_capture(ctx2, m, h2).0;
            &&& landed(s, s.turn, ctx3.friendly_pieces, cleared(ctx3.enemy_pieces), m.to.index(), k, 0, k, false)
            &&& ctx3.friendly_pieces.en_passant == 0
        }),
{
    let c = s.turn;
    let f = s.pieces(c);
    let e = s.pieces(opposite(c));
    let (from, to) = (m.from.index(), m.to.index());
    let ctx3 = spec_capture(ctx2, m, h2).0;
    assert forall|q: Piece, j: int| 0 <= j < 64 && #[trigger] ctx3.enemy_pieces.has_piece(q, j)
        implies e.has_piece(q, j) && j != to by {
        lemma_removed_has(e, to, q, j);
    }
    lemma_moved_has(f, k, from, to, k, to);
    assert forall|q: Piece| #[trigger] ctx3.friendly_pieces.has_piece(q, to) implies q == k by {
        lemma_moved_has(f, k, from, to, q, to);
    }
    lemma_landed_general(s, m, k, ctx2, h2, ctx3.friendly_pieces, ctx3.enemy_pieces, k, 0, k, false);
}

/// Play keeps the hash invariant: after any generated move of a position that satisfies it,
/// other than a promotion onto an enemy piece, the new position satisfies it too (so its hash
/// is again the Zobrist hash of the position).
pub proof fn lemma_hash_invariant_after_turn(s: BoardState, m: Move)
    requires
        hash_invariant(s),
        pseudo_moves(s).contains(m),
        !(m.promotion is Some && s.pieces(opposite(s.turn)).occupied_at(m.to.index())),
    ensures
        hash_invariant(after_turn(s, m)),
{
    let c = s.turn;
    lemma_hash_after_turn(s, m);
    lemma_consistent_after_turn(s, m);
    let k = lemma_move_facts(s, m);
    let ctx0 = context_of(s);
    lemma_hash_phase_rights(s, k, m);
    let (ctx1, h1) = spec_update_castle_rights(ctx0, k, m, s.hash);
    lemma_hash_phase_piece_move(s, ctx1, k, m, h1);
    let (ctx2, h2) = spec_piece_move(ctx1, k, m, h1);
    assert(phase_three_ready(s, m, k, ctx2, h2));
    let to = m.to.index();
    let t = after_turn(s, m);
    if k == Piece::Pawn && is_jump_move(c, m) {
        lemma_invariant_jump(s, m, k, ctx2, h2);
        let ctx3 = spec_pawn_jump(ctx2, m, h2).0;
        assert(t.pieces(c) == ctx3.friendly_pieces);
        assert(t.pieces(opposite(c)) == cleared(ctx3.enemy_pieces));
        lemma_exclusive_landed(s, t, c, to, k, 0, k, false);
        let x = sq(ctx2.pawn_row + ctx2.pawn_direction, m.from.column as int);
        crate::board::square::lemma_square_of_index(x.index());
        lemma_lowest_square_bit(x.index());
        assert(crate::board::square::square_of_index(x.index()) == x);
        assert forall|q: Piece| !#[trigger] t.pieces(c).has_piece(q, x.index()) by {
            if t.pieces(c).has_piece(q, x.index()) {
                assert(s.pieces(c).has_piece(q, x.index()));
            }
        }
        assert forall|q: Piece| !#[trigger] t.pieces(opposite(c)).has_piece(q, x.index()) by {
            if t.pieces(opposite(c)).has_piece(q, x.index()) {
                assert(s.pieces(opposite(c)).has_piece(q, x.index()));
            }
        }
        assert(opposite(t.turn) == c);
        assert(!t.occupied(x));
    } else if k == Piece::Pawn && ctx2.enemy_pieces.en_passant_at(to) {
        lemma_invariant_en_passant(s, m, k, ctx2, h2);
        let ctx3 = spec_en_passant(ctx2, m, h2).0;
        assert(t.pieces(c) == ctx3.friendly_pieces);
        assert(t.pieces(opposite(c)) == cleared(ctx3.enemy_pieces));
        lemma_exclusive_landed(s, t, c, to, k, 0, k, false);
    } else if m.promotion is Some {
        lemma_invariant_promotion(s, m, k, ctx2, h2);
        let ctx3 = spec_promotion(ctx2, m, m.promotion->0, h2).0;
        assert(t.pieces(c) == ctx3.friendly_pieces);
        assert(t.pieces(opposite(c)) == cleared(ctx3.enemy_pieces));
        lemma_exclusive_landed(s, t, c, to, m.promotion->0, 0, k, false);
    } else if is_castle_move(k, m) {
        lemma_invariant_castle(s, m, k, ctx2, h2);
        let ctx3 = spec_castle(ctx2, m, h2).0;
        let new = castle_rook_squares(m, ctx2.piece_row as int).1;
        assert(t.pieces(c) == ctx3.friendly_pieces);
        assert(t.pieces(opposite(c)) == cleared(ctx3.enemy_pieces));
        lemma_exclusive_landed(s, t, c, to, k, new.index(), Piece::Rook, true);
    } else {
        lemma_invariant_capture(s, m, k, ctx2, h2);
        let ctx3 = spec_capture(ctx2, m, h2).0;
        assert(t.pieces(c) == ctx3.friendly_pieces);
        assert(t.pieces(opposite(c)) == cleared(ctx3.enemy_pieces));
        lemma_exclusive_landed(s, t, c, to, k, 0, k, false);
    }
}

/// Of the bitboards of the starting position, at most one has square `j`.
proof fn lemma_initial_squares(j: int)
    requires
        0 <= j < 64,
    ensures
        ({
            let w = initial_piece_set(Color::White);
            let b = initial_piece_set(Color::Black);
            (if is_set(w.pawns, j) { 1int } else { 0 }) + (if is_set(w.rooks, j) { 1int } else { 0 })
                + (if is_set(w.knights, j) { 1int } else { 0 }) + (if is_set(w.bishops, j) { 1int } else { 0 })
                + (if is_set(w.queens, j) { 1int } else { 0 }) + (if is_set(w.king, j) { 1int } else { 0 })
                + (if is_set(b.pawns, j) { 1int } else { 0 }) + (if is_set(b.rooks, j) { 1int } else { 0 })
                + (if is_set(b.knights, j) { 1int } else { 0 }) + (if is_set(b.bishops, j) { 1int } else { 0 })
                + (if is_set(b.queens, j) { 1int } else { 0 }) + (if is_set(b.king, j) { 1int } else { 0 }) <= 1
        }),
{
    let x = j as u64;
    assert(x < 64 ==> ((0xff00u64 >> x) & 1u64) + ((0x81u64 >> x) & 1u64) + ((0x42u64 >> x) & 1u64)
        + ((0x24u64 >> x) & 1u64) + ((0x08u64 >> x) & 1u64) + ((0x10u64 >> x) & 1u64) + ((
    0x00ff_0000_0000_0000u64 >> x) & 1u64) + ((0x8100_0000_0000_0000u64 >> x) & 1u64) + ((
    0x4200_0000_0000_0000u64 >> x) & 1u64) + ((0x2400_0000_0000_0000u64 >> x) & 1u64) + ((
    0x0800_0000_0000_0000u64 >> x) & 1u64) + ((0x1000_0000_0000_0000u64 >> x) & 1u64) <= 1 && (
    0xff00u64 >> x) & 1u64 <= 1 && (0x81u64 >> x) & 1u64 <= 1 && (0x42u64 >> x) & 1u64 <= 1 && (
    0x24u64 >> x) & 1u64 <= 1 && (0x08u64 >> x) & 1u64 <= 1 && (0x10u64 >> x) & 1u64 <= 1 && (
    0x00ff_0000_0000_0000u64 >> x) & 1u64 <= 1 && (0x8100_0000_0000_0000u64 >> x) & 1u64 <= 1 && (
    0x4200_0000_0000_0000u64 >> x) & 1u64 <= 1 && (0x2400_0000_0000_0000u64 >> x) & 1u64 <= 1 && (
    0x0800_0000_0000_0000u64 >> x) & 1u64 <= 1 && (0x1000_0000_0000_0000u64 >> x) & 1u64 <= 1)
        by (bit_vector);
}

/// The starting position satisfies the hash invariant.
pub proof fn lemma_initial_hash_invariant()
    ensures
        hash_invariant(initial_state()),
{
    let s = initial_state();
    lemma_initial_state_consistent();
    assert forall|j: int, c1: Color, p1: Piece, c2: Color, p2: Piece|
        0 <= j < 64 && #[trigger] s.pieces(c1).has_piece(p1, j) && #[trigger] s.pieces(c2).has_piece(
            p2,
            j,
        ) implies c1 == c2 && p1 == p2 by {
        lemma_initial_squares(j);
    }
}

/// Castle rights are never regained: after any move, each side may castle only where it
/// could before.
pub proof fn lemma_rights_only_shrink(s: BoardState, m: Move)
    ensures
        rights_shrink(s.white_castle, after_turn(s, m).white_castle),
        rights_shrink(s.black_castle, after_turn(s, m).black_castle),
{
    let c = s.turn;
    let ctx0 = context_of(s);
    match ctx0.friendly_pieces.piece_at(m.from.index()) {
        None => {},
        Some(piece) => {
            let (ctx1, h1) = spec_update_castle_rights(ctx0, piece, m, s.hash);
            let (ctx2, h2) = spec_piece_move(ctx1, piece, m, h1);
            assert(rights_shrink(ctx0.castle_rights, ctx2.castle_rights));
            assert(ctx2.enemy_castle_rights == ctx0.enemy_castle_rights);
            match ctx2.enemy_pieces.piece_at(m.to.index()) {
                Some(captured) => {
                    lemma_rook_left_shrinks(ctx2.enemy_castle_rights, m.to, ctx2.enemy_piece_row as int);
                },
                None => {},
            }
        },
    }
}

// ---------------------------------------------------------------------------------------------
// The board as text.
// ---------------------------------------------------------------------------------------------

/// The piece on `t`, with its color: white's are looked at first.
pub open spec fn occupant(s: BoardState, t: Square) -> Option<(Color, Piece)> {
    match s.white.piece_at(t.index()) {
        Some(p) => Some((Color::White, p)),
        None => match s.black.piece_at(t.index()) {
            Some(p) => Some((Color::Black, p)),
            None => None,
        },
    }
}

/// The colored text of the square in `row` and `column`: the symbol of its piece and a
/// space, or two spaces, on a light square where row and column differ in parity.
pub open spec fn square_text(s: BoardState, row: int, column: int) -> Seq<char> {
    let (content, foreground) = match occupant(s, sq(row, column)) {
        Some((c, p)) => (crate::board::piece::glyph(p) + seq![' '], c),
        None => (seq![' ', ' '], Color::Black),
    };
    let background = if row % 2 + column % 2 == 1 {
        Color::White
    } else {
        Color::Black
    };
    crate::tui::terminal::background_code(background) + crate::tui::terminal::foreground_code(
        foreground,
    ) + content + crate::tui::terminal::END_COLOR@
}

/// The row drawn `d`-th from the top: rank 8 first with White at the bottom, rank 1 first
/// with Black at the bottom.
pub open spec fn drawn_row(d: int, white_on_bottom: bool) -> int {
    if white_on_bottom {
        7 - d
    } else {
        d
    }
}

/// The column drawn `j`-th from the left: file a first with White at the bottom, file h first
/// with Black at the bottom.
pub open spec fn drawn_column(j: int, white_on_bottom: bool) -> int {
    if white_on_bottom {
        j
    } else {
        7 - j
    }
}

/// The first `n` squares of `row` as drawn from the left.
pub open spec fn row_squares_text(s: BoardState, row: int, n: nat, white_on_bottom: bool) -> Seq<char>
    decreases n,
{
    if n == 0 {
        seq![]
    } else {
        row_squares_text(s, row, (n - 1) as nat, white_on_bottom) + square_text(
            s,
            row,
            drawn_column(n - 1, white_on_bottom),
        )
    }
}

/// A row of the board: its rank digit, a space, its squares and a line end.
pub open spec fn row_text(s: BoardState, row: int, white_on_bottom: bool) -> Seq<char> {
    seq![(49 + row) as char, ' '] + row_squares_text(s, row, 8, white_on_bottom) + seq!['\n']
}

/// The `k` rows drawn first, from the top.
pub open spec fn rows_text(s: BoardState, k: nat, white_on_bottom: bool) -> Seq<char>
    decreases k,
{
    if k == 0 {
        seq![]
    } else {
        rows_text(s, (k - 1) as nat, white_on_bottom) + row_text(
            s,
            drawn_row(k - 1, white_on_bottom),
            white_on_bottom,
        )
    }
}

/// The file letters under the board, in the order the columns are drawn.
pub open spec fn letters_text(white_on_bottom: bool) -> Seq<char> {
    if white_on_bottom {
        seq![' ', ' ', 'a', ' ', 'b', ' ', 'c', ' ', 'd', ' ', 'e', ' ', 'f', ' ', 'g', ' ', 'h', ' ', '\n']
    } else {
        seq![' ', ' ', 'h', ' ', 'g', ' ', 'f', ' ', 'e', ' ', 'd', ' ', 'c', ' ', 'b', ' ', 'a', ' ', '\n']
    }
}

/// The board as text with White at the bottom (rank 8 on top, file a on the left) or Black
/// at the bottom (rank 1 on top, file h on the left), then the file letters.
pub open spec fn board_text_oriented(s: BoardState, white_on_bottom: bool) -> Seq<char> {
    rows_text(s, 8, white_on_bottom) + letters_text(white_on_bottom)
}

/// The board as text: rank 8 at the top, then the file letters.
pub open spec fn board_text(s: BoardState) -> Seq<char> {
    board_text_oriented(s, true)
}

impl Board {
    fn square_string(&self, row: i8, column: i8) -> (t: String)
        requires
            0 <= row <= 7,
            0 <= column <= 7,
        ensures
            t@ == square_text(self@, row as int, column as int),
    {
        let current_square = Square::new(row, column);
        let (square, foreground_color) = if let Some(p) = self.white_pieces.get(current_square) {
            let mut t = p.to_string();
            crate::text::push_char(&mut t, ' ');
            (t, Color::White)
        } else if let Some(p) = self.black_pieces.get(current_square) {
            let mut t = p.to_string();
            crate::text::push_char(&mut t, ' ');
            (t, Color::Black)
        } else {
            let mut t = String::new();
            crate::text::push_char(&mut t, ' ');
            crate::text::push_char(&mut t, ' ');
            (t, Color::Black)
        };
        if (row % 2) + (column % 2) == 1 {
            crate::tui::terminal::color_square(square.as_str(), Color::White, foreground_color)
        } else {
            crate::tui::terminal::color_square(square.as_str(), Color::Black, foreground_color)
        }
    }

    /// The board drawn in the terminal: rank 8 at the top, the squares in alternating colors,
    /// then the file letters.
    pub fn to_string(&self) -> (text: String)
        ensures
            text@ == board_text(self@),
    {
        self.to_string_oriented(true)
    }

    /// The board drawn in the terminal with White at the bottom, or turned round with Black
    /// at the bottom; the squares in alternating colors, then the file letters.
    pub fn to_string_oriented(&self, white_on_bottom: bool) -> (text: String)
        ensures
            text@ == board_text_oriented(self@, white_on_bottom),
    {
        let mut ascii = String::new();
        let mut done: usize = 0;
        while done < 8
            invariant
                done <= 8,
                ascii@ == rows_text(self@, done as nat, white_on_bottom),
            decreases 8 - done,
        {
            let row: i8 = if white_on_bottom {
                7 - done as i8
            } else {
                done as i8
            };
            let ghost before = ascii@;
            crate::text::push_char(&mut ascii, ((49 + row) as u8) as char);
            crate::text::push_char(&mut ascii, ' ');
            let mut k: i8 = 0;
            while k < 8
                invariant
                    0 <= row <= 7,
                    row == drawn_row(done as int, white_on_bottom),
                    0 <= k <= 8,
                    ascii@ == before + seq![(49 + row) as char, ' '] + row_squares_text(
                        self@,
                        row as int,
                        k as nat,
                        white_on_bottom,
                    ),
                decreases 8 - k,
            {
                let column: i8 = if white_on_bottom {
                    k
                } else {
                    7 - k
                };
                let square = self.square_string(row, column);
                ascii.append(square.as_str());
                k = k + 1;
            }
            crate::text::push_char(&mut ascii, '\n');
            assert(ascii@ =~= rows_text(self@, (done + 1) as nat, white_on_bottom));
            done = done + 1;
        }
        crate::text::push_char(&mut ascii, ' ');
        crate::text::push_char(&mut ascii, ' ');
        let letters: [char; 8] = ['a', 'b', 'c', 'd', 'e', 'f', 'g', 'h'];
        let mut k: usize = 0;
        while k < 8
            invariant
                k <= 8,
                letters@ == seq!['a', 'b', 'c', 'd', 'e', 'f', 'g', 'h'],
                ascii@ == rows_text(self@, 8, white_on_bottom) + seq![' ', ' '] + Seq::new(
                    2 * k as nat,
                    |i: int|
                        if i % 2 == 0 {
                            letters@[drawn_column(i / 2, white_on_bottom)]
                        } else {
                            ' '
                        },
                ),
            decreases 8 - k,
        {
            let j: usize = if white_on_bottom {
                k
            } else {
                7 - k
            };
            crate::text::push_char(&mut ascii, letters[j]);
            crate::text::push_char(&mut ascii, ' ');
            assert(ascii@ =~= rows_text(self@, 8, white_on_bottom) + seq![' ', ' '] + Seq::new(
                2 * (k + 1) as nat,
                |i: int|
                    if i % 2 == 0 {
                        letters@[drawn_column(i / 2, white_on_bottom)]
                    } else {
                        ' '
                    },
            ));
            k = k + 1;
        }
        crate::text::push_char(&mut ascii, '\n');
        assert(ascii@ =~= board_text_oriented(self@, white_on_bottom));
        ascii
    }
}

impl Board {
    /// Whether the position is consistent: each en passant marker is absent or one square of
    /// the row behind a double step, and a side that may still castle has no king or its king
    /// on its starting square.
    pub fn is_consistent(&self) -> (b: bool)
        ensures
            b == consistent(self@),
    {
        Self::en_passant_fits(&self.white_pieces, 2) && Self::en_passant_fits(&self.black_pieces, 5)
            && Self::king_fits(&self.white_pieces, &self.white_castle_rights, 0)
            && Self::king_fits(&self.black_pieces, &self.black_castle_rights, 7)
    }

    fn en_passant_fits(ps: &PieceSet, row: i8) -> (b: bool)
        ensures
            b == en_passant_ok(*ps, row as int),
    {
        match ps.find_en_passant() {
            None => true,
            Some(square) => {
                proof {
                    vstd::std_specs::bits::axiom_u64_trailing_zeros(ps.en_passant);
                    let t = vstd::std_specs::bits::u64_trailing_zeros(ps.en_passant) as int;
                    crate::board::square::lemma_square_of_index(t);
                    assert(square == crate::board::square::square_of_index(t));
                }
                square.row() == row && square.to_bitmap() == ps.en_passant
            },
        }
    }

    fn king_fits(ps: &PieceSet, rights: &CastleRights, row: i8) -> (b: bool)
        requires
            row == 0 || row == 7,
        ensures
            b == ((rights.can_left() || rights.can_right()) ==> (ps.king == 0 || ps.king
                == crate::bits::bit(sq(row as int, 4).index()))),
    {
        !(rights.left() || rights.right()) || ps.king == 0 || ps.king == Square::new(row, 4).to_bitmap()
    }
}

/// Whether the square of `row` and `column` can index a bitboard.
fn indexable(row: i16, column: i16) -> (b: bool)
    requires
        -128 <= row <= 127,
        -128 <= column <= 127,
    ensures
        b == sq(row as int, column as int).bitmap_ok(),
{
    let index = column + row * 8;
    -16 <= row && row <= 15 && 0 <= index && index < 64
}

impl Board {
    fn castle_defined(&self, color: Color, direction: i8) -> (b: bool)
        requires
            direction == -1 || direction == 1,
            self@.pieces(color).king != 0,
        ensures
            b == castle_check_defined(self@, color, direction as int),
    {
        let king = self.pieces_of(color).find_king();
        proof {
            vstd::std_specs::bits::axiom_u64_trailing_zeros(self@.pieces(color).king);
        }
        if self.is_square_attacked(king) {
            return true;
        }
        let (row, column, d) = (king.row() as i16, king.column() as i16, direction as i16);
        if !indexable(row, column + d) {
            return false;
        }
        let one = Square::new(king.row(), king.column() + direction);
        if self.white_pieces.is_occupied(one) || self.black_pieces.is_occupied(one)
            || self.is_square_attacked(one) {
            return true;
        }
        if !indexable(row, column + 2 * d) {
            return false;
        }
        let two = Square::new(king.row(), king.column() + 2 * direction);
        if self.white_pieces.is_occupied(two) || self.black_pieces.is_occupied(two)
            || self.is_square_attacked(two) {
            return true;
        }
        if direction == -1 {
            if !indexable(row, column - 3) {
                return false;
            }
            let three = Square::new(king.row(), king.column() - 3);
            if self.white_pieces.is_occupied(three) || self.black_pieces.is_occupied(three) {
                return true;
            }
            indexable(row, 0)
        } else {
            indexable(row, 7)
        }
    }

    fn move_defined(&self, m: Move) -> (b: bool)
        ensures
            b == make_move_defined(self@, m),
    {
        let (fr, fc) = (m.from().row() as i16, m.from().column() as i16);
        let (tr, tc) = (m.to().row() as i16, m.to().column() as i16);
        if !indexable(fr, fc) {
            return false;
        }
        let c = self.turn;
        let Some(piece) = self.pieces_of(c).get(m.from()) else {
            return true;
        };
        if !indexable(tr, tc) {
            return false;
        }
        let pawn_row: i16 = match c {
            Color::White => 1,
            Color::Black => 6,
        };
        let jump = fr == pawn_row && (tr - pawn_row == 2 || tr - pawn_row == -2);
        if piece == Piece::Pawn && jump {
            0 <= fc && fc <= 7
        } else if piece == Piece::Pawn && self.pieces_of(c.not()).is_en_passant(m.to()) {
            match c {
                Color::White => indexable(tr - 1, tc),
                Color::Black => indexable(tr + 1, tc),
            }
        } else if m.promotion().is_some() {
            true
        } else if piece == Piece::King && (tc - fc == 2 || tc - fc == -2) {
            let row: i16 = match c {
                Color::White => 0,
                Color::Black => 7,
            };
            if tc > fc {
                indexable(row, tc - 1)
            } else {
                indexable(row, tc + 1)
            }
        } else {
            true
        }
    }

    /// Whether every move that generation yields in this position can be played: the checks
    /// of castling and the squares that playing each generated move touches can be indexed.
    pub fn moves_defined_check(&mut self) -> (b: bool)
        ensures
            final(self)@ == old(self)@,
            final(self).wf() == old(self).wf(),
            b == moves_defined(old(self)@),
    {
        let ghost s = self@;
        let c = self.turn;
        let rights = match c {
            Color::White => self.white_castle_rights,
            Color::Black => self.black_castle_rights,
        };
        if self.pieces_of(c).king != 0 {
            if rights.left() && !self.castle_defined(c, -1) {
                return false;
            }
            if rights.right() && !self.castle_defined(c, 1) {
                return false;
            }
        }
        assert(generation_defined(s));
        let generated = self.find_current_possible_moves();
        let mut moves: Vec<Move> = Vec::new();
        let mut i: usize = 0;
        while i < generated.len()
            invariant
                i <= generated@.len(),
                moves@ == generated@.take(i as int),
            decreases generated@.len() - i,
        {
            moves.push(generated[i]);
            assert(generated@.take((i + 1) as int) =~= generated@.take(i as int).push(generated@[i as int]));
            i = i + 1;
        }
        assert(generated@.take(generated@.len() as int) =~= generated@);
        let mut k: usize = 0;
        while k < moves.len()
            invariant
                k <= moves@.len(),
                moves@ == pseudo_moves(s),
                self@ == s,
                s == old(self)@,
                self.wf() == old(self).wf(),
                forall|j: int| 0 <= j < k ==> make_move_defined(s, #[trigger] pseudo_moves(s)[j]),
            decreases moves@.len() - k,
        {
            if !self.move_defined(moves[k]) {
                return false;
            }
            k = k + 1;
        }
        true
    }
}

} // verus!
