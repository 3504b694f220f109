use vstd::prelude::*;
use crate::board::board::{
    Board, BoardState, after_move, after_turn, consistent, fen_outcome, hash_invariant, in_check,
    initial_state,
    lemma_consistent_after_turn, lemma_consistent_moves_defined, moves_defined, promotion_row,
    pseudo_moves,
};
use crate::board::movement::{Move, MoveResult};
use crate::board::piece::{Color, Piece, PIECE_TYPES, opposite, piece_types, piece_value, table_index};
use crate::board::square::{Square, squares_of};
use core::ops::Not;

verus! {

/// The moves of `moves`, in order, after which the side that played is not in check.
pub open spec fn keep_legal(s: BoardState, moves: Seq<Move>) -> Seq<Move>
    decreases moves.len(),
{
    if moves.len() == 0 {
        seq![]
    } else {
        let m = moves.last();
        keep_legal(s, moves.drop_last()) + if !in_check(after_move(s, m).0) {
            seq![m]
        } else {
            seq![]
        }
    }
}

/// The legal moves of the side to move: the generated moves that do not leave its king
/// attacked, in the order of generation.
pub open spec fn legal_moves(s: BoardState) -> Seq<Move> {
    keep_legal(s, pseudo_moves(s))
}

/// Each side has a queen or a rook, knight or bishop.
pub open spec fn is_endgame_state(s: BoardState) -> bool {
    let white_endgame = !(s.white.queens == 0) || !(s.white.rooks | s.white.knights
        | s.white.bishops == 0);
    let black_endgame = !(s.black.queens == 0) || !(s.black.rooks | s.black.knights
        | s.black.bishops == 0);
    white_endgame && black_endgame
}

/// The summed values of a `piece` of `color` on each of `squares`.
pub open spec fn squares_value(squares: Seq<Square>, piece: Piece, color: Color, endgame: bool) -> int
    decreases squares.len(),
{
    if squares.len() == 0 {
        0
    } else {
        squares_value(squares.drop_last(), piece, color, endgame) + piece_value(
            piece,
            table_index(squares.last().index(), color),
            endgame,
        )
    }
}

/// The value of the pieces of the side to move minus that of the other side, over the first
/// `n` piece kinds.
pub open spec fn material(s: BoardState, n: nat, endgame: bool) -> int
    decreases n,
{
    if n == 0 {
        0
    } else {
        let p = piece_types()[n - 1];
        let us = s.turn;
        let them = opposite(s.turn);
        material(s, (n - 1) as nat, endgame) + squares_value(
            squares_of(s.pieces(us).bb(p)),
            p,
            us,
            endgame,
        ) - squares_value(squares_of(s.pieces(them).bb(p)), p, them, endgame)
    }
}

/// The static evaluation of a position, from the side to move.
pub open spec fn evaluation(s: BoardState) -> int {
    material(s, 6, is_endgame_state(s))
}

/// `m` may be played: it starts on a piece of the side to move, it names a promotion exactly
/// when a pawn reaches the last row, and it is among the legal moves.
pub open spec fn legal(s: BoardState, m: Move) -> bool {
    match s.pieces(s.turn).piece_at(m.from.index()) {
        None => false,
        Some(piece) => {
            &&& m.promotion is None ==> !(piece == Piece::Pawn && m.to.row == promotion_row(s.turn))
            &&& m.promotion is Some ==> piece == Piece::Pawn
            &&& legal_moves(s).contains(m)
        },
    }
}

/// Playing `m` in a position: a legal move is made and the turn passes; any other move is
/// `Illegal` and changes nothing.
pub open spec fn position_move(s: BoardState, m: Move) -> (BoardState, MoveResult) {
    if legal(s, m) {
        (after_turn(s, m), MoveResult::Played)
    } else {
        (s, MoveResult::Illegal)
    }
}

/// The value of a piece on any square of the board lies within 1000 of zero.
pub proof fn lemma_piece_value_bounds(piece: Piece, i: int, endgame: bool)
    requires
        0 <= i < 64,
    ensures
        -1000 <= piece_value(piece, i, endgame) <= 1000,
{
    match piece {
        Piece::Pawn => assert(-50 <= crate::board::piece::pawn_table()[i] <= 50),
        Piece::Rook => assert(-50 <= crate::board::piece::rook_table()[i] <= 50),
        Piece::Knight => assert(-50 <= crate::board::piece::knight_table()[i] <= 50),
        Piece::Bishop => assert(-50 <= crate::board::piece::bishop_table()[i] <= 50),
        Piece::Queen => assert(-50 <= crate::board::piece::queen_table()[i] <= 50),
        Piece::King => {
            assert(-50 <= crate::board::piece::king_table()[i] <= 50);
            assert(-50 <= crate::board::piece::king_table_endgame()[i] <= 50);
        },
    }
}

proof fn lemma_table_index(i: int, color: Color)
    requires
        0 <= i < 64,
    ensures
        0 <= table_index(i, color) < 64,
{
    let u = i as usize;
    assert(u < 64 ==> u ^ 56usize < 64) by (bit_vector);
}

/// A position, and the positions saved to return to.
pub struct Position {
    board: Board,
    undo_stack: Vec<Board>,
}

impl Position {
    /// The current position.
    pub closed spec fn state(&self) -> BoardState {
        self.board@
    }

    /// The saved positions, the last saved last.
    pub closed spec fn saved(&self) -> Seq<BoardState> {
        self.undo_stack@.map_values(|b: Board| b@)
    }

    pub closed spec fn wf(&self) -> bool {
        &&& self.board.wf()
        &&& forall|i: int| 0 <= i < self.undo_stack@.len() ==> (#[trigger] self.undo_stack@[i]).wf()
    }

    /// The starting position, with nothing saved.
    pub fn new() -> (p: Self)
        ensures
            p.wf(),
            p.state() == initial_state(),
            p.saved() == Seq::<BoardState>::empty(),
            hash_invariant(p.state()),
    {
        proof {
            crate::board::board::lemma_initial_hash_invariant();
        }
        let p = Self { board: Board::new(), undo_stack: Vec::new() };
        assert(p.saved() =~= Seq::<BoardState>::empty());
        p
    }

    /// The position of a FEN record, with nothing saved.
    pub fn _from_fen(fen: &str) -> (r: Result<Self, String>)
        requires
            fen_outcome(fen@) is Some,
        ensures
            match r {
                Ok(p) => p.wf() && fen_outcome(fen@) == Some(Ok::<BoardState, Seq<char>>(p.state()))
                    && p.saved() == Seq::<BoardState>::empty(),
                Err(e) => fen_outcome(fen@) == Some(Err::<BoardState, Seq<char>>(e@)),
            },
    {
        let board = Board::_from_fen(fen)?;
        let p = Self { board, undo_stack: Vec::new() };
        assert(p.saved() =~= Seq::<BoardState>::empty());
        Ok(p)
    }

    pub fn is_in_check(&self) -> (b: bool)
        ensures
            b == in_check(self.state()),
    {
        self.board.is_in_check()
    }

    pub fn hash(&self) -> (h: u64)
        ensures
            h == self.state().hash,
    {
        self.board.hash()
    }

    /// Saves the current position.
    pub fn save(&mut self)
        requires
            old(self).wf(),
        ensures
            final(self).wf(),
            final(self).state() == old(self).state(),
            final(self).saved() == old(self).saved().push(old(self).state()),
    {
        let copy = self.board.clone();
        self.undo_stack.push(copy);
        assert(self.saved() =~= old(self).saved().push(old(self).state()));
    }

    /// Returns to the position saved last, which is no longer saved.
    pub fn undo(&mut self)
        requires
            old(self).wf(),
            old(self).saved().len() > 0,
        ensures
            final(self).wf(),
            final(self).state() == old(self).saved().last(),
            final(self).saved() == old(self).saved().drop_last(),
    {
        let last = self.undo_stack.pop();
        proof {
            assert(last is Some);
        }
        self.board = last.unwrap();
        assert(self.saved() =~= old(self).saved().drop_last());
    }

    fn is_endgame(&self) -> (b: bool)
        ensures
            b == is_endgame_state(self.state()),
    {
        let white_endgame = !self.board.white_pieces().has_queen()
            || !self.board.white_pieces().has_minor_pieces();
        let black_endgame = !self.board.black_pieces().has_queen()
            || !self.board.black_pieces().has_minor_pieces();
        white_endgame && black_endgame
    }

    /// Adds to `score` (or, when `subtract`, takes from it) the value of a `piece` of `color`
    /// on each of `squares`.
    fn add_values(
        score: isize,
        squares: &Vec<Square>,
        piece: Piece,
        color: Color,
        endgame: bool,
        subtract: bool,
    ) -> (r: isize)
        requires
            squares@.len() <= 64,
            forall|i: int| 0 <= i < squares@.len() ==> (#[trigger] squares@[i]).bitmap_ok(),
            -1_000_000 <= score <= 1_000_000,
        ensures
            r == if subtract {
                score - squares_value(squares@, piece, color, endgame)
            } else {
                score + squares_value(squares@, piece, color, endgame)
            },
            score - 64_000 <= r <= score + 64_000,
    {
        let mut r = score;
        let mut j: usize = 0;
        while j < squares.len()
            invariant
                j <= squares@.len(),
                squares@.len() <= 64,
                forall|i: int| 0 <= i < squares@.len() ==> (#[trigger] squares@[i]).bitmap_ok(),
                -1_000_000 <= score <= 1_000_000,
                -1000 * j <= squares_value(squares@.take(j as int), piece, color, endgame) <= 1000
                    * j,
                r == if subtract {
                    score - squares_value(squares@.take(j as int), piece, color, endgame)
                } else {
                    score + squares_value(squares@.take(j as int), piece, color, endgame)
                },
            decreases squares@.len() - j,
        {
            let square = squares[j];
            proof {
                lemma_table_index(square.index(), color);
                lemma_piece_value_bounds(piece, table_index(square.index(), color), endgame);
                assert(squares@.take((j + 1) as int).drop_last() =~= squares@.take(j as int));
            }
            let v = piece.value(square, color, endgame);
            if subtract {
                r = r - v;
            } else {
                r = r + v;
            }
            j = j + 1;
        }
        assert(squares@.take(squares@.len() as int) =~= squares@);
        r
    }

    /// The static evaluation from the side to move: the values of its pieces minus those of
    /// the other side, each piece valued by kind and square.
    pub fn evaluate(&self) -> (v: isize)
        ensures
            v == evaluation(self.state()),
            -1_000_000 <= v <= 1_000_000,
    {
        let ghost s = self.state();
        let turn = self.board.turn();
        let (friendly_pieces, enemy_pieces) = match turn {
            Color::White => (self.board.white_pieces(), self.board.black_pieces()),
            Color::Black => (self.board.black_pieces(), self.board.white_pieces()),
        };
        let endgame = self.is_endgame();
        let mut score: isize = 0;
        let types = PIECE_TYPES;
        assert(types@ == piece_types());
        let mut k: usize = 0;
        while k < 6
            invariant
                k <= 6,
                types@ == piece_types(),
                s == self.state(),
                turn == s.turn,
                *friendly_pieces == s.pieces(s.turn),
                *enemy_pieces == s.pieces(opposite(s.turn)),
                endgame == is_endgame_state(s),
                -128_000 * k <= score <= 128_000 * k,
                score == material(s, k as nat, endgame),
            decreases 6 - k,
        {
            let piece = types[k];
            let ours = friendly_pieces.find_piece(piece);
            let theirs = enemy_pieces.find_piece(piece);
            proof {
                crate::board::square::lemma_squares_upto(friendly_pieces.bb(piece), 64);
                crate::board::square::lemma_squares_upto(enemy_pieces.bb(piece), 64);
            }
            let ghost before = score;
            score = Self::add_values(score, &ours, piece, turn, endgame, false);
            score = Self::add_values(score, &theirs, piece, turn.not(), endgame, true);
            k = k + 1;
        }
        score
    }
}

proof fn lemma_keep_legal_within(s: BoardState, moves: Seq<Move>, m: Move)
    requires
        keep_legal(s, moves).contains(m),
    ensures
        moves.contains(m),
    decreases moves.len(),
{
    if moves.len() > 0 {
        let rest = keep_legal(s, moves.drop_last());
        let last = moves.last();
        let i = choose|i: int| 0 <= i < keep_legal(s, moves).len() && keep_legal(s, moves)[i] == m;
        if i < rest.len() {
            assert(rest[i] == m);
            lemma_keep_legal_within(s, moves.drop_last(), m);
            let j = choose|j: int| 0 <= j < moves.drop_last().len() && moves.drop_last()[j] == m;
            assert(moves[j] == m);
        } else {
            assert(m == last);
            assert(moves[moves.len() - 1] == m);
        }
    }
}

/// A legal move never leaves the king of the side that played it attacked.
pub proof fn lemma_legal_moves_safe(s: BoardState, m: Move)
    requires
        legal_moves(s).contains(m),
    ensures
        !in_check(after_move(s, m).0),
        pseudo_moves(s).contains(m),
{
    lemma_keep_legal_safe(s, pseudo_moves(s), m);
    lemma_keep_legal_within(s, pseudo_moves(s), m);
}

proof fn lemma_keep_legal_safe(s: BoardState, moves: Seq<Move>, m: Move)
    requires
        keep_legal(s, moves).contains(m),
    ensures
        !in_check(after_move(s, m).0),
    decreases moves.len(),
{
    if moves.len() > 0 {
        let rest = keep_legal(s, moves.drop_last());
        let i = choose|i: int| 0 <= i < keep_legal(s, moves).len() && keep_legal(s, moves)[i] == m;
        if i < rest.len() {
            assert(rest[i] == m);
            lemma_keep_legal_safe(s, moves.drop_last(), m);
        }
    }
}

/// One call on a position: `save`, `undo` or `make_move`.
#[derive(Clone, Copy, PartialEq, Eq, Debug, Structural)]
pub enum PositionCall {
    Save,
    Undo,
    Play(Move),
}

/// The position and the saved positions after `call`, as the contracts of `save`, `undo`
/// and `make_move` give them.
pub open spec fn after_call(state: BoardState, saved: Seq<BoardState>, call: PositionCall) -> (
    BoardState,
    Seq<BoardState>,
) {
    match call {
        PositionCall::Save => (state, saved.push(state)),
        PositionCall::Undo => (saved.last(), saved.drop_last()),
        PositionCall::Play(m) => (position_move(state, m).0, saved),
    }
}

/// The position and the saved positions after `calls`, in order.
pub open spec fn after_calls(state: BoardState, saved: Seq<BoardState>, calls: Seq<PositionCall>) -> (
    BoardState,
    Seq<BoardState>,
)
    decreases calls.len(),
{
    if calls.len() == 0 {
        (state, saved)
    } else {
        let (s1, saved1) = after_calls(state, saved, calls.drop_last());
        after_call(s1, saved1, calls.last())
    }
}

/// The saves of `calls` not yet undone, where no undo comes without a save before it that it
/// undoes; `None` where one does.
pub open spec fn open_saves(calls: Seq<PositionCall>) -> Option<nat>
    decreases calls.len(),
{
    if calls.len() == 0 {
        Some(0)
    } else {
        match open_saves(calls.drop_last()) {
            None => None,
            Some(n) => match calls.last() {
                PositionCall::Save => Some(n + 1),
                PositionCall::Undo => if n == 0 {
                    None
                } else {
                    Some((n - 1) as nat)
                },
                PositionCall::Play(_) => Some(n),
            },
        }
    }
}

/// Calls whose undos each undo a save among them keep the saved positions from before them,
/// with the positions saved by the saves still open on top.
proof fn lemma_calls_keep_saved(state: BoardState, saved: Seq<BoardState>, calls: Seq<PositionCall>)
    requires
        open_saves(calls) is Some,
    ensures
        after_calls(state, saved, calls).1.len() == saved.len() + open_saves(calls)->0,
        after_calls(state, saved, calls).1.subrange(0, saved.len() as int) == saved,
    decreases calls.len(),
{
    if calls.len() > 0 {
        lemma_calls_keep_saved(state, saved, calls.drop_last());
        let (s1, saved1) = after_calls(state, saved, calls.drop_last());
        let saved2 = after_calls(state, saved, calls).1;
        assert(saved2.subrange(0, saved.len() as int) =~= saved1.subrange(0, saved.len() as int));
    }
}

proof fn lemma_after_calls_append(
    state: BoardState,
    saved: Seq<BoardState>,
    a: Seq<PositionCall>,
    b: Seq<PositionCall>,
)
    ensures
        after_calls(state, saved, a + b) == after_calls(
            after_calls(state, saved, a).0,
            after_calls(state, saved, a).1,
            b,
        ),
    decreases b.len(),
{
    if b.len() > 0 {
        lemma_after_calls_append(state, saved, a, b.drop_last());
        assert((a + b).drop_last() =~= a + b.drop_last());
        assert((a + b).last() == b.last());
    } else {
        assert(a + b =~= a);
    }
}

/// Undo returns to what save saved: after a save, any calls in which every undo undoes a
/// save among them (with moves played anywhere in between), and an undo, the position is the
/// one saved and the saved positions are those from before the save.
pub proof fn lemma_undo_after_save(state: BoardState, saved: Seq<BoardState>, calls: Seq<PositionCall>)
    requires
        open_saves(calls) == Some(0nat),
    ensures
        after_calls(state, saved, seq![PositionCall::Save] + calls + seq![PositionCall::Undo]) == (
            state,
            saved,
        ),
{
    let first = seq![PositionCall::Save];
    lemma_after_calls_append(state, saved, first, calls);
    assert(after_calls(state, saved, first.drop_last()) == (state, saved)) by {
        assert(first.drop_last() =~= Seq::<PositionCall>::empty());
    }
    let (s1, saved1) = after_calls(state, saved, first);
    assert(saved1 == saved.push(state));
    lemma_calls_keep_saved(s1, saved1, calls);
    let (s2, saved2) = after_calls(s1, saved1, calls);
    assert(saved2 =~= saved.push(state)) by {
        assert(saved2 =~= saved2.subrange(0, saved1.len() as int));
    }
    let all = first + calls + seq![PositionCall::Undo];
    assert(all.drop_last() =~= first + calls);
    assert(saved.push(state).drop_last() =~= saved);
}

/// A legal move of a position whose moves can all be played starts on a square that a
/// bitboard can index.
pub proof fn lemma_legal_moves_playable(s: BoardState, m: Move)
    requires
        moves_defined(s),
        legal_moves(s).contains(m),
    ensures
        m.from.bitmap_ok(),
{
    lemma_keep_legal_within(s, pseudo_moves(s), m);
    let i = choose|i: int| 0 <= i < pseudo_moves(s).len() && pseudo_moves(s)[i] == m;
    assert(crate::board::board::make_move_defined(s, pseudo_moves(s)[i]));
}

fn contains_move(moves: &Vec<Move>, m: Move) -> (r: bool)
    ensures
        r == moves@.contains(m),
{
    let mut i: usize = 0;
    while i < moves.len()
        invariant
            i <= moves@.len(),
            forall|k: int| 0 <= k < i ==> moves@[k] != m,
        decreases moves@.len() - i,
    {
        if moves[i] == m {
            return true;
        }
        i = i + 1;
    }
    false
}

impl Position {
    /// The legal moves of the side to move, in the order of generation: each generated move
    /// is tried on a copy of the board and kept if it leaves the king of the side that
    /// played not attacked.
    pub fn find_legal_moves(&mut self) -> (moves: Vec<Move>)
        requires
            old(self).wf(),
            moves_defined(old(self).state()),
        ensures
            final(self).wf(),
            final(self).state() == old(self).state(),
            final(self).saved() == old(self).saved(),
            moves@ == legal_moves(old(self).state()),
    {
        let ghost s = self.state();
        let initial_board = self.board.clone();
        let possible_moves = self.board.find_current_possible_moves();
        let mut legal_moves: Vec<Move> = Vec::new();
        let mut i: usize = 0;
        while i < possible_moves.len()
            invariant
                i <= possible_moves@.len(),
                initial_board@ == s,
                initial_board.wf(),
                moves_defined(s),
                possible_moves@ == pseudo_moves(s),
                legal_moves@ == keep_legal(s, possible_moves@.take(i as int)),
            decreases possible_moves@.len() - i,
        {
            let movement = possible_moves[i];
            let mut test_board = initial_board.clone();
            test_board.make_move(movement);
            if !test_board.is_in_check() {
                legal_moves.push(movement);
            }
            assert(possible_moves@.take((i + 1) as int).drop_last() =~= possible_moves@.take(i as int));
            i = i + 1;
        }
        assert(possible_moves@.take(possible_moves@.len() as int) =~= possible_moves@);
        legal_moves
    }

    /// The side to move is not in check and has no legal move.
    pub fn is_stalemate(&mut self) -> (b: bool)
        requires
            old(self).wf(),
            moves_defined(old(self).state()),
        ensures
            final(self).wf(),
            final(self).state() == old(self).state(),
            final(self).saved() == old(self).saved(),
            b == (!in_check(old(self).state()) && legal_moves(old(self).state()).len() == 0),
    {
        if self.board.is_in_check() {
            return false;
        }
        self.find_legal_moves().is_empty()
    }

    /// The side to move is in check and has no legal move.
    pub fn is_checkmate(&mut self) -> (b: bool)
        requires
            old(self).wf(),
            moves_defined(old(self).state()),
        ensures
            final(self).wf(),
            final(self).state() == old(self).state(),
            final(self).saved() == old(self).saved(),
            b == (in_check(old(self).state()) && legal_moves(old(self).state()).len() == 0),
    {
        if !self.board.is_in_check() {
            return false;
        }
        self.find_legal_moves().is_empty()
    }

    fn is_legal(&mut self, movement: Move) -> (b: bool)
        requires
            old(self).wf(),
            moves_defined(old(self).state()),
            movement.from.bitmap_ok(),
        ensures
            final(self).wf(),
            final(self).state() == old(self).state(),
            final(self).saved() == old(self).saved(),
            b == legal(old(self).state(), movement),
    {
        let piece = match self.board.turn() {
            Color::White => self.board.white_pieces().get(movement.from()),
            Color::Black => self.board.black_pieces().get(movement.from()),
        };
        let Some(piece) = piece else {
            return false;
        };
        if movement.promotion() == None {
            if piece == Piece::Pawn {
                let promotion_row = match self.board.turn() {
                    Color::White => Board::BLACK_PIECE_ROW,
                    Color::Black => Board::WHITE_PIECE_ROW,
                };
                if movement.to().row() == promotion_row {
                    return false;
                }
            }
        } else {
            if piece != Piece::Pawn {
                return false;
            }
        }
        let legal_moves = self.find_legal_moves();
        contains_move(&legal_moves, movement)
    }

    /// Plays `movement` if it is legal and passes the turn; otherwise returns `Illegal` and
    /// changes nothing.
    pub fn make_move(&mut self, movement: Move) -> (r: MoveResult)
        requires
            old(self).wf(),
            moves_defined(old(self).state()),
            movement.from.bitmap_ok(),
        ensures
            final(self).wf(),
            consistent(old(self).state()) ==> consistent(final(self).state()),
            final(self).saved() == old(self).saved(),
            (final(self).state(), r) == position_move(old(self).state(), movement),
            hash_invariant(old(self).state()) && !(movement.promotion is Some && old(
                self,
            ).state().pieces(opposite(old(self).state().turn)).occupied_at(movement.to.index()))
                ==> hash_invariant(final(self).state()),
    {
        let ghost s = self.state();
        if !self.is_legal(movement) {
            return MoveResult::Illegal;
        }
        proof {
            if hash_invariant(s) && !(movement.promotion is Some && s.pieces(opposite(s.turn)).occupied_at(
                movement.to.index(),
            )) {
                lemma_legal_moves_safe(s, movement);
                crate::board::board::lemma_hash_invariant_after_turn(s, movement);
            }
            lemma_keep_legal_within(s, pseudo_moves(s), movement);
            let i = choose|i: int| 0 <= i < pseudo_moves(s).len() && pseudo_moves(s)[i] == movement;
            assert(crate::board::board::make_move_defined(s, pseudo_moves(s)[i]));
            if consistent(s) {
                lemma_consistent_after_turn(s, movement);
            }
        }
        let result = self.board.make_move(movement);
        if MoveResult::Illegal == result {
            return result;
        }
        self.board.end_turn();
        MoveResult::Played
    }

    /// Whether every move that generation yields in this position can be played.
    pub fn moves_defined_check(&mut self) -> (b: bool)
        requires
            old(self).wf(),
        ensures
            final(self).wf(),
            final(self).state() == old(self).state(),
            final(self).saved() == old(self).saved(),
            b == moves_defined(old(self).state()),
    {
        let b = self.board.moves_defined_check();
        assert(self.saved() =~= old(self).saved());
        b
    }

    pub fn board(&self) -> (b: &Board)
        ensures
            b@ == self.state(),
            self.wf() ==> b.wf(),
    {
        &self.board
    }
}

impl Clone for Position {
    /// A copy of the position and of the saved positions.
    fn clone(&self) -> (p: Self)
        ensures
            p.state() == self.state(),
            p.saved() == self.saved(),
            self.wf() ==> p.wf(),
    {
        let mut undo_stack: Vec<Board> = Vec::new();
        let mut i: usize = 0;
        while i < self.undo_stack.len()
            invariant
                i <= self.undo_stack@.len(),
                undo_stack@.len() == i,
                forall|k: int| 0 <= k < i ==> (#[trigger] undo_stack@[k])@ == self.undo_stack@[k]@,
                forall|k: int|
                    0 <= k < i ==> self.undo_stack@[k].wf() ==> (#[trigger] undo_stack@[k]).wf(),
            decreases self.undo_stack@.len() - i,
        {
            undo_stack.push(self.undo_stack[i].clone());
            i = i + 1;
        }
        let p = Self { board: self.board.clone(), undo_stack };
        assert(p.saved() =~= self.saved());
        p
    }
}

} // verus!
