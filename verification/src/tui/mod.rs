use vstd::prelude::*;
use crate::board::board::{BoardState, board_text_oriented, fen_outcome, initial_state};
use crate::board::movement::{Move, MoveResult, uci_cuts_ok, uci_result};
use crate::board::piece::Color;
use crate::game::chess::{Chess, game_move, game_move_defined};
use vstd::string::StringSliceAdditionalSpecFns;

pub mod terminal;

verus! {

/// What a turn of the terminal game came to.
#[derive(Clone, Copy, PartialEq, Eq, Debug, Structural)]
pub enum TurnOutcome {
    /// The game was started again; the same player is still to move.
    Reset,
    /// The input was not a move in UCI notation.
    InvalidNotation,
    /// The move may not be played; nothing changed.
    Illegal,
    /// The move was played and the game goes on with the other side.
    Moved,
    /// The move stalemated the other side.
    Draw,
    /// The move mated the other side; the color is that of the winner.
    Won(Color),
}

/// What the terminal game does after a turn: whose turn comes next, or that the game is over.
#[derive(Clone, Copy, PartialEq, Eq, Debug, Structural)]
pub enum NextTurn {
    /// The same side moves again, without the turn being announced.
    Again,
    /// The other side moves, and its turn is announced.
    Other,
    /// The game is over.
    Over,
}

/// The message line after a turn: `None` leaves it as it was, `Some` replaces it (an empty
/// text clears it). `bot_move` tells whether the engine had the turn.
pub open spec fn turn_message(o: TurnOutcome, bot_move: bool) -> Option<Seq<char>> {
    match o {
        TurnOutcome::Reset => Some(""@),
        TurnOutcome::InvalidNotation => Some("Invalid notation."@),
        TurnOutcome::Illegal => Some("Move is not legal."@),
        TurnOutcome::Moved => if bot_move {
            None
        } else {
            Some(""@)
        },
        TurnOutcome::Draw => Some("Draw."@),
        TurnOutcome::Won(c) => Some(
            match c {
                Color::White => "White"@,
                Color::Black => "Black"@,
            } + " won."@,
        ),
    }
}

/// Whose turn follows a turn that came to `o`.
pub open spec fn next_turn(o: TurnOutcome) -> NextTurn {
    match o {
        TurnOutcome::Moved => NextTurn::Other,
        TurnOutcome::Draw | TurnOutcome::Won(_) => NextTurn::Over,
        _ => NextTurn::Again,
    }
}

/// The report of a turn: the new message line (see `turn_message`) and whose turn follows.
pub fn turn_report(o: TurnOutcome, bot_move: bool) -> (r: (Option<String>, NextTurn))
    ensures
        match (r.0, turn_message(o, bot_move)) {
            (None, None) => true,
            (Some(m), Some(t)) => m@ == t,
            _ => false,
        },
        r.1 == next_turn(o),
{
    proof {
        reveal_strlit("");
    }
    match o {
        TurnOutcome::Reset => (Some(String::new()), NextTurn::Again),
        TurnOutcome::InvalidNotation => (Some("Invalid notation.".to_owned()), NextTurn::Again),
        TurnOutcome::Illegal => (Some("Move is not legal.".to_owned()), NextTurn::Again),
        TurnOutcome::Moved => if bot_move {
            (None, NextTurn::Other)
        } else {
            (Some(String::new()), NextTurn::Other)
        },
        TurnOutcome::Draw => (Some("Draw.".to_owned()), NextTurn::Over),
        TurnOutcome::Won(c) => {
            let mut m = c.to_string();
            m.append(" won.");
            (Some(m), NextTurn::Over)
        },
    }
}

/// `c` is the ASCII letter `lower`, in either case.
pub open spec fn same_letter(c: char, lower: char) -> bool {
    c == lower || c as u32 + 32 == lower as u32
}

/// The input `reset`, whatever the case of its letters.
pub open spec fn is_reset_word(s: Seq<char>) -> bool {
    &&& s.len() == 5
    &&& same_letter(s[0], 'r')
    &&& same_letter(s[1], 'e')
    &&& same_letter(s[2], 's')
    &&& same_letter(s[3], 'e')
    &&& same_letter(s[4], 't')
}

/// The outcome that a game result stands for, `mover` having played.
pub open spec fn outcome_of(r: MoveResult, mover: Color) -> TurnOutcome {
    match r {
        MoveResult::Played => TurnOutcome::Moved,
        MoveResult::Illegal => TurnOutcome::Illegal,
        MoveResult::Draw => TurnOutcome::Draw,
        MoveResult::CheckMate => TurnOutcome::Won(mover),
    }
}

pub(crate) fn is_letter(c: char, lower: char) -> (b: bool)
    requires
        'a' <= lower <= 'z',
    ensures
        b == same_letter(c, lower),
{
    c == lower || c as u32 + 32 == lower as u32
}

/// Whether `line` is `reset` in any mix of cases.
pub fn is_reset(line: &str) -> (b: bool)
    ensures
        b == is_reset_word(line@),
{
    let chars = crate::text::chars_of(line);
    if chars.len() != 5 {
        return false;
    }
    is_letter(chars[0], 'r') && is_letter(chars[1], 'e') && is_letter(chars[2], 's') && is_letter(
        chars[3],
        'e',
    ) && is_letter(chars[4], 't')
}

/// The terminal game: the engine, which side is drawn at the bottom, and which side the
/// player has.
pub struct Tui {
    chess: Chess,
    white_on_bottom: bool,
    play_white: bool,
}

impl Tui {
    pub closed spec fn game(&self) -> Chess {
        self.chess
    }

    pub closed spec fn white_on_bottom_spec(&self) -> bool {
        self.white_on_bottom
    }

    pub closed spec fn play_white_spec(&self) -> bool {
        self.play_white
    }

    pub open spec fn wf(&self) -> bool {
        self.game().wf()
    }

    /// The board as the player sees it: White at the bottom or Black at the bottom, as the
    /// game was set up.
    pub fn board_string(&self) -> (text: String)
        ensures
            text@ == board_text_oriented(self.game().state(), self.white_on_bottom_spec()),
    {
        self.chess.board().to_string_oriented(self.white_on_bottom)
    }

    /// A game from the starting position.
    pub fn new(depth: usize, threads: usize, white_on_bottom: bool, play_white: bool) -> (t: Self)
        ensures
            t.wf(),
            t.game().state() == initial_state(),
            t.game().depth_spec() == depth,
            t.game().threads_spec() == threads,
            t.white_on_bottom_spec() == white_on_bottom,
            t.play_white_spec() == play_white,
    {
        Self { chess: Chess::new(depth, threads), white_on_bottom, play_white }
    }

    /// A game from the position of a FEN record.
    pub fn _from_fen(
        fen: &str,
        depth: usize,
        threads: usize,
        white_on_bottom: bool,
        play_white: bool,
    ) -> (r: Result<Self, String>)
        requires
            fen_outcome(fen@) is Some,
        ensures
            match r {
                Ok(t) => fen_outcome(fen@) == Some(Ok::<BoardState, Seq<char>>(t.game().state()))
                    && t.game().depth_spec() == depth && t.game().threads_spec() == threads
                    && t.white_on_bottom_spec() == white_on_bottom && t.play_white_spec()
                    == play_white && t.wf(),
                Err(e) => fen_outcome(fen@) == Some(Err::<BoardState, Seq<char>>(e@)),
            },
    {
        let chess = Chess::_from_fen(fen, depth, threads)?;
        Ok(Self { chess, white_on_bottom, play_white })
    }

    pub fn chess(&self) -> (c: &Chess)
        ensures
            *c == self.game(),
    {
        &self.chess
    }

    /// The engine, for a search; the sides and the orientation stay as they are.
    pub fn chess_mut(&mut self) -> (c: &mut Chess)
        ensures
            *c == old(self).game(),
            final(self).game() == *final(c),
            final(self).white_on_bottom_spec() == old(self).white_on_bottom_spec(),
            final(self).play_white_spec() == old(self).play_white_spec(),
    {
        &mut self.chess
    }

    pub fn white_on_bottom(&self) -> (b: bool)
        ensures
            b == self.white_on_bottom_spec(),
    {
        self.white_on_bottom
    }

    pub fn play_white(&self) -> (b: bool)
        ensures
            b == self.play_white_spec(),
    {
        self.play_white
    }

    /// The player's turn, on a line already trimmed: `reset` in any case starts the game
    /// again; a line that is not a move in UCI notation changes nothing; a move is played if
    /// it is legal.
    pub fn user_turn(&mut self, line: &str) -> (o: TurnOutcome)
        requires
            old(self).wf(),
            uci_cuts_ok(line.spec_bytes()),
            !is_reset_word(line@) ==> (uci_result(line@, line.spec_bytes()) matches Ok(m)
                ==> game_move_defined(old(self).game().state(), m)),
        ensures
            final(self).wf(),
            final(self).game().depth_spec() == old(self).game().depth_spec(),
            final(self).game().threads_spec() == old(self).game().threads_spec(),
            final(self).white_on_bottom_spec() == old(self).white_on_bottom_spec(),
            final(self).play_white_spec() == old(self).play_white_spec(),
            is_reset_word(line@) ==> o == TurnOutcome::Reset && final(self).game().state()
                == initial_state(),
            !is_reset_word(line@) ==> match uci_result(line@, line.spec_bytes()) {
                Err(_) => o == TurnOutcome::InvalidNotation && final(self).game().state() == old(
                    self,
                ).game().state(),
                Ok(m) => (final(self).game().state(), o) == (
                    game_move(old(self).game().state(), m).0,
                    outcome_of(game_move(old(self).game().state(), m).1, old(self).game().state().turn),
                ),
            },
    {
        if is_reset(line) {
            self.chess.reset();
            return TurnOutcome::Reset;
        }
        let parsed = Move::from_uci(line);
        match parsed {
            Err(_) => TurnOutcome::InvalidNotation,
            Ok(movement) => {
                proof {
                    crate::board::movement::lemma_uci_squares_on_board(line@, line.spec_bytes());
                }
                self.play(movement)
            },
        }
    }

    /// The engine's turn: it plays `movement`, the move its search chose.
    pub fn bot_turn(&mut self, movement: Move) -> (o: TurnOutcome)
        requires
            old(self).wf(),
            movement.from.bitmap_ok(),
            game_move_defined(old(self).game().state(), movement),
        ensures
            final(self).wf(),
            final(self).game().depth_spec() == old(self).game().depth_spec(),
            final(self).game().threads_spec() == old(self).game().threads_spec(),
            final(self).white_on_bottom_spec() == old(self).white_on_bottom_spec(),
            final(self).play_white_spec() == old(self).play_white_spec(),
            (final(self).game().state(), o) == (
                game_move(old(self).game().state(), movement).0,
                outcome_of(game_move(old(self).game().state(), movement).1, old(self).game().state().turn),
            ),
    {
        self.play(movement)
    }

    fn play(&mut self, movement: Move) -> (o: TurnOutcome)
        requires
            old(self).wf(),
            movement.from.bitmap_ok(),
            game_move_defined(old(self).game().state(), movement),
        ensures
            final(self).wf(),
            final(self).game().depth_spec() == old(self).game().depth_spec(),
            final(self).game().threads_spec() == old(self).game().threads_spec(),
            final(self).white_on_bottom_spec() == old(self).white_on_bottom_spec(),
            final(self).play_white_spec() == old(self).play_white_spec(),
            (final(self).game().state(), o) == (
                game_move(old(self).game().state(), movement).0,
                outcome_of(game_move(old(self).game().state(), movement).1, old(self).game().state().turn),
            ),
    {
        let mover = self.chess.board().turn();
        let result = self.chess.make_move(movement);
        match result {
            MoveResult::Played => TurnOutcome::Moved,
            MoveResult::Illegal => TurnOutcome::Illegal,
            MoveResult::Draw => TurnOutcome::Draw,
            MoveResult::CheckMate => TurnOutcome::Won(mover),
        }
    }
}

} // verus!
