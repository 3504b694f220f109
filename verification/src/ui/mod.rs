use vstd::prelude::*;
use crate::board::movement::{Move, MoveResult, uci_cuts_ok, uci_result};
use crate::board::piece::{Color, opposite};
use crate::game::chess::{Chess, game_move, game_move_defined};
use crate::tui::{is_letter, same_letter};
use core::ops::Not;
use vstd::string::StringSliceAdditionalSpecFns;

verus! {

/// What a turn of the line-by-line game came to.
#[derive(Clone, Copy, PartialEq, Eq, Debug, Structural)]
pub enum UiOutcome {
    /// The input was not a move in UCI notation.
    InvalidNotation,
    /// The move may not be played; nothing changed.
    Illegal,
    /// The move was played and the game goes on with the other side.
    Moved,
    /// A draw: agreed by the player, or the move stalemated the other side.
    Draw,
    /// The game is won by the side of this color: by mate, or because the other side resigned.
    Won(Color),
}

/// The input `draw`, whatever the case of its letters.
pub open spec fn is_draw_word(s: Seq<char>) -> bool {
    &&& s.len() == 4
    &&& same_letter(s[0], 'd')
    &&& same_letter(s[1], 'r')
    &&& same_letter(s[2], 'a')
    &&& same_letter(s[3], 'w')
}

/// The input `resign`, whatever the case of its letters.
pub open spec fn is_resign_word(s: Seq<char>) -> bool {
    &&& s.len() == 6
    &&& same_letter(s[0], 'r')
    &&& same_letter(s[1], 'e')
    &&& same_letter(s[2], 's')
    &&& same_letter(s[3], 'i')
    &&& same_letter(s[4], 'g')
    &&& same_letter(s[5], 'n')
}

/// The outcome that a game result stands for, `mover` having played.
pub open spec fn ui_outcome_of(r: MoveResult, mover: Color) -> UiOutcome {
    match r {
        MoveResult::Played => UiOutcome::Moved,
        MoveResult::Illegal => UiOutcome::Illegal,
        MoveResult::Draw => UiOutcome::Draw,
        MoveResult::CheckMate => UiOutcome::Won(mover),
    }
}

fn is_word_draw(line: &str) -> (b: bool)
    ensures
        b == is_draw_word(line@),
{
    let chars = crate::text::chars_of(line);
    chars.len() == 4 && is_letter(chars[0], 'd') && is_letter(chars[1], 'r') && is_letter(
        chars[2],
        'a',
    ) && is_letter(chars[3], 'w')
}

fn is_word_resign(line: &str) -> (b: bool)
    ensures
        b == is_resign_word(line@),
{
    let chars = crate::text::chars_of(line);
    chars.len() == 6 && is_letter(chars[0], 'r') && is_letter(chars[1], 'e') && is_letter(
        chars[2],
        's',
    ) && is_letter(chars[3], 'i') && is_letter(chars[4], 'g') && is_letter(chars[5], 'n')
}

/// A game played line by line against the engine, where the player may also agree to a draw
/// or resign.
pub struct Ui {
    chess: Chess,
}

impl Ui {
    pub closed spec fn game(&self) -> Chess {
        self.chess
    }

    pub open spec fn wf(&self) -> bool {
        self.game().wf()
    }

    /// A game from the starting position.
    pub fn new(depth: usize, threads: usize) -> (u: Self)
        ensures
            u.wf(),
            u.game().state() == crate::board::board::initial_state(),
            u.game().depth_spec() == depth,
            u.game().threads_spec() == threads,
    {
        Self { chess: Chess::new(depth, threads) }
    }

    pub fn chess(&self) -> (c: &Chess)
        ensures
            *c == self.game(),
    {
        &self.chess
    }

    /// The engine, for a search.
    pub fn chess_mut(&mut self) -> (c: &mut Chess)
        ensures
            *c == old(self).game(),
            final(self).game() == *final(c),
    {
        &mut self.chess
    }

    /// The player's turn, on a line already trimmed: `draw` ends the game drawn and `resign`
    /// gives it to the other side (in any case of letters), both leaving the position as it
    /// is; a line that is not a move in UCI notation changes nothing; a move is played if it
    /// is legal.
    pub fn ui_turn(&mut self, line: &str) -> (o: UiOutcome)
        requires
            old(self).wf(),
            uci_cuts_ok(line.spec_bytes()),
            !is_draw_word(line@) && !is_resign_word(line@) ==> (uci_result(line@, line.spec_bytes())
                matches Ok(m) ==> game_move_defined(old(self).game().state(), m)),
        ensures
            final(self).wf(),
            final(self).game().depth_spec() == old(self).game().depth_spec(),
            final(self).game().threads_spec() == old(self).game().threads_spec(),
            is_draw_word(line@) ==> o == UiOutcome::Draw && final(self).game().state() == old(
                self,
            ).game().state(),
            !is_draw_word(line@) && is_resign_word(line@) ==> o == UiOutcome::Won(
                opposite(old(self).game().state().turn),
            ) && final(self).game().state() == old(self).game().state(),
            !is_draw_word(line@) && !is_resign_word(line@) ==> match uci_result(
                line@,
                line.spec_bytes(),
            ) {
                Err(_) => o == UiOutcome::InvalidNotation && final(self).game().state() == old(
                    self,
                ).game().state(),
                Ok(m) => (final(self).game().state(), o) == (
                    game_move(old(self).game().state(), m).0,
                    ui_outcome_of(game_move(old(self).game().state(), m).1, old(self).game().state().turn),
                ),
            },
    {
        if is_word_draw(line) {
            return UiOutcome::Draw;
        }
        if is_word_resign(line) {
            return UiOutcome::Won(self.chess.board().turn().not());
        }
        match Move::from_uci(line) {
            Err(_) => UiOutcome::InvalidNotation,
            Ok(movement) => {
                proof {
                    crate::board::movement::lemma_uci_squares_on_board(line@, line.spec_bytes());
                }
                self.play(movement)
            },
        }
    }

    /// The engine's turn: it plays `movement`, the move its search chose.
    pub fn bot_turn(&mut self, movement: Move) -> (o: UiOutcome)
        requires
            old(self).wf(),
            movement.from.bitmap_ok(),
            game_move_defined(old(self).game().state(), movement),
        ensures
            final(self).wf(),
            final(self).game().depth_spec() == old(self).game().depth_spec(),
            final(self).game().threads_spec() == old(self).game().threads_spec(),
            (final(self).game().state(), o) == (
                game_move(old(self).game().state(), movement).0,
                ui_outcome_of(game_move(old(self).game().state(), movement).1, old(self).game().state().turn),
            ),
    {
        self.play(movement)
    }

    fn play(&mut self, movement: Move) -> (o: UiOutcome)
        requires
            old(self).wf(),
            movement.from.bitmap_ok(),
            game_move_defined(old(self).game().state(), movement),
        ensures
            final(self).wf(),
            final(self).game().depth_spec() == old(self).game().depth_spec(),
            final(self).game().threads_spec() == old(self).game().threads_spec(),
            (final(self).game().state(), o) == (
                game_move(old(self).game().state(), movement).0,
                ui_outcome_of(game_move(old(self).game().state(), movement).1, old(self).game().state().turn),
            ),
    {
        let mover = self.chess.board().turn();
        match self.chess.make_move(movement) {
            MoveResult::Played => UiOutcome::Moved,
            MoveResult::Illegal => UiOutcome::Illegal,
            MoveResult::Draw => UiOutcome::Draw,
            MoveResult::CheckMate => UiOutcome::Won(mover),
        }
    }
}

} // verus!
