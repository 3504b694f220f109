use vstd::prelude::*;
use vstd::string::{StringExecFns, StringSliceAdditionalSpecFns};
use crate::board::board::initial_state;
use crate::board::movement::{Move, MoveResult};
use crate::game::chess::{Chess, game_move, game_move_defined};
use crate::text::{chars_equal, chars_of, trim, trimmed};

verus! {

/// The status of an answer of the web interface.
#[derive(Clone, Copy, PartialEq, Eq, Debug, Structural)]
pub enum Status {
    Success,
    InternalError,
    NotPlayerMove,
    NotBotMove,
    BadUci,
    NotFound,
}

/// The HTTP status line of a status.
pub open spec fn status_line(s: Status) -> Seq<char> {
    match s {
        Status::Success => "HTTP/1.1 200 OK"@,
        Status::InternalError => "HTTP/1.1 500 Internal Server Error"@,
        Status::NotPlayerMove => "HTTP/1.1 400 Not player move"@,
        Status::NotBotMove => "HTTP/1.1 400 Not bot move"@,
        Status::BadUci => "HTTP/1.1 400 Bad UCI format"@,
        Status::NotFound => "HTTP/1.1 404 Not Found"@,
    }
}

/// The decimal digits of `n`, without leading zeros.
pub open spec fn decimal(n: nat) -> Seq<char>
    decreases n,
{
    if n < 10 {
        seq![(48 + n) as char]
    } else {
        decimal(n / 10).push((48 + n % 10) as char)
    }
}

/// Appends the decimal digits of `n`.
fn push_decimal(s: &mut String, n: usize)
    ensures
        final(s)@ == old(s)@ + decimal(n as nat),
    decreases n,
{
    if n >= 10 {
        push_decimal(s, n / 10);
    }
    let digit = (48 + (n % 10) as u32) as u8 as char;
    crate::text::push_char(s, digit);
    assert(s@ =~= old(s)@ + decimal(n as nat));
}

/// The answer sent for `status` and `contents`: the status line, the byte length of the
/// contents, an empty line and the contents.
pub fn response(status: Status, contents: &str) -> (r: String)
    ensures
        r@ == status_line(status) + "\r\nContent-Length: "@ + decimal(contents.len() as nat)
            + "\r\n\r\n"@ + contents@,
{
    let mut r = status.line();
    r.append("\r\nContent-Length: ");
    push_decimal(&mut r, contents.len());
    r.append("\r\n\r\n");
    r.append(contents);
    r
}

impl Status {
    /// The HTTP status line.
    pub fn line(&self) -> (s: String)
        ensures
            s@ == status_line(*self),
    {
        match self {
            Status::Success => "HTTP/1.1 200 OK".to_owned(),
            Status::InternalError => "HTTP/1.1 500 Internal Server Error".to_owned(),
            Status::NotPlayerMove => "HTTP/1.1 400 Not player move".to_owned(),
            Status::NotBotMove => "HTTP/1.1 400 Not bot move".to_owned(),
            Status::BadUci => "HTTP/1.1 400 Bad UCI format".to_owned(),
            Status::NotFound => "HTTP/1.1 404 Not Found".to_owned(),
        }
    }
}

/// What a request asks for, by its request line.
#[derive(Clone, Copy, PartialEq, Eq, Debug, Structural)]
pub enum Route {
    Index,
    Style,
    Script,
    Turn,
    Board,
    BotMove,
    Reset,
    PlayerMove,
    Unknown,
}

/// The route of a request line, whitespace around it aside.
pub open spec fn route_of(line: Seq<char>) -> Route {
    let t = trimmed(line);
    if t == "GET / HTTP/1.1"@ {
        Route::Index
    } else if t == "GET /style.css HTTP/1.1"@ {
        Route::Style
    } else if t == "GET /script.js HTTP/1.1"@ {
        Route::Script
    } else if t == "GET /turn HTTP/1.1"@ {
        Route::Turn
    } else if t == "GET /board HTTP/1.1"@ {
        Route::Board
    } else if t == "POST /bot_move HTTP/1.1"@ {
        Route::BotMove
    } else if t == "POST /reset HTTP/1.1"@ {
        Route::Reset
    } else if t == "POST /move HTTP/1.1"@ {
        Route::PlayerMove
    } else {
        Route::Unknown
    }
}

/// The route of the request line `line`.
pub fn route(line: &str) -> (r: Route)
    ensures
        r == route_of(line@),
{
    let t = trim(line);
    let chars = chars_of(t.as_str());
    if chars_equal(&chars, "GET / HTTP/1.1") {
        Route::Index
    } else if chars_equal(&chars, "GET /style.css HTTP/1.1") {
        Route::Style
    } else if chars_equal(&chars, "GET /script.js HTTP/1.1") {
        Route::Script
    } else if chars_equal(&chars, "GET /turn HTTP/1.1") {
        Route::Turn
    } else if chars_equal(&chars, "GET /board HTTP/1.1") {
        Route::Board
    } else if chars_equal(&chars, "POST /bot_move HTTP/1.1") {
        Route::BotMove
    } else if chars_equal(&chars, "POST /reset HTTP/1.1") {
        Route::Reset
    } else if chars_equal(&chars, "POST /move HTTP/1.1") {
        Route::PlayerMove
    } else {
        Route::Unknown
    }
}

/// A header line of a request, as the move request reads it.
#[derive(Clone, Copy, PartialEq, Eq, Debug, Structural)]
pub enum Header {
    /// The empty line that ends the headers.
    End,
    /// A `Content-Length` header, with its value if that is a number a `usize` holds.
    Length(Option<usize>),
    /// Any other header.
    Other,
}

/// What a header line is, whitespace at its end aside.
pub open spec fn header_of(line: Seq<char>) -> Header {
    let t = crate::text::trim_end(line);
    let prefix = "Content-Length: "@;
    if t.len() == 0 {
        Header::End
    } else if t.len() >= prefix.len() && t.take(prefix.len() as int) == prefix {
        match crate::text::parse_usize(t.skip(prefix.len() as int)) {
            Some(n) => Header::Length(Some(n as usize)),
            None => Header::Length(None),
        }
    } else {
        Header::Other
    }
}

/// Reads a header line of a request.
pub fn header(line: &str) -> (h: Header)
    ensures
        h == header_of(line@),
{
    let t = crate::text::trim_end_of(line);
    if t.len() == 0 {
        return Header::End;
    }
    let prefix = "Content-Length: ";
    if !crate::text::starts_with_chars(&t, prefix) {
        return Header::Other;
    }
    let rest = crate::text::chars_from(&t, prefix.unicode_len());
    Header::Length(crate::text::parse_usize_chars(&rest))
}

/// The name of a game result, as the web interface sends it.
pub open spec fn result_name(r: MoveResult) -> Seq<char> {
    match r {
        MoveResult::Played => "Ok"@,
        MoveResult::Illegal => "Illegal"@,
        MoveResult::CheckMate => "Checkmate"@,
        MoveResult::Draw => "Draw"@,
    }
}

/// A game served to a browser: the engine, which side the player has, whose turn it is, and
/// whether a finished game is to be started again at the next look at the board.
pub struct WebSession {
    chess: Chess,
    play_white: bool,
    white_on_bottom: bool,
    bot_turn: bool,
    should_reset: bool,
}

impl WebSession {
    pub closed spec fn game(&self) -> Chess {
        self.chess
    }

    pub closed spec fn bot_turn_spec(&self) -> bool {
        self.bot_turn
    }

    pub closed spec fn should_reset_spec(&self) -> bool {
        self.should_reset
    }

    pub closed spec fn play_white_spec(&self) -> bool {
        self.play_white
    }

    pub closed spec fn white_on_bottom_spec(&self) -> bool {
        self.white_on_bottom
    }

    pub open spec fn wf(&self) -> bool {
        self.game().wf()
    }

    /// A new game from the starting position; the engine moves first when the player has
    /// black.
    pub fn new(depth: usize, threads: usize, white_on_bottom: bool, play_white: bool) -> (w: Self)
        ensures
            w.wf(),
            w.game().state() == initial_state(),
            w.game().depth_spec() == depth,
            w.game().threads_spec() == threads,
            w.play_white_spec() == play_white,
            w.white_on_bottom_spec() == white_on_bottom,
            w.bot_turn_spec() == !play_white,
            !w.should_reset_spec(),
    {
        Self {
            chess: Chess::new(depth, threads),
            play_white,
            white_on_bottom,
            bot_turn: !play_white,
            should_reset: false,
        }
    }

    pub fn chess(&self) -> (c: &Chess)
        ensures
            *c == self.game(),
    {
        &self.chess
    }

    /// The engine, for a search; nothing else of the session changes.
    pub fn chess_mut(&mut self) -> (c: &mut Chess)
        ensures
            *c == old(self).game(),
            final(self).game() == *final(c),
            final(self).bot_turn_spec() == old(self).bot_turn_spec(),
            final(self).should_reset_spec() == old(self).should_reset_spec(),
            final(self).play_white_spec() == old(self).play_white_spec(),
            final(self).white_on_bottom_spec() == old(self).white_on_bottom_spec(),
    {
        &mut self.chess
    }

    pub fn bot_turn(&self) -> (b: bool)
        ensures
            b == self.bot_turn_spec(),
    {
        self.bot_turn
    }

    pub fn white_on_bottom(&self) -> (b: bool)
        ensures
            b == self.white_on_bottom_spec(),
    {
        self.white_on_bottom
    }

    /// The player sends a move: refused while the engine is to move; otherwise played if
    /// legal, and answered with the name of the result. A finished game is marked to be
    /// started again; after a played move the engine is to move.
    pub fn player_move(&mut self, movement: Move) -> (r: (Status, String))
        requires
            old(self).wf(),
            movement.from.bitmap_ok(),
            !old(self).bot_turn_spec() ==> game_move_defined(old(self).game().state(), movement),
        ensures
            final(self).wf(),
            final(self).play_white_spec() == old(self).play_white_spec(),
            final(self).white_on_bottom_spec() == old(self).white_on_bottom_spec(),
            old(self).bot_turn_spec() ==> r.0 == Status::NotPlayerMove && r.1@ == Seq::<char>::empty()
                && final(self).game().state() == old(self).game().state()
                && final(self).bot_turn_spec() && final(self).should_reset_spec() == old(
                self,
            ).should_reset_spec(),
            !old(self).bot_turn_spec() ==> {
                let (next, result) = game_move(old(self).game().state(), movement);
                &&& r.0 == Status::Success
                &&& r.1@ == result_name(result)
                &&& final(self).game().state() == next
                &&& final(self).bot_turn_spec() == (result == MoveResult::Played)
                &&& final(self).should_reset_spec() == (old(self).should_reset_spec() || result
                    == MoveResult::CheckMate || result == MoveResult::Draw)
            },
    {
        if self.bot_turn {
            return (Status::NotPlayerMove, String::new());
        }
        let result = self.chess.make_move(movement);
        match result {
            MoveResult::CheckMate | MoveResult::Draw => {
                self.should_reset = true;
            },
            MoveResult::Played => {
                self.bot_turn = true;
            },
            MoveResult::Illegal => {},
        }
        (Status::Success, result.to_string())
    }

    /// The engine plays `movement`, the move its search chose: refused while the player is to
    /// move; otherwise played and answered with the name of the result, and the player is to
    /// move next.
    pub fn bot_move(&mut self, movement: Move) -> (r: (Status, String))
        requires
            old(self).wf(),
            movement.from.bitmap_ok(),
            old(self).bot_turn_spec() ==> game_move_defined(old(self).game().state(), movement),
        ensures
            final(self).wf(),
            final(self).play_white_spec() == old(self).play_white_spec(),
            final(self).white_on_bottom_spec() == old(self).white_on_bottom_spec(),
            !old(self).bot_turn_spec() ==> r.0 == Status::NotBotMove && r.1@ == Seq::<char>::empty()
                && final(self).game().state() == old(self).game().state()
                && !final(self).bot_turn_spec() && final(self).should_reset_spec() == old(
                self,
            ).should_reset_spec(),
            old(self).bot_turn_spec() ==> {
                let (next, result) = game_move(old(self).game().state(), movement);
                &&& r.0 == Status::Success
                &&& r.1@ == result_name(result)
                &&& final(self).game().state() == next
                &&& !final(self).bot_turn_spec()
                &&& final(self).should_reset_spec() == (old(self).should_reset_spec() || result
                    == MoveResult::CheckMate || result == MoveResult::Draw)
            },
    {
        if !self.bot_turn {
            return (Status::NotBotMove, String::new());
        }
        let result = self.chess.make_move(movement);
        match result {
            MoveResult::CheckMate | MoveResult::Draw => {
                self.should_reset = true;
            },
            _ => {},
        }
        self.bot_turn = false;
        (Status::Success, result.to_string())
    }

    /// After the board was sent: a finished game starts again, with the engine to move when
    /// the player has black.
    pub fn after_sync(&mut self)
        requires
            old(self).wf(),
        ensures
            final(self).wf(),
            final(self).play_white_spec() == old(self).play_white_spec(),
            final(self).white_on_bottom_spec() == old(self).white_on_bottom_spec(),
            !final(self).should_reset_spec(),
            old(self).should_reset_spec() ==> final(self).game().state() == initial_state()
                && final(self).bot_turn_spec() == !old(self).play_white_spec(),
            !old(self).should_reset_spec() ==> final(self).game().state() == old(
                self,
            ).game().state() && final(self).bot_turn_spec() == old(self).bot_turn_spec(),
    {
        if self.should_reset {
            self.bot_turn = !self.play_white;
            self.chess.reset();
            self.should_reset = false;
        }
    }

    /// The player asks to start again.
    pub fn reset(&mut self) -> (r: (Status, String))
        requires
            old(self).wf(),
        ensures
            final(self).wf(),
            r.0 == Status::Success,
            r.1@ == Seq::<char>::empty(),
            final(self).game().state() == initial_state(),
            final(self).bot_turn_spec() == !old(self).play_white_spec(),
            final(self).should_reset_spec() == old(self).should_reset_spec(),
            final(self).play_white_spec() == old(self).play_white_spec(),
            final(self).white_on_bottom_spec() == old(self).white_on_bottom_spec(),
    {
        self.chess.reset();
        self.bot_turn = !self.play_white;
        (Status::Success, String::new())
    }

    /// Whose turn it is: `bot` or `player`.
    pub fn turn(&self) -> (r: (Status, String))
        ensures
            r.0 == Status::Success,
            r.1@ == if self.bot_turn_spec() {
                "bot"@
            } else {
                "player"@
            },
    {
        if self.bot_turn {
            (Status::Success, "bot".to_owned())
        } else {
            (Status::Success, "player".to_owned())
        }
    }
}

} // verus!
