use vstd::prelude::*;
use crate::board::piece::Color;
use vstd::string::StringExecFns;

verus! {

pub const END_COLOR: &'static str = "\x1b[0m";

pub const WHITE_BACKGROUND: &'static str = "\x1B[47m";

pub const BLACK_BACKGROUND: &'static str = "\x1B[40m";

pub const BLACK_FOREGROUND: &'static str = "\x1B[38;5;124m";

pub const WHITE_FOREGROUND: &'static str = "\x1B[38;5;20m";

/// The escape sequence that sets the background to `c`.
pub open spec fn background_code(c: Color) -> Seq<char> {
    match c {
        Color::White => WHITE_BACKGROUND@,
        Color::Black => BLACK_BACKGROUND@,
    }
}

/// The escape sequence that sets the text color to `c`.
pub open spec fn foreground_code(c: Color) -> Seq<char> {
    match c {
        Color::White => WHITE_FOREGROUND@,
        Color::Black => BLACK_FOREGROUND@,
    }
}

/// `text` on a square of color `background`, written in the color of `foreground`, with
/// the colors reset after it.
pub fn color_square(text: &str, background: Color, foreground: Color) -> (s: String)
    ensures
        s@ == background_code(background) + foreground_code(foreground) + text@ + END_COLOR@,
{
    let mut s = match background {
        Color::White => WHITE_BACKGROUND.to_owned(),
        Color::Black => BLACK_BACKGROUND.to_owned(),
    };
    match foreground {
        Color::White => s.append(WHITE_FOREGROUND),
        Color::Black => s.append(BLACK_FOREGROUND),
    }
    s.append(text);
    s.append(END_COLOR);
    s
}

} // verus!
