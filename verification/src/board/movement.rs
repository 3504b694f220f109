use vstd::prelude::*;
use crate::board::piece::Piece;
use crate::board::square::{Square, algebraic_result};
use crate::text::push_char;
use vstd::string::StringSliceAdditionalSpecFns;
use vstd::utf8::{is_char_boundary, is_continuation_byte};

verus! {

broadcast use vstd::utf8::encode_utf8_valid_utf8;

/// A move from one square to another, with the piece a pawn is promoted to, if any.
#[derive(Clone, Copy, PartialEq, Eq, Debug, PartialOrd, Ord, Structural)]
pub struct Move {
    pub to: Square,
    pub from: Square,
    pub promotion: Option<Piece>,
}

/// The outcome of playing a move.
#[derive(Clone, Copy, PartialEq, Eq, Debug, Structural)]
pub enum MoveResult {
    Played,
    Illegal,
    CheckMate,
    Draw,
}

/// The promotion piece named by a lowercase letter of UCI notation: `q`, `r`, `b` or `n`
/// (byte values 113, 114, 98 and 110).
pub open spec fn promotion_of(b: u8) -> Option<Piece> {
    if b == 113 {
        Some(Piece::Queen)
    } else if b == 114 {
        Some(Piece::Rook)
    } else if b == 98 {
        Some(Piece::Bishop)
    } else if b == 110 {
        Some(Piece::Knight)
    } else {
        None
    }
}

/// The inputs on which `Move::from_uci` can cut its argument into squares: the cuts after
/// the second and the fourth byte fall between characters.
pub open spec fn uci_cuts_ok(b: Seq<u8>) -> bool {
    (b.len() == 4 || b.len() == 5) ==> (!is_continuation_byte(b[2]) && (b.len() == 5
        ==> !is_continuation_byte(b[4])))
}

/// What `Move::from_uci` gives for a string with characters `s` and UTF-8 bytes `b`.
pub open spec fn uci_result(s: Seq<char>, b: Seq<u8>) -> Result<Move, Seq<char>> {
    if b.len() != 4 && b.len() != 5 {
        Err("Invalid UCI move: "@ + s)
    } else {
        match algebraic_result(b.subrange(0, 2)) {
            Err(e) => Err(e),
            Ok(from) => match algebraic_result(b.subrange(2, 4)) {
                Err(e) => Err(e),
                Ok(to) => if b.len() == 5 {
                    match promotion_of(b[4]) {
                        Some(p) => Ok(Move { from, to, promotion: Some(p) }),
                        None => Err("Invalid promotion piece: "@.push(b[4] as char)),
                    }
                } else {
                    Ok(Move { from, to, promotion: None })
                },
            },
        }
    }
}

/// The UCI letter of a promotion piece.
pub open spec fn promotion_letter(p: Piece) -> char {
    match p {
        Piece::Queen => 'q',
        Piece::Rook => 'r',
        Piece::Bishop => 'b',
        _ => 'n',
    }
}

impl Move {
    pub fn new(to: Square, from: Square, promotion: Option<Piece>) -> (m: Self)
        ensures
            m == (Move { to, from, promotion }),
    {
        Self { to, from, promotion }
    }

    pub fn to(&self) -> (s: Square)
        ensures
            s == self.to,
    {
        self.to
    }

    pub fn from(&self) -> (s: Square)
        ensures
            s == self.from,
    {
        self.from
    }

    pub fn promotion(&self) -> (p: Option<Piece>)
        ensures
            p == self.promotion,
    {
        self.promotion
    }

    /// Parses a move in UCI notation: the origin square, the target square, and for a
    /// promotion the letter of the new piece, as in `e2e4` or `e7e8q`.
    pub fn from_uci(uci: &str) -> (r: Result<Self, String>)
        requires
            uci_cuts_ok(uci.spec_bytes()),
        ensures
            match r {
                Ok(m) => uci_result(uci@, uci.spec_bytes()) == Ok::<Move, Seq<char>>(m),
                Err(e) => uci_result(uci@, uci.spec_bytes()) == Err::<Move, Seq<char>>(e@),
            },
    {
        let bytes = uci.as_bytes();
        let len = bytes.len();
        if len != 4 && len != 5 {
            let mut e = "Invalid UCI move: ".to_owned();
            e.append(uci);
            return Err(e);
        }
        let ghost b = uci.spec_bytes();
        proof {
            vstd::utf8::encode_utf8_valid_utf8(uci@);
            vstd::utf8::is_char_boundary_iff_not_is_continuation_byte(b, 2);
            vstd::utf8::valid_utf8_split(b, 2);
            let rest = b.subrange(2, b.len() as int);
            if b.len() == 5 {
                vstd::utf8::is_char_boundary_iff_not_is_continuation_byte(rest, 2);
            } else {
                vstd::utf8::is_char_boundary_start_end_of_seq(rest);
            }
        }
        let (first, rest) = uci.split_at(2);
        let (second, _) = rest.split_at(2);
        assert(first.spec_bytes() =~= b.subrange(0, 2));
        assert(second.spec_bytes() =~= b.subrange(2, 4));
        let from = Square::from_algebraic(first)?;
        let to = Square::from_algebraic(second)?;
        let promotion = if len == 5 {
            let c = bytes[4];
            if c == 113 {
                Some(Piece::Queen)
            } else if c == 114 {
                Some(Piece::Rook)
            } else if c == 98 {
                Some(Piece::Bishop)
            } else if c == 110 {
                Some(Piece::Knight)
            } else {
                let mut e = "Invalid promotion piece: ".to_owned();
                push_char(&mut e, c as char);
                return Err(e);
            }
        } else {
            None
        };
        Ok(Self { from, to, promotion })
    }

    /// The move in UCI notation, such as `e2e4` or `e7e8q`.
    pub fn to_string(&self) -> (s: String)
        requires
            0 <= self.from.column <= 158,
            0 <= self.from.row <= 206,
            0 <= self.to.column <= 158,
            0 <= self.to.row <= 206,
            self.promotion != Some(Piece::Pawn),
            self.promotion != Some(Piece::King),
        ensures
            s@ == self.from.to_string_spec() + self.to.to_string_spec() + match self.promotion {
                Some(p) => seq![promotion_letter(p)],
                None => Seq::<char>::empty(),
            },
    {
        let mut s = self.from.to_string();
        let t = self.to.to_string();
        s.append(t.as_str());
        if let Some(promo) = self.promotion {
            let c = match promo {
                Piece::Queen => 'q',
                Piece::Rook => 'r',
                Piece::Bishop => 'b',
                _ => 'n',
            };
            push_char(&mut s, c);
        }
        s
    }
}

impl MoveResult {
    /// The name of the outcome.
    pub fn to_string(&self) -> (s: String)
        ensures
            s@ == (match self {
                MoveResult::Played => "Ok"@,
                MoveResult::Illegal => "Illegal"@,
                MoveResult::CheckMate => "Checkmate"@,
                MoveResult::Draw => "Draw"@,
            }),
    {
        match self {
            MoveResult::Played => "Ok".to_owned(),
            MoveResult::Illegal => "Illegal".to_owned(),
            MoveResult::CheckMate => "Checkmate".to_owned(),
            MoveResult::Draw => "Draw".to_owned(),
        }
    }
}

/// The characters of a move in UCI notation.
pub open spec fn uci_chars(m: Move) -> Seq<char> {
    m.from.to_string_spec() + m.to.to_string_spec() + match m.promotion {
        Some(p) => seq![promotion_letter(p)],
        None => Seq::<char>::empty(),
    }
}

/// A move that UCI notation can write: both squares on the board, and no promotion to a
/// pawn or a king.
pub open spec fn uci_writable(m: Move) -> bool {
    &&& m.from.on_board()
    &&& m.to.on_board()
    &&& m.promotion != Some(Piece::Pawn)
    &&& m.promotion != Some(Piece::King)
}

/// Reading back the name of a square of the board gives the square.
pub proof fn lemma_algebraic_round_trip(t: Square)
    requires
        t.on_board(),
    ensures
        vstd::utf8::is_ascii_chars(t.to_string_spec()),
        algebraic_result(vstd::utf8::encode_utf8(t.to_string_spec())) == Ok::<Square, Seq<char>>(t),
{
    let cs = t.to_string_spec();
    assert(vstd::utf8::is_ascii_chars(cs));
    vstd::utf8::is_ascii_chars_encode_utf8(cs);
    let b = vstd::utf8::encode_utf8(cs);
    assert(b[0] == cs[0] as u8 && b[1] == cs[1] as u8);
}

/// Writing a move in UCI notation and reading it back gives the move: what `Move::to_string`
/// writes, `Move::from_uci` accepts and turns into the same move.
pub proof fn lemma_uci_round_trip(m: Move)
    requires
        uci_writable(m),
    ensures
        uci_cuts_ok(vstd::utf8::encode_utf8(uci_chars(m))),
        uci_result(uci_chars(m), vstd::utf8::encode_utf8(uci_chars(m))) == Ok::<Move, Seq<char>>(m),
{
    let cs = uci_chars(m);
    let f = m.from.to_string_spec();
    let t = m.to.to_string_spec();
    lemma_algebraic_round_trip(m.from);
    lemma_algebraic_round_trip(m.to);
    assert(vstd::utf8::is_ascii_chars(cs));
    vstd::utf8::is_ascii_chars_encode_utf8(cs);
    vstd::utf8::is_ascii_chars_encode_utf8(f);
    vstd::utf8::is_ascii_chars_encode_utf8(t);
    let b = vstd::utf8::encode_utf8(cs);
    assert(b.subrange(0, 2) =~= vstd::utf8::encode_utf8(f)) by {
        assert(cs[0] == f[0] && cs[1] == f[1]);
    }
    assert(b.subrange(2, 4) =~= vstd::utf8::encode_utf8(t)) by {
        assert(cs[2] == t[0] && cs[3] == t[1]);
    }
    if m.promotion is Some {
        assert(b[4] == cs[4] as u8);
    }
}

/// A move that UCI notation names has both its squares on the board.
pub proof fn lemma_uci_squares_on_board(s: Seq<char>, b: Seq<u8>)
    ensures
        uci_result(s, b) matches Ok(m) ==> m.from.on_board() && m.to.on_board()
            && m.from.bitmap_ok() && m.to.bitmap_ok(),
{
}

} // verus!
