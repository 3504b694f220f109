use vstd::prelude::*;
use crate::board::square::Square;
use core::ops::Not;

verus! {

/// A kind of chess piece. Pieces are ordered Pawn < Knight < Bishop < Rook < Queen < King.
#[derive(Clone, Copy, PartialEq, Eq, Debug, Ord, Structural)]
pub enum Piece {
    Pawn,
    Knight,
    Bishop,
    Rook,
    Queen,
    King,
}

/// The piece kinds in the order in which move generation and hashing visit them.
pub const PIECE_TYPES: [Piece; 6] = [
    Piece::Pawn,
    Piece::Rook,
    Piece::Knight,
    Piece::Bishop,
    Piece::Queen,
    Piece::King,
];

pub open spec fn piece_types() -> Seq<Piece> {
    seq![Piece::Pawn, Piece::Rook, Piece::Knight, Piece::Bishop, Piece::Queen, Piece::King]
}

#[derive(Clone, Copy, PartialEq, Eq, Debug, Structural)]
pub enum Color {
    White,
    Black,
}

pub open spec fn opposite(c: Color) -> Color {
    match c {
        Color::White => Color::Black,
        Color::Black => Color::White,
    }
}

impl Not for Color {
    type Output = Self;

    fn not(self) -> (r: Self::Output)
        ensures
            r == opposite(self),
    {
        match self {
            Color::White => Color::Black,
            Color::Black => Color::White,
        }
    }
}

impl vstd::std_specs::ops::NotSpecImpl for Color {
    open spec fn obeys_not_spec() -> bool {
        true
    }

    open spec fn not_req(self) -> bool {
        true
    }

    open spec fn not_spec(self) -> Self {
        opposite(self)
    }
}

impl Color {
    /// The name of the color.
    pub fn to_string(&self) -> (s: String)
        ensures
            s@ == (match self {
                Color::White => "White"@,
                Color::Black => "Black"@,
            }),
    {
        match self {
            Color::White => "White".to_owned(),
            Color::Black => "Black".to_owned(),
        }
    }
}

/// The chess symbol of a piece.
pub open spec fn glyph(p: Piece) -> Seq<char> {
    match p {
        Piece::King => "\u{265A}"@,
        Piece::Queen => "\u{265B}"@,
        Piece::Rook => "\u{265C}"@,
        Piece::Knight => "\u{265E}"@,
        Piece::Bishop => "\u{265D}"@,
        Piece::Pawn => "\u{265F}"@,
    }
}

/// The index of a piece kind in the hash tables: Pawn 0, Rook 1, Knight 2, Bishop 3, Queen 4, King 5.
pub open spec fn piece_index(p: Piece) -> int {
    match p {
        Piece::Pawn => 0,
        Piece::Rook => 1,
        Piece::Knight => 2,
        Piece::Bishop => 3,
        Piece::Queen => 4,
        Piece::King => 5,
    }
}

pub open spec fn pawn_table() -> Seq<int> {
    seq![
         0,  0,  0,  0,  0,  0,  0,  0,
         50, 50, 50, 50, 50, 50, 50, 50,
         10, 10, 20, 30, 30, 20, 10, 10,
         5,  5, 10, 25, 25, 10,  5,  5,
         0,  0,  0, 20, 20,  0,  0,  0,
         5, -5,-10,  0,  0,-10, -5,  5,
         5, 10, 10,-20,-20, 10, 10,  5,
         0,  0,  0,  0,  0,  0,  0,  0
    ]
}

pub open spec fn rook_table() -> Seq<int> {
    seq![
        0,  0,  0,  0,  0,  0,  0,  0,
        5, 10, 10, 10, 10, 10, 10,  5,
        -5,  0,  0,  0,  0,  0,  0, -5,
        -5,  0,  0,  0,  0,  0,  0, -5,
        -5,  0,  0,  0,  0,  0,  0, -5,
        -5,  0,  0,  0,  0,  0,  0, -5,
        -5,  0,  0,  0,  0,  0,  0, -5,
        0,  0,  0,  5,  5,  0,  0,  0
    ]
}

pub open spec fn knight_table() -> Seq<int> {
    seq![
        -50,-40,-30,-30,-30,-30,-40,-50,
        -40,-20,  0,  0,  0,  0,-20,-40,
        -30,  0, 10, 15, 15, 10,  0,-30,
        -30,  5, 15, 20, 20, 15,  5,-30,
        -30,  0, 15, 20, 20, 15,  0,-30,
        -30,  5, 10, 15, 15, 10,  5,-30,
        -40,-20,  0,  5,  5,  0,-20,-40,
        -50,-40,-30,-30,-30,-30,-40,-50
    ]
}

pub open spec fn bishop_table() -> Seq<int> {
    seq![
        -20,-10,-10,-10,-10,-10,-10,-20,
        -10,  0,  0,  0,  0,  0,  0,-10,
        -10,  0,  5, 10, 10,  5,  0,-10,
        -10,  5,  5, 10, 10,  5,  5,-10,
        -10,  0, 10, 10, 10, 10,  0,-10,
        -10, 10, 10, 10, 10, 10, 10,-10,
        -10,  5,  0,  0,  0,  0,  5,-10,
        -20,-10,-10,-10,-10,-10,-10,-20
    ]
}

pub open spec fn king_table() -> Seq<int> {
    seq![
        -30,-40,-40,-50,-50,-40,-40,-30,
        -30,-40,-40,-50,-50,-40,-40,-30,
        -30,-40,-40,-50,-50,-40,-40,-30,
        -30,-40,-40,-50,-50,-40,-40,-30,
        -20,-30,-30,-40,-40,-30,-30,-20,
        -10,-20,-20,-20,-20,-20,-20,-10,
        20, 20,  0,  0,  0,  0, 20, 20,
        20, 30, 10,  0,  0, 10, 30, 20
    ]
}

pub open spec fn king_table_endgame() -> Seq<int> {
    seq![
        -30,-40,-40,-50,-50,-40,-40,-30,
        -30,-40,-40,-50,-50,-40,-40,-30,
        -30,-40,-40,-50,-50,-40,-40,-30,
        -30,-40,-40,-50,-50,-40,-40,-30,
        -20,-30,-30,-40,-40,-30,-30,-20,
        -10,-20,-20,-20,-20,-20,-20,-10,
        20, 20,  0,  0,  0,  0, 20, 20,
        20, 30, 10,  0,  0, 10, 30, 20
    ]
}

pub open spec fn queen_table() -> Seq<int> {
    seq![
        -20,-10,-10, -5, -5,-10,-10,-20,
        -10,  0,  0,  0,  0,  0,  0,-10,
        -10,  0,  5,  5,  5,  5,  0,-10,
        -5,  0,  5,  5,  5,  5,  0, -5,
        0,  0,  5,  5,  5,  5,  0, -5,
        -10,  5,  5,  5,  5,  5,  0,-10,
        -10,  0,  5,  0,  0,  0,  0,-10,
        -20,-10,-10, -5, -5,-10,-10,-20
    ]
}

/// The table index of the square with bitboard index `index`, seen from the side of `color`:
/// black's tables are mirrored top to bottom.
pub open spec fn table_index(index: int, color: Color) -> int {
    match color {
        Color::White => index,
        Color::Black => (index as usize ^ 56usize) as int,
    }
}

/// The material plus placement value of `piece` on the square of table index `i`.
pub open spec fn piece_value(piece: Piece, i: int, endgame: bool) -> int {
    match piece {
        Piece::Pawn => 100 + pawn_table()[i],
        Piece::Rook => 500 + rook_table()[i],
        Piece::Knight => 320 + knight_table()[i],
        Piece::Bishop => 330 + bishop_table()[i],
        Piece::Queen => 900 + queen_table()[i],
        Piece::King => if endgame {
            king_table_endgame()[i]
        } else {
            king_table()[i]
        },
    }
}

fn table_entry(piece: Piece, i: usize, endgame: bool) -> (v: isize)
    requires
        i < 64,
    ensures
        v == piece_value(piece, i as int, endgame),
{
    match piece {
        Piece::Pawn => {
            let table: [isize; 64] = [
         0,  0,  0,  0,  0,  0,  0,  0,
         50, 50, 50, 50, 50, 50, 50, 50,
         10, 10, 20, 30, 30, 20, 10, 10,
         5,  5, 10, 25, 25, 10,  5,  5,
         0,  0,  0, 20, 20,  0,  0,  0,
         5, -5,-10,  0,  0,-10, -5,  5,
         5, 10, 10,-20,-20, 10, 10,  5,
         0,  0,  0,  0,  0,  0,  0,  0
    ];
            assert(table@ == pawn_table().map_values(|v: int| v as isize));
            assert(table@[i as int] == pawn_table().map_values(|v: int| v as isize)[i as int]);
            100 + table[i]
        },
        Piece::Rook => {
            let table: [isize; 64] = [
        0,  0,  0,  0,  0,  0,  0,  0,
        5, 10, 10, 10, 10, 10, 10,  5,
        -5,  0,  0,  0,  0,  0,  0, -5,
        -5,  0,  0,  0,  0,  0,  0, -5,
        -5,  0,  0,  0,  0,  0,  0, -5,
        -5,  0,  0,  0,  0,  0,  0, -5,
        -5,  0,  0,  0,  0,  0,  0, -5,
        0,  0,  0,  5,  5,  0,  0,  0
    ];
            assert(table@ == rook_table().map_values(|v: int| v as isize));
            assert(table@[i as int] == rook_table().map_values(|v: int| v as isize)[i as int]);
            500 + table[i]
        },
        Piece::Knight => {
            let table: [isize; 64] = [
        -50,-40,-30,-30,-30,-30,-40,-50,
        -40,-20,  0,  0,  0,  0,-20,-40,
        -30,  0, 10, 15, 15, 10,  0,-30,
        -30,  5, 15, 20, 20, 15,  5,-30,
        -30,  0, 15, 20, 20, 15,  0,-30,
        -30,  5, 10, 15, 15, 10,  5,-30,
        -40,-20,  0,  5,  5,  0,-20,-40,
        -50,-40,-30,-30,-30,-30,-40,-50
    ];
            assert(table@ == knight_table().map_values(|v: int| v as isize));
            assert(table@[i as int] == knight_table().map_values(|v: int| v as isize)[i as int]);
            320 + table[i]
        },
        Piece::Bishop => {
            let table: [isize; 64] = [
        -20,-10,-10,-10,-10,-10,-10,-20,
        -10,  0,  0,  0,  0,  0,  0,-10,
        -10,  0,  5, 10, 10,  5,  0,-10,
        -10,  5,  5, 10, 10,  5,  5,-10,
        -10,  0, 10, 10, 10, 10,  0,-10,
        -10, 10, 10, 10, 10, 10, 10,-10,
        -10,  5,  0,  0,  0,  0,  5,-10,
        -20,-10,-10,-10,-10,-10,-10,-20
    ];
            assert(table@ == bishop_table().map_values(|v: int| v as isize));
            assert(table@[i as int] == bishop_table().map_values(|v: int| v as isize)[i as int]);
            330 + table[i]
        },
        Piece::Queen => {
            let table: [isize; 64] = [
        -20,-10,-10, -5, -5,-10,-10,-20,
        -10,  0,  0,  0,  0,  0,  0,-10,
        -10,  0,  5,  5,  5,  5,  0,-10,
        -5,  0,  5,  5,  5,  5,  0, -5,
        0,  0,  5,  5,  5,  5,  0, -5,
        -10,  5,  5,  5,  5,  5,  0,-10,
        -10,  0,  5,  0,  0,  0,  0,-10,
        -20,-10,-10, -5, -5,-10,-10,-20
    ];
            assert(table@ == queen_table().map_values(|v: int| v as isize));
            assert(table@[i as int] == queen_table().map_values(|v: int| v as isize)[i as int]);
            900 + table[i]
        },
        Piece::King => {
            if endgame {
                let table: [isize; 64] = [
        -30,-40,-40,-50,-50,-40,-40,-30,
        -30,-40,-40,-50,-50,-40,-40,-30,
        -30,-40,-40,-50,-50,-40,-40,-30,
        -30,-40,-40,-50,-50,-40,-40,-30,
        -20,-30,-30,-40,-40,-30,-30,-20,
        -10,-20,-20,-20,-20,-20,-20,-10,
        20, 20,  0,  0,  0,  0, 20, 20,
        20, 30, 10,  0,  0, 10, 30, 20
    ];
                assert(table@ == king_table_endgame().map_values(|v: int| v as isize));
                assert(table@[i as int] == king_table_endgame().map_values(|v: int| v as isize)[i as int]);
                table[i]
            } else {
                let table: [isize; 64] = [
        -30,-40,-40,-50,-50,-40,-40,-30,
        -30,-40,-40,-50,-50,-40,-40,-30,
        -30,-40,-40,-50,-50,-40,-40,-30,
        -30,-40,-40,-50,-50,-40,-40,-30,
        -20,-30,-30,-40,-40,-30,-30,-20,
        -10,-20,-20,-20,-20,-20,-20,-10,
        20, 20,  0,  0,  0,  0, 20, 20,
        20, 30, 10,  0,  0, 10, 30, 20
    ];
                assert(table@ == king_table().map_values(|v: int| v as isize));
                assert(table@[i as int] == king_table().map_values(|v: int| v as isize)[i as int]);
                table[i]
            }
        },
    }
}

impl Piece {
    /// The value of this piece on `square` for `color`: its material value plus the entry of
    /// its placement table, read from that side of the board.
    pub fn value(&self, square: Square, color: Color, endgame: bool) -> (v: isize)
        requires
            square.bitmap_ok(),
        ensures
            v == piece_value(*self, table_index(square.index(), color), endgame),
    {
        let square_index = match color {
            Color::White => square.to_index(),
            Color::Black => {
                let i = square.to_index();
                assert(i < 64 ==> i ^ 56usize < 64) by (bit_vector);
                i ^ 56
            },
        };
        table_entry(*self, square_index, endgame)
    }

    /// The symbol with which the piece is drawn.
    pub fn to_string(&self) -> (s: String)
        ensures
            s@ == glyph(*self),
    {
        match self {
            Piece::King => "\u{265A}".to_owned(),
            Piece::Queen => "\u{265B}".to_owned(),
            Piece::Rook => "\u{265C}".to_owned(),
            Piece::Knight => "\u{265E}".to_owned(),
            Piece::Bishop => "\u{265D}".to_owned(),
            Piece::Pawn => "\u{265F}".to_owned(),
        }
    }

    pub fn to_index(&self) -> (i: usize)
        ensures
            i == piece_index(*self),
    {
        match self {
            Piece::Pawn => 0,
            Piece::Rook => 1,
            Piece::Knight => 2,
            Piece::Bishop => 3,
            Piece::Queen => 4,
            Piece::King => 5,
        }
    }
}

} // verus!
