use vstd::prelude::*;
use crate::bits::{
    bit, is_set, lemma_and_bit_nonzero, lemma_bit_facts, lemma_is_set_and_not_bit,
    lemma_is_set_or, lemma_is_set_or_bit,
};
use crate::board::board::Board;
use crate::board::piece::{Color, Piece};
use crate::board::square::{Square, sq, squares_of};
use vstd::std_specs::bits::u64_trailing_zeros;
use vstd::string::StringExecFns;

verus! {

/// The pieces of one side as bitboards, one per piece kind, and the square that its last
/// pawn double step skipped (0 when there is none).
#[derive(Clone, Copy, PartialEq, Eq, Debug, Structural)]
pub struct PieceSet {
    pub pawns: u64,
    pub rooks: u64,
    pub knights: u64,
    pub bishops: u64,
    pub queens: u64,
    pub king: u64,
    pub en_passant: u64,
}

/// The square of the lowest set bit of `bb`, or row 8 column 0 when `bb` is 0.
pub open spec fn lowest_square(bb: u64) -> Square {
    let i = u64_trailing_zeros(bb) as int;
    sq(i / 8, i % 8)
}

/// The squares `find_piece` gives for a kind come in strictly increasing index order (by row,
/// then by column), each once, and a square of the board is among them exactly when a piece
/// of that kind stands there.
pub proof fn lemma_find_piece_exact(ps: PieceSet, piece: Piece)
    ensures
        forall|j: int, k: int|
            0 <= j < k < squares_of(ps.bb(piece)).len() ==> (#[trigger] squares_of(ps.bb(piece))[j]).index()
                < (#[trigger] squares_of(ps.bb(piece))[k]).index(),
        forall|t: Square|
            t.on_board() ==> (squares_of(ps.bb(piece)).contains(t) <==> ps.has_piece(piece, t.index())),
{
    crate::board::square::lemma_squares_of_exact(ps.bb(piece));
}

/// The pieces of `color` in the starting position.
pub open spec fn initial_piece_set(color: Color) -> PieceSet {
    match color {
        Color::White => PieceSet {
            pawns: 0xff00,
            rooks: 0x81,
            knights: 0x42,
            bishops: 0x24,
            queens: 0x08,
            king: 0x10,
            en_passant: 0,
        },
        Color::Black => PieceSet {
            pawns: 0x00ff_0000_0000_0000,
            rooks: 0x8100_0000_0000_0000,
            knights: 0x4200_0000_0000_0000,
            bishops: 0x2400_0000_0000_0000,
            queens: 0x0800_0000_0000_0000,
            king: 0x1000_0000_0000_0000,
            en_passant: 0,
        },
    }
}

/// The 64 binary digits of `x`, the highest first.
pub open spec fn binary_digits(x: u64) -> Seq<char> {
    Seq::new(64, |i: int| if is_set(x, 63 - i) { '1' } else { '0' })
}

/// The text form of a piece set: one line per bitboard, in binary.
pub open spec fn piece_set_text(ps: PieceSet) -> Seq<char> {
    "Pawns:      "@ + binary_digits(ps.pawns) + seq!['\n'] + "Rooks:      "@ + binary_digits(ps.rooks)
        + seq!['\n'] + "Knights:    "@ + binary_digits(ps.knights) + seq!['\n'] + "Bishops:    "@
        + binary_digits(ps.bishops) + seq!['\n'] + "Queens:     "@ + binary_digits(ps.queens) + seq![
        '\n',
    ] + "King:       "@ + binary_digits(ps.king) + seq!['\n'] + "En Passant: "@ + binary_digits(
        ps.en_passant,
    ) + seq!['\n']
}

/// Appends the 64 binary digits of `x`, the highest first.
fn push_binary(s: &mut String, x: u64)
    ensures
        final(s)@ == old(s)@ + binary_digits(x),
{
    let mut i: u64 = 0;
    while i < 64
        invariant
            i <= 64,
            s@ == old(s)@ + binary_digits(x).take(i as int),
        decreases 64 - i,
    {
        let bit_set = (x >> (63 - i)) & 1 == 1;
        let c = if bit_set {
            '1'
        } else {
            '0'
        };
        crate::text::push_char(s, c);
        assert(binary_digits(x).take((i + 1) as int) =~= binary_digits(x).take(i as int).push(c));
        i = i + 1;
    }
    assert(binary_digits(x).take(64) =~= binary_digits(x));
}

impl PieceSet {
    /// The bitboard of `piece`.
    pub open spec fn bb(self, piece: Piece) -> u64 {
        match piece {
            Piece::Pawn => self.pawns,
            Piece::Rook => self.rooks,
            Piece::Knight => self.knights,
            Piece::Bishop => self.bishops,
            Piece::Queen => self.queens,
            Piece::King => self.king,
        }
    }

    /// A piece of kind `piece` stands on the square of index `i`.
    pub open spec fn has_piece(self, piece: Piece, i: int) -> bool {
        is_set(self.bb(piece), i)
    }

    /// Some piece stands on the square of index `i`.
    pub open spec fn occupied_at(self, i: int) -> bool {
        self.has_piece(Piece::Pawn, i) || self.has_piece(Piece::Rook, i) || self.has_piece(
            Piece::Knight,
            i,
        ) || self.has_piece(Piece::Bishop, i) || self.has_piece(Piece::Queen, i)
            || self.has_piece(Piece::King, i)
    }

    /// The piece on the square of index `i`; where bitboards overlap, the first of pawn,
    /// rook, knight, bishop, queen and king.
    pub open spec fn piece_at(self, i: int) -> Option<Piece> {
        if self.has_piece(Piece::Pawn, i) {
            Some(Piece::Pawn)
        } else if self.has_piece(Piece::Rook, i) {
            Some(Piece::Rook)
        } else if self.has_piece(Piece::Knight, i) {
            Some(Piece::Knight)
        } else if self.has_piece(Piece::Bishop, i) {
            Some(Piece::Bishop)
        } else if self.has_piece(Piece::Queen, i) {
            Some(Piece::Queen)
        } else if self.has_piece(Piece::King, i) {
            Some(Piece::King)
        } else {
            None
        }
    }

    /// The square of index `i` is the en passant square of this side.
    pub open spec fn en_passant_at(self, i: int) -> bool {
        self.en_passant != 0 && bit(i) == self.en_passant
    }

    /// The set with `piece` added on the square of index `i`.
    pub open spec fn added(self, i: int, piece: Piece) -> PieceSet {
        match piece {
            Piece::Pawn => PieceSet { pawns: self.pawns | bit(i), ..self },
            Piece::Rook => PieceSet { rooks: self.rooks | bit(i), ..self },
            Piece::Knight => PieceSet { knights: self.knights | bit(i), ..self },
            Piece::Bishop => PieceSet { bishops: self.bishops | bit(i), ..self },
            Piece::Queen => PieceSet { queens: self.queens | bit(i), ..self },
            Piece::King => PieceSet { king: self.king | bit(i), ..self },
        }
    }

    /// The set with every piece on the square of index `i` taken away.
    pub open spec fn removed(self, i: int) -> PieceSet {
        PieceSet {
            pawns: self.pawns & !bit(i),
            rooks: self.rooks & !bit(i),
            knights: self.knights & !bit(i),
            bishops: self.bishops & !bit(i),
            queens: self.queens & !bit(i),
            king: self.king & !bit(i),
            en_passant: self.en_passant,
        }
    }

    /// The square of the en passant marker, if there is one.
    pub open spec fn en_passant_square(self) -> Option<Square> {
        if self.en_passant == 0 {
            None
        } else {
            Some(lowest_square(self.en_passant))
        }
    }

    pub fn _empty() -> (s: Self)
        ensures
            s == (PieceSet {
                pawns: 0,
                rooks: 0,
                knights: 0,
                bishops: 0,
                queens: 0,
                king: 0,
                en_passant: 0,
            }),
    {
        Self { pawns: 0, rooks: 0, knights: 0, bishops: 0, queens: 0, king: 0, en_passant: 0 }
    }

    /// The pieces of `color` in the starting position: pawns on its pawn row, and rook,
    /// knight, bishop, queen, king, bishop, knight, rook along its piece row.
    pub fn new(color: Color) -> (s: Self)
        ensures
            s == initial_piece_set(color),
    {
        let (pawn_row, piece_row) = match color {
            Color::Black => (Board::BLACK_PAWN_ROW, Board::BLACK_PIECE_ROW),
            Color::White => (Board::WHITE_PAWN_ROW, Board::WHITE_PIECE_ROW),
        };
        let mut pawns: u64 = 0;
        let mut column: i8 = 0;
        proof {
            let r = pawn_row as u64;
            assert(r < 8 ==> (((1u64 << 0u64) - 1) as u64) << ((8 * r) as u64) == 0u64) by (bit_vector);
        }
        while column <= 7
            invariant
                0 <= column <= 8,
                pawn_row == 1 || pawn_row == 6,
                pawns == (((1u64 << (column as u64)) - 1) as u64) << ((8 * pawn_row) as u64),
            decreases 8 - column,
        {
            let b = Square::coords_to_bitmap(pawn_row, column);
            proof {
                let c = column as u64;
                let r = pawn_row as u64;
                assert(c < 8 && r < 8 ==> ((((1u64 << c) - 1) as u64) << ((8 * r) as u64)) | (1u64
                    << ((c + r * 8) as u64)) == (((1u64 << ((c + 1) as u64)) - 1) as u64) << ((8
                    * r) as u64)) by (bit_vector);
            }
            pawns = pawns | b;
            column = column + 1;
        }
        let mut rooks: u64 = 0;
        rooks = rooks | Square::coords_to_bitmap(piece_row, 0);
        rooks = rooks | Square::coords_to_bitmap(piece_row, 7);
        let mut knights: u64 = 0;
        knights = knights | Square::coords_to_bitmap(piece_row, 1);
        knights = knights | Square::coords_to_bitmap(piece_row, 6);
        let mut bishops: u64 = 0;
        bishops = bishops | Square::coords_to_bitmap(piece_row, 2);
        bishops = bishops | Square::coords_to_bitmap(piece_row, 5);
        let queens = Square::coords_to_bitmap(piece_row, 3);
        let king = Square::coords_to_bitmap(piece_row, 4);
        proof {
            assert((((1u64 << 8u64) - 1) as u64) << 8u64 == 0xff00u64 && (((1u64 << 8u64) - 1) as u64)
                << 48u64 == 0x00ff_0000_0000_0000u64 && (0u64 | (1u64 << 0u64)) | (1u64 << 7u64)
                == 0x81u64 && (0u64 | (1u64 << 1u64)) | (1u64 << 6u64) == 0x42u64 && (0u64 | (1u64
                << 2u64)) | (1u64 << 5u64) == 0x24u64 && 1u64 << 3u64 == 0x08u64 && 1u64 << 4u64
                == 0x10u64 && (0u64 | (1u64 << 56u64)) | (1u64 << 63u64) == 0x8100_0000_0000_0000u64
                && (0u64 | (1u64 << 57u64)) | (1u64 << 62u64) == 0x4200_0000_0000_0000u64 && (0u64
                | (1u64 << 58u64)) | (1u64 << 61u64) == 0x2400_0000_0000_0000u64 && 1u64 << 59u64
                == 0x0800_0000_0000_0000u64 && 1u64 << 60u64 == 0x1000_0000_0000_0000u64)
                by (bit_vector);
        }
        Self { pawns, rooks, knights, bishops, queens, king, en_passant: 0 }
    }

    pub fn is_occupied(&self, square: Square) -> (b: bool)
        requires
            square.bitmap_ok(),
        ensures
            b == self.occupied_at(square.index()),
    {
        let square_bb = square.to_bitmap();
        let pieces = self.pawns | self.rooks | self.knights | self.bishops | self.queens
            | self.king;
        proof {
            let i = square.index();
            lemma_and_bit_nonzero(pieces, i);
            lemma_is_set_or(self.pawns | self.rooks | self.knights | self.bishops | self.queens, self.king, i);
            lemma_is_set_or(self.pawns | self.rooks | self.knights | self.bishops, self.queens, i);
            lemma_is_set_or(self.pawns | self.rooks | self.knights, self.bishops, i);
            lemma_is_set_or(self.pawns | self.rooks, self.knights, i);
            lemma_is_set_or(self.pawns, self.rooks, i);
        }
        pieces & square_bb != 0
    }

    pub fn is_en_passant(&self, square: Square) -> (b: bool)
        requires
            square.bitmap_ok(),
        ensures
            b == self.en_passant_at(square.index()),
    {
        self.en_passant != 0 && square.to_bitmap() == self.en_passant
    }

    pub fn remove_piece(&mut self, square: Square)
        requires
            square.bitmap_ok(),
        ensures
            *final(self) == old(self).removed(square.index()),
    {
        let mask = !square.to_bitmap();
        self.pawns = self.pawns & mask;
        self.rooks = self.rooks & mask;
        self.knights = self.knights & mask;
        self.bishops = self.bishops & mask;
        self.queens = self.queens & mask;
        self.king = self.king & mask;
    }

    pub fn add_piece(&mut self, square: Square, piece: Piece)
        requires
            square.bitmap_ok(),
        ensures
            *final(self) == old(self).added(square.index(), piece),
    {
        let square_bb = square.to_bitmap();
        match piece {
            Piece::Pawn => self.pawns = self.pawns | square_bb,
            Piece::Rook => self.rooks = self.rooks | square_bb,
            Piece::Knight => self.knights = self.knights | square_bb,
            Piece::Bishop => self.bishops = self.bishops | square_bb,
            Piece::Queen => self.queens = self.queens | square_bb,
            Piece::King => self.king = self.king | square_bb,
        }
    }

    pub fn set_en_passant(&mut self, square: Square)
        requires
            square.bitmap_ok(),
        ensures
            *final(self) == (PieceSet { en_passant: bit(square.index()), ..*old(self) }),
    {
        self.en_passant = square.to_bitmap();
    }

    pub fn unset_en_passant(&mut self)
        ensures
            *final(self) == (PieceSet { en_passant: 0, ..*old(self) }),
    {
        self.en_passant = 0;
    }

    /// The squares of the pieces of kind `piece`, from index 0 upwards.
    pub fn find_piece(&self, piece: Piece) -> (squares: Vec<Square>)
        ensures
            squares@ == squares_of(self.bb(piece)),
    {
        match piece {
            Piece::Pawn => Square::from_bitmap(self.pawns),
            Piece::Rook => Square::from_bitmap(self.rooks),
            Piece::Knight => Square::from_bitmap(self.knights),
            Piece::Bishop => Square::from_bitmap(self.bishops),
            Piece::Queen => Square::from_bitmap(self.queens),
            Piece::King => Square::from_bitmap(self.king),
        }
    }

    pub fn is_piece_type_on(&self, piece: Piece, square: Square) -> (b: bool)
        requires
            square.bitmap_ok(),
        ensures
            b == self.has_piece(piece, square.index()),
    {
        let square_bb = square.to_bitmap();
        proof {
            lemma_and_bit_nonzero(self.bb(piece), square.index());
        }
        match piece {
            Piece::Pawn => square_bb & self.pawns != 0,
            Piece::Rook => square_bb & self.rooks != 0,
            Piece::Knight => square_bb & self.knights != 0,
            Piece::Bishop => square_bb & self.bishops != 0,
            Piece::Queen => square_bb & self.queens != 0,
            Piece::King => square_bb & self.king != 0,
        }
    }

    /// True when the queen bitboard is empty.
    pub fn has_queen(&self) -> (b: bool)
        ensures
            b == (self.queens == 0),
    {
        self.queens == 0
    }

    /// True when the rook, knight and bishop bitboards are all empty.
    pub fn has_minor_pieces(&self) -> (b: bool)
        ensures
            b == (self.rooks | self.knights | self.bishops == 0),
    {
        self.rooks | self.knights | self.bishops == 0
    }

    pub fn get(&self, square: Square) -> (p: Option<Piece>)
        requires
            square.bitmap_ok(),
        ensures
            p == self.piece_at(square.index()),
    {
        let square_bb = square.to_bitmap();
        proof {
            let i = square.index();
            lemma_and_bit_nonzero(self.pawns, i);
            lemma_and_bit_nonzero(self.rooks, i);
            lemma_and_bit_nonzero(self.knights, i);
            lemma_and_bit_nonzero(self.bishops, i);
            lemma_and_bit_nonzero(self.queens, i);
            lemma_and_bit_nonzero(self.king, i);
        }
        if self.pawns & square_bb != 0 {
            Some(Piece::Pawn)
        } else if self.rooks & square_bb != 0 {
            Some(Piece::Rook)
        } else if self.knights & square_bb != 0 {
            Some(Piece::Knight)
        } else if self.bishops & square_bb != 0 {
            Some(Piece::Bishop)
        } else if self.queens & square_bb != 0 {
            Some(Piece::Queen)
        } else if self.king & square_bb != 0 {
            Some(Piece::King)
        } else {
            None
        }
    }

    /// The square of the lowest king, or row 8 column 0 when there is none.
    pub fn find_king(&self) -> (s: Square)
        ensures
            s == lowest_square(self.king),
    {
        let index = self.king.trailing_zeros();
        proof {
            vstd::std_specs::bits::axiom_u64_trailing_zeros(self.king);
        }
        let row = index / 8;
        let col = index % 8;
        Square::new(row as i8, col as i8)
    }

    pub fn find_en_passant(&self) -> (s: Option<Square>)
        ensures
            s == self.en_passant_square(),
    {
        if self.en_passant == 0 {
            return None;
        }
        let index = self.en_passant.trailing_zeros();
        proof {
            vstd::std_specs::bits::axiom_u64_trailing_zeros(self.en_passant);
        }
        let row = index / 8;
        let col = index % 8;
        Some(Square::new(row as i8, col as i8))
    }

    /// The bitboards in binary, one line each.
    pub fn to_string(&self) -> (s: String)
        ensures
            s@ == piece_set_text(*self),
    {
        let mut s = "Pawns:      ".to_owned();
        push_binary(&mut s, self.pawns);
        crate::text::push_char(&mut s, '\n');
        s.append("Rooks:      ");
        push_binary(&mut s, self.rooks);
        crate::text::push_char(&mut s, '\n');
        s.append("Knights:    ");
        push_binary(&mut s, self.knights);
        crate::text::push_char(&mut s, '\n');
        s.append("Bishops:    ");
        push_binary(&mut s, self.bishops);
        crate::text::push_char(&mut s, '\n');
        s.append("Queens:     ");
        push_binary(&mut s, self.queens);
        crate::text::push_char(&mut s, '\n');
        s.append("King:       ");
        push_binary(&mut s, self.king);
        crate::text::push_char(&mut s, '\n');
        s.append("En Passant: ");
        push_binary(&mut s, self.en_passant);
        crate::text::push_char(&mut s, '\n');
        s
    }
}

} // verus!
