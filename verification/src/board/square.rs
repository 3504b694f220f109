use vstd::prelude::*;
use crate::bits::{bit, is_set};
use crate::text::push_char;
use vstd::string::StringSliceAdditionalSpecFns;

verus! {

// Byte values: 97 is `a`, 104 is `h`, 49 is `1`, 56 is `8`.

/// A square of the board, by row (rank, 0 for rank 1) and column (file, 0 for file a).
#[derive(Clone, Copy, PartialEq, Eq, Debug, Default, PartialOrd, Ord, Structural)]
pub struct Square {
    pub row: i8,
    pub column: i8,
}

/// The square with the given row and column.
pub open spec fn sq(row: int, column: int) -> Square {
    Square { row: row as i8, column: column as i8 }
}

/// The square whose bitboard index is `i` (`0 <= i < 64`).
pub open spec fn square_of_index(i: int) -> Square {
    sq(i / 8, i % 8)
}

/// The squares set in `bb` among the indices below `n`, in increasing index order.
pub open spec fn squares_upto(bb: u64, n: nat) -> Seq<Square>
    decreases n,
{
    if n == 0 {
        seq![]
    } else {
        let rest = squares_upto(bb, (n - 1) as nat);
        if is_set(bb, n - 1) {
            rest.push(square_of_index(n - 1))
        } else {
            rest
        }
    }
}

/// The squares set in `bb`, in increasing index order.
pub open spec fn squares_of(bb: u64) -> Seq<Square> {
    squares_upto(bb, 64)
}

pub proof fn lemma_square_of_index(i: int)
    requires
        0 <= i < 64,
    ensures
        square_of_index(i).on_board(),
        square_of_index(i).bitmap_ok(),
        square_of_index(i).index() == i,
{
    assert(0 <= i / 8 < 8 && 0 <= i % 8 < 8 && i % 8 + (i / 8) * 8 == i) by (nonlinear_arith)
        requires
            0 <= i < 64,
    ;
}

pub proof fn lemma_squares_upto(bb: u64, n: nat)
    requires
        n <= 64,
    ensures
        forall|k: int|
            0 <= k < squares_upto(bb, n).len() ==> (#[trigger] squares_upto(bb, n)[k]).on_board()
                && squares_upto(bb, n)[k].bitmap_ok() && is_set(bb, squares_upto(bb, n)[k].index()),
        bb == 0 ==> squares_upto(bb, n).len() == 0,
        squares_upto(bb, n).len() <= n,
    decreases n,
{
    if n > 0 {
        lemma_squares_upto(bb, (n - 1) as nat);
        crate::bits::lemma_is_set_zero(n - 1);
        lemma_square_of_index(n - 1);
        let rest = squares_upto(bb, (n - 1) as nat);
        assert forall|k: int| 0 <= k < squares_upto(bb, n).len() implies (#[trigger] squares_upto(
            bb,
            n,
        )[k]).on_board() && squares_upto(bb, n)[k].bitmap_ok() && is_set(
            bb,
            squares_upto(bb, n)[k].index(),
        ) by {
            if k < rest.len() {
                assert(squares_upto(bb, n)[k] == rest[k]);
            }
        }
    }
}

/// A square on the board is the square of its index.
pub proof fn lemma_index_square(t: Square)
    requires
        t.on_board(),
    ensures
        square_of_index(t.index()) == t,
        0 <= t.index() < 64,
{
    let (r, c) = (t.row as int, t.column as int);
    assert((c + r * 8) / 8 == r && (c + r * 8) % 8 == c) by (nonlinear_arith)
        requires
            0 <= r <= 7,
            0 <= c <= 7,
    ;
}

/// The squares set in `bb` below index `n` come in strictly increasing index order, all
/// below `n`, and a square below `n` is among them exactly when its bit is set.
proof fn lemma_squares_upto_exact(bb: u64, n: nat)
    requires
        n <= 64,
    ensures
        forall|k: int|
            0 <= k < squares_upto(bb, n).len() ==> (#[trigger] squares_upto(bb, n)[k]).index() < n,
        forall|j: int, k: int|
            0 <= j < k < squares_upto(bb, n).len() ==> (#[trigger] squares_upto(bb, n)[j]).index()
                < (#[trigger] squares_upto(bb, n)[k]).index(),
        forall|t: Square|
            t.on_board() && t.index() < n ==> (squares_upto(bb, n).contains(t) <==> is_set(
                bb,
                t.index(),
            )),
    decreases n,
{
    lemma_squares_upto(bb, n);
    if n > 0 {
        lemma_squares_upto_exact(bb, (n - 1) as nat);
        lemma_square_of_index(n - 1);
        let rest = squares_upto(bb, (n - 1) as nat);
        let all = squares_upto(bb, n);
        assert forall|k: int| 0 <= k < all.len() implies (#[trigger] all[k]).index() < n by {
            if k < rest.len() {
                assert(all[k] == rest[k]);
            }
        }
        assert forall|j: int, k: int| 0 <= j < k < all.len() implies (#[trigger] all[j]).index()
            < (#[trigger] all[k]).index() by {
            assert(all[j] == rest[j]);
            if k < rest.len() {
                assert(all[k] == rest[k]);
            }
        }
        assert forall|t: Square| t.on_board() && t.index() < n implies (all.contains(t) <==> is_set(
            bb,
            t.index(),
        )) by {
            lemma_index_square(t);
            if t.index() < n - 1 {
                if all.contains(t) {
                    let k = choose|k: int| 0 <= k < all.len() && all[k] == t;
                    if k < rest.len() {
                        assert(all[k] == rest[k]);
                    }
                    assert(rest.contains(t));
                }
                if rest.contains(t) {
                    let k = choose|k: int| 0 <= k < rest.len() && rest[k] == t;
                    assert(all[k] == rest[k]);
                }
            } else {
                if is_set(bb, n - 1) {
                    assert(all[all.len() - 1] == t);
                } else {
                    if all.contains(t) {
                        let k = choose|k: int| 0 <= k < all.len() && all[k] == t;
                        assert(all[k] == rest[k]);
                    }
                }
            }
        }
    }
}

/// The squares of a bitboard are in strictly increasing index order (by row, then by column),
/// so none comes twice, and a square of the board is among them exactly when its bit is set.
pub proof fn lemma_squares_of_exact(bb: u64)
    ensures
        forall|k: int| 0 <= k < squares_of(bb).len() ==> (#[trigger] squares_of(bb)[k]).on_board(),
        forall|j: int, k: int|
            0 <= j < k < squares_of(bb).len() ==> (#[trigger] squares_of(bb)[j]).index()
                < (#[trigger] squares_of(bb)[k]).index(),
        forall|t: Square| t.on_board() ==> (squares_of(bb).contains(t) <==> is_set(bb, t.index())),
{
    lemma_squares_upto(bb, 64);
    lemma_squares_upto_exact(bb, 64);
    assert forall|t: Square| t.on_board() implies (squares_of(bb).contains(t) <==> is_set(
        bb,
        t.index(),
    )) by {
        lemma_index_square(t);
    }
}

/// What `Square::from_algebraic` gives for the bytes of its argument.
pub open spec fn algebraic_result(b: Seq<u8>) -> Result<Square, Seq<char>> {
    if b.len() != 2 {
        Err("Square must have length 2"@)
    } else if !(97u8 <= b[0] <= 104u8) {
        Err("Invalid file"@)
    } else if !(49u8 <= b[1] <= 56u8) {
        Err("Invalid rank"@)
    } else {
        Ok(sq(b[1] - 49u8, b[0] - 97u8))
    }
}

impl Square {
    /// The bitboard index `column + 8 * row`.
    pub open spec fn index(self) -> int {
        self.column + self.row * 8
    }

    pub open spec fn on_board(self) -> bool {
        0 <= self.column <= 7 && 0 <= self.row <= 7
    }

    /// The inputs on which the index computation neither overflows nor shifts out of a `u64`.
    pub open spec fn bitmap_ok(self) -> bool {
        -16 <= self.row <= 15 && 0 <= self.index() < 64
    }

    pub fn new(row: i8, column: i8) -> (s: Self)
        ensures
            s == sq(row as int, column as int),
    {
        Self { row, column }
    }

    pub fn to_bitmap(self) -> (b: u64)
        requires
            self.bitmap_ok(),
        ensures
            b == bit(self.index()),
    {
        let offset = self.column + self.row * 8;
        1u64 << (offset as u64)
    }

    pub fn coords_to_bitmap(row: i8, column: i8) -> (b: u64)
        requires
            sq(row as int, column as int).bitmap_ok(),
        ensures
            b == bit(column + row * 8),
    {
        let offset = column + row * 8;
        1u64 << (offset as u64)
    }

    pub fn is_on_board(self) -> (b: bool)
        ensures
            b == self.on_board(),
    {
        self.column <= 7 && self.column >= 0 && self.row >= 0 && self.row <= 7
    }

    /// The squares set in `bitmap`, from index 0 upwards.
    pub fn from_bitmap(bitmap: u64) -> (coords: Vec<Self>)
        ensures
            coords@ == squares_of(bitmap),
    {
        let mut coords = Vec::new();
        let mut i: u64 = 0;
        while i < 64
            invariant
                i <= 64,
                coords@ == squares_upto(bitmap, i as nat),
            decreases 64 - i,
        {
            if (bitmap >> i) & 1 != 0 {
                assert((bitmap >> i) & 1 != 0 ==> (bitmap >> i) & 1 == 1) by (bit_vector);
                let x = (i / 8) as i8;
                let y = (i % 8) as i8;
                coords.push(Self::new(x, y));
            } else {
                assert((bitmap >> i) & 1 == 0 ==> (bitmap >> i) & 1 != 1) by (bit_vector);
            }
            i = i + 1;
        }
        coords
    }

    pub fn row(&self) -> (r: i8)
        ensures
            r == self.row,
    {
        self.row
    }

    pub fn column(&self) -> (c: i8)
        ensures
            c == self.column,
    {
        self.column
    }

    pub fn to_index(self) -> (i: usize)
        requires
            -16 <= self.row <= 15,
            -128 <= self.index() <= 127,
        ensures
            i == self.index() as usize,
    {
        (self.column + self.row * 8) as usize
    }

    /// Parses a square such as `e4`: a file letter `a` to `h`, then a rank digit `1` to `8`.
    pub fn from_algebraic(s: &str) -> (r: Result<Self, String>)
        ensures
            match r {
                Ok(square) => algebraic_result(s.spec_bytes()) == Ok::<Square, Seq<char>>(square),
                Err(e) => algebraic_result(s.spec_bytes()) == Err::<Square, Seq<char>>(e@),
            },
    {
        if s.len() != 2 {
            return Err("Square must have length 2".to_owned());
        }
        let bytes = s.as_bytes();
        let b0 = bytes[0];
        let b1 = bytes[1];
        let file = if 97u8 <= b0 && b0 <= 104u8 {
            b0 - 97u8
        } else {
            return Err("Invalid file".to_owned());
        };
        let rank = if 49u8 <= b1 && b1 <= 56u8 {
            b1 - 49u8
        } else {
            return Err("Invalid rank".to_owned());
        };
        Ok(Square::new(rank as i8, file as i8))
    }

    /// The characters of the algebraic name of the square.
    pub open spec fn to_string_spec(self) -> Seq<char> {
        seq![(97u8 + self.column) as u8 as char, (49u8 + self.row) as u8 as char]
    }

    /// The algebraic name of the square, such as `e4`.
    pub fn to_string(&self) -> (s: String)
        requires
            0 <= self.column <= 158,
            0 <= self.row <= 206,
        ensures
            s@ == self.to_string_spec(),
    {
        let file = (97u8 + self.column as u8) as char;
        let rank = (49u8 + self.row as u8) as char;
        let mut s = String::new();
        push_char(&mut s, file);
        push_char(&mut s, rank);
        s
    }
}

} // verus!
