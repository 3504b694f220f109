use vstd::prelude::*;
use core::cmp::Ordering;
use vstd::std_specs::cmp::PartialOrdSpecImpl;
use crate::board::piece::Piece;

verus! {

/// The rank of a piece kind in the order of pieces: pawn, knight, bishop, rook, queen, king.
pub open spec fn piece_rank(p: Piece) -> int {
    match p {
        Piece::Pawn => 0,
        Piece::Knight => 1,
        Piece::Bishop => 2,
        Piece::Rook => 3,
        Piece::Queen => 4,
        Piece::King => 5,
    }
}

fn rank_of(p: Piece) -> (r: u8)
    ensures
        r == piece_rank(p),
{
    match p {
        Piece::Pawn => 0,
        Piece::Knight => 1,
        Piece::Bishop => 2,
        Piece::Rook => 3,
        Piece::Queen => 4,
        Piece::King => 5,
    }
}

impl PartialOrd for Piece {
    fn partial_cmp(&self, other: &Self) -> (r: Option<Ordering>) {
        let (a, b) = (rank_of(*self), rank_of(*other));
        if a < b {
            Some(Ordering::Less)
        } else if a == b {
            Some(Ordering::Equal)
        } else {
            Some(Ordering::Greater)
        }
    }
}

impl PartialOrdSpecImpl for Piece {
    open spec fn obeys_partial_cmp_spec() -> bool {
        true
    }

    open spec fn partial_cmp_spec(&self, other: &Self) -> Option<Ordering> {
        if piece_rank(*self) < piece_rank(*other) {
            Some(Ordering::Less)
        } else if piece_rank(*self) == piece_rank(*other) {
            Some(Ordering::Equal)
        } else {
            Some(Ordering::Greater)
        }
    }
}

} // verus!
