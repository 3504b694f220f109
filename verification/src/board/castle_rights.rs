use vstd::prelude::*;

verus! {

/// What a side has moved that bears on castling: its king and each of its rooks.
#[derive(Clone, Copy, PartialEq, Eq, Debug, Structural)]
pub struct CastleRights {
    pub king_moved: bool,
    pub right_rook_moved: bool,
    pub left_rook_moved: bool,
}

impl CastleRights {
    /// Castling towards column 0 is still allowed.
    pub open spec fn can_left(self) -> bool {
        !self.king_moved && !self.left_rook_moved
    }

    /// Castling towards column 7 is still allowed.
    pub open spec fn can_right(self) -> bool {
        !self.king_moved && !self.right_rook_moved
    }

    /// Nothing has moved: both castles are allowed.
    pub fn new() -> (r: Self)
        ensures
            r == (CastleRights { king_moved: false, right_rook_moved: false, left_rook_moved: false }),
    {
        Self { king_moved: false, right_rook_moved: false, left_rook_moved: false }
    }

    /// The king has moved: no castle is allowed.
    pub fn _none() -> (r: Self)
        ensures
            r == (CastleRights { king_moved: true, right_rook_moved: false, left_rook_moved: false }),
    {
        Self { king_moved: true, right_rook_moved: false, left_rook_moved: false }
    }

    pub fn king_moved(&mut self)
        ensures
            *final(self) == (CastleRights { king_moved: true, ..*old(self) }),
    {
        self.king_moved = true;
    }

    pub fn left_rook_moved(&mut self)
        ensures
            *final(self) == (CastleRights { left_rook_moved: true, ..*old(self) }),
    {
        self.left_rook_moved = true;
    }

    pub fn right_rook_moved(&mut self)
        ensures
            *final(self) == (CastleRights { right_rook_moved: true, ..*old(self) }),
    {
        self.right_rook_moved = true;
    }

    pub fn left(&self) -> (b: bool)
        ensures
            b == self.can_left(),
    {
        !self.king_moved && !self.left_rook_moved
    }

    pub fn right(&self) -> (b: bool)
        ensures
            b == self.can_right(),
    {
        !self.king_moved && !self.right_rook_moved
    }
}

/// Once lost, a castle right never comes back: every update of `CastleRights` keeps lost
/// rights lost.
pub proof fn lemma_castle_rights_only_shrink(r: CastleRights)
    ensures
        (CastleRights { king_moved: true, ..r }).can_left() == false,
        (CastleRights { king_moved: true, ..r }).can_right() == false,
        (CastleRights { left_rook_moved: true, ..r }).can_left() == false,
        (CastleRights { left_rook_moved: true, ..r }).can_right() == r.can_right(),
        (CastleRights { right_rook_moved: true, ..r }).can_right() == false,
        (CastleRights { right_rook_moved: true, ..r }).can_left() == r.can_left(),
{
}

} // verus!
