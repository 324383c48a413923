use vstd::prelude::*;

verus! {

/// Why a move was rejected: one reason per rejected move.
#[derive(Copy, Clone, PartialEq, Eq, Debug, Structural)]
pub enum MoveError {
    NoPieceOnSource,
    IllegalKnightMove,
    IllegalKingMove,
    IllegalPawnMove,
    IllegalQueenMove,
    IllegalRookMove,
    IllegalBishopMove,
    KingInCheck,
}

impl MoveError {
    /// The text shown to a player for each rejection.
    pub open spec fn text(self) -> Seq<char> {
        match self {
            MoveError::NoPieceOnSource => "first, select a piece to move ..."@,
            MoveError::IllegalKnightMove => "the knight horse cannot jump here"@,
            MoveError::IllegalKingMove => "this square lacks of prestige for the king"@,
            MoveError::IllegalPawnMove => "just a pawn, not enough will to go there"@,
            MoveError::IllegalQueenMove => "the queen does almost what she wants, but not quite"@,
            MoveError::IllegalRookMove => "the rook cannot fly here"@,
            MoveError::IllegalBishopMove => "the bishop does not have enough faith to go there"@,
            MoveError::KingInCheck => "the king does not feel safe now"@,
        }
    }

    /// A human-readable explanation of the rejection.
    pub fn message(self) -> (m: &'static str)
        ensures
            m@ == self.text(),
    {
        match self {
            MoveError::NoPieceOnSource => "first, select a piece to move ...",
            MoveError::IllegalKnightMove => "the knight horse cannot jump here",
            MoveError::IllegalKingMove => "this square lacks of prestige for the king",
            MoveError::IllegalPawnMove => "just a pawn, not enough will to go there",
            MoveError::IllegalQueenMove => "the queen does almost what she wants, but not quite",
            MoveError::IllegalRookMove => "the rook cannot fly here",
            MoveError::IllegalBishopMove => "the bishop does not have enough faith to go there",
            MoveError::KingInCheck => "the king does not feel safe now",
        }
    }
}

} // verus!
