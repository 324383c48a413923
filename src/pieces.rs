use vstd::prelude::*;

verus! {

/// The twelve piece identities: six kinds in two colours.
#[derive(Copy, Clone, PartialEq, Eq, Debug, Structural)]
pub enum Piece {
    WhitePawn,
    WhiteRook,
    WhiteKnight,
    WhiteBishop,
    WhiteQueen,
    WhiteKing,
    BlackPawn,
    BlackRook,
    BlackKnight,
    BlackBishop,
    BlackQueen,
    BlackKing,
}

impl Piece {
    /// True for the light side's pieces.
    pub open spec fn is_white(self) -> bool {
        match self {
            Piece::WhitePawn | Piece::WhiteRook | Piece::WhiteKnight | Piece::WhiteBishop
            | Piece::WhiteQueen | Piece::WhiteKing => true,
            _ => false,
        }
    }

    pub open spec fn is_pawn(self) -> bool {
        self == Piece::WhitePawn || self == Piece::BlackPawn
    }

    pub open spec fn is_rook(self) -> bool {
        self == Piece::WhiteRook || self == Piece::BlackRook
    }

    pub open spec fn is_knight(self) -> bool {
        self == Piece::WhiteKnight || self == Piece::BlackKnight
    }

    pub open spec fn is_bishop(self) -> bool {
        self == Piece::WhiteBishop || self == Piece::BlackBishop
    }

    pub open spec fn is_queen(self) -> bool {
        self == Piece::WhiteQueen || self == Piece::BlackQueen
    }

    pub open spec fn is_king(self) -> bool {
        self == Piece::WhiteKing || self == Piece::BlackKing
    }

    /// The glyph of a piece: upper case for the light side, lower case for
    /// the dark side.
    pub open spec fn glyph(self) -> char {
        match self {
            Piece::WhitePawn => 'P',
            Piece::WhiteKnight => 'N',
            Piece::WhiteBishop => 'B',
            Piece::WhiteRook => 'R',
            Piece::WhiteQueen => 'Q',
            Piece::WhiteKing => 'K',
            Piece::BlackPawn => 'p',
            Piece::BlackKnight => 'n',
            Piece::BlackBishop => 'b',
            Piece::BlackRook => 'r',
            Piece::BlackQueen => 'q',
            Piece::BlackKing => 'k',
        }
    }

    /// Map every piece to a single character.
    pub fn to_char(self) -> (c: char)
        ensures
            c == self.glyph(),
    {
        match self {
            Piece::WhitePawn => 'P',
            Piece::WhiteKnight => 'N',
            Piece::WhiteBishop => 'B',
            Piece::WhiteRook => 'R',
            Piece::WhiteQueen => 'Q',
            Piece::WhiteKing => 'K',
            Piece::BlackPawn => 'p',
            Piece::BlackKnight => 'n',
            Piece::BlackBishop => 'b',
            Piece::BlackRook => 'r',
            Piece::BlackQueen => 'q',
            Piece::BlackKing => 'k',
        }
    }

    pub fn is_white_piece(self) -> (r: bool)
        ensures
            r == self.is_white(),
    {
        match self {
            Piece::WhitePawn | Piece::WhiteKnight | Piece::WhiteBishop | Piece::WhiteRook
            | Piece::WhiteQueen | Piece::WhiteKing => true,
            Piece::BlackPawn | Piece::BlackKnight | Piece::BlackBishop | Piece::BlackRook
            | Piece::BlackQueen | Piece::BlackKing => false,
        }
    }

    pub fn is_black_piece(self) -> (r: bool)
        ensures
            r == !self.is_white(),
    {
        !self.is_white_piece()
    }
}

} // verus!
