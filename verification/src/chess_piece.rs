//! Colours, piece types and pieces, with the character codes FEN uses.

use vstd::prelude::*;

verus! {

#[derive(Copy, Clone, PartialEq, Eq, Debug, Structural)]
pub enum Color {
    White,
    Black,
}

/// The other colour.
pub open spec fn spec_opposite(c: Color) -> Color {
    match c {
        Color::White => Color::Black,
        Color::Black => Color::White,
    }
}

impl Color {
    /// The index of this colour in a board's per-colour tables.
    pub open spec fn idx(self) -> int {
        match self {
            Color::White => 0,
            Color::Black => 1,
        }
    }

    pub fn opposite(&self) -> (r: Self)
        ensures
            r == spec_opposite(*self),
    {
        match self {
            Color::White => Color::Black,
            Color::Black => Color::White,
        }
    }

    /// The colour a FEN side-to-move character denotes, if any.
    pub open spec fn spec_from_char(c: char) -> Option<Color> {
        if c == 'w' {
            Some(Color::White)
        } else if c == 'b' {
            Some(Color::Black)
        } else {
            None
        }
    }

    pub fn from_char(c: char) -> (r: Option<Self>)
        ensures
            r == Self::spec_from_char(c),
    {
        if c == 'w' {
            Some(Color::White)
        } else if c == 'b' {
            Some(Color::Black)
        } else {
            None
        }
    }

    pub open spec fn spec_to_char(self) -> char {
        match self {
            Color::White => 'w',
            Color::Black => 'b',
        }
    }

    pub fn to_char(&self) -> (r: char)
        ensures
            r == self.spec_to_char(),
    {
        match self {
            Color::White => 'w',
            Color::Black => 'b',
        }
    }
}

#[derive(Copy, Clone, PartialEq, Eq, Debug, Structural)]
pub enum PieceType {
    Pawn,
    Knight,
    Bishop,
    Rook,
    Queen,
    King,
}

impl PieceType {
    /// The index of this type in a board's per-type tables.
    pub open spec fn idx(self) -> int {
        match self {
            PieceType::Pawn => 0,
            PieceType::Knight => 1,
            PieceType::Bishop => 2,
            PieceType::Rook => 3,
            PieceType::Queen => 4,
            PieceType::King => 5,
        }
    }

    pub open spec fn spec_from_idx(idx: usize) -> Option<PieceType> {
        if idx == 0 {
            Some(PieceType::Pawn)
        } else if idx == 1 {
            Some(PieceType::Knight)
        } else if idx == 2 {
            Some(PieceType::Bishop)
        } else if idx == 3 {
            Some(PieceType::Rook)
        } else if idx == 4 {
            Some(PieceType::Queen)
        } else if idx == 5 {
            Some(PieceType::King)
        } else {
            None
        }
    }

    pub fn from_idx(idx: usize) -> (r: Option<PieceType>)
        ensures
            r == Self::spec_from_idx(idx),
            r matches Some(t) ==> t.idx() == idx,
    {
        if idx == 0 {
            Some(PieceType::Pawn)
        } else if idx == 1 {
            Some(PieceType::Knight)
        } else if idx == 2 {
            Some(PieceType::Bishop)
        } else if idx == 3 {
            Some(PieceType::Rook)
        } else if idx == 4 {
            Some(PieceType::Queen)
        } else if idx == 5 {
            Some(PieceType::King)
        } else {
            None
        }
    }

    /// The piece type a letter denotes, either case accepted.
    pub open spec fn spec_from_char(c: char) -> Option<PieceType> {
        if c == 'p' || c == 'P' {
            Some(PieceType::Pawn)
        } else if c == 'n' || c == 'N' {
            Some(PieceType::Knight)
        } else if c == 'b' || c == 'B' {
            Some(PieceType::Bishop)
        } else if c == 'r' || c == 'R' {
            Some(PieceType::Rook)
        } else if c == 'q' || c == 'Q' {
            Some(PieceType::Queen)
        } else if c == 'k' || c == 'K' {
            Some(PieceType::King)
        } else {
            None
        }
    }

    pub fn from_char(c: char) -> (r: Option<Self>)
        ensures
            r == Self::spec_from_char(c),
    {
        if c == 'p' || c == 'P' {
            Some(PieceType::Pawn)
        } else if c == 'n' || c == 'N' {
            Some(PieceType::Knight)
        } else if c == 'b' || c == 'B' {
            Some(PieceType::Bishop)
        } else if c == 'r' || c == 'R' {
            Some(PieceType::Rook)
        } else if c == 'q' || c == 'Q' {
            Some(PieceType::Queen)
        } else if c == 'k' || c == 'K' {
            Some(PieceType::King)
        } else {
            None
        }
    }

    /// The FEN letter for this type: uppercase for White, lowercase for Black.
    pub open spec fn spec_to_char(self, color: Color) -> char {
        match color {
            Color::White => match self {
                PieceType::Pawn => 'P',
                PieceType::Knight => 'N',
                PieceType::Bishop => 'B',
                PieceType::Rook => 'R',
                PieceType::Queen => 'Q',
                PieceType::King => 'K',
            },
            Color::Black => match self {
                PieceType::Pawn => 'p',
                PieceType::Knight => 'n',
                PieceType::Bishop => 'b',
                PieceType::Rook => 'r',
                PieceType::Queen => 'q',
                PieceType::King => 'k',
            },
        }
    }

    pub fn to_char(&self, color: Color) -> (r: char)
        ensures
            r == self.spec_to_char(color),
    {
        match color {
            Color::White => match self {
                PieceType::Pawn => 'P',
                PieceType::Knight => 'N',
                PieceType::Bishop => 'B',
                PieceType::Rook => 'R',
                PieceType::Queen => 'Q',
                PieceType::King => 'K',
            },
            Color::Black => match self {
                PieceType::Pawn => 'p',
                PieceType::Knight => 'n',
                PieceType::Bishop => 'b',
                PieceType::Rook => 'r',
                PieceType::Queen => 'q',
                PieceType::King => 'k',
            },
        }
    }
}

#[derive(Copy, Clone, PartialEq, Eq, Debug, Structural)]
pub struct ChessPiece {
    pub color: Color,
    pub piece_type: PieceType,
}

impl ChessPiece {
    pub fn new(color: Color, piece_type: PieceType) -> (r: Self)
        ensures
            r == (ChessPiece { color, piece_type }),
    {
        ChessPiece { color, piece_type }
    }
}

} // verus!
