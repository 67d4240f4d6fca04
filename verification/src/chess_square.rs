//! Squares of the 8x8 board, indexed `rank * 8 + file` with `a1 = 0`
//! and `h8 = 63`, and their algebraic names.

use vstd::prelude::*;

use crate::chess_piece::Color;

verus! {

#[derive(Copy, Clone, PartialEq, Eq, Debug, Hash, Structural)]
pub struct ChessSquare(pub u8);

/// The two-character algebraic name of the square with the given
/// file and rank, as a sequence of characters.
pub open spec fn spec_square_name(file: int, rank: int) -> Seq<char> {
    seq![spec_file_char(file), spec_rank_char(rank)]
}

/// The lowercase file letter, `a` through `h`.
pub open spec fn spec_file_char(file: int) -> char {
    if file == 0 {
        'a'
    } else if file == 1 {
        'b'
    } else if file == 2 {
        'c'
    } else if file == 3 {
        'd'
    } else if file == 4 {
        'e'
    } else if file == 5 {
        'f'
    } else if file == 6 {
        'g'
    } else {
        'h'
    }
}

/// The rank digit, `1` through `8`.
pub open spec fn spec_rank_char(rank: int) -> char {
    if rank == 0 {
        '1'
    } else if rank == 1 {
        '2'
    } else if rank == 2 {
        '3'
    } else if rank == 3 {
        '4'
    } else if rank == 4 {
        '5'
    } else if rank == 5 {
        '6'
    } else if rank == 6 {
        '7'
    } else {
        '8'
    }
}

/// The square an algebraic name denotes, if the name is well-formed.
pub open spec fn spec_square_from_name(s: Seq<char>) -> Option<ChessSquare> {
    if s.len() == 2 && 97 <= s[0] as u32 <= 104 && 49 <= s[1] as u32 <= 56 {
        Some(ChessSquare((((s[1] as u32 - 49) * 8 + (s[0] as u32 - 97))) as u8))
    } else {
        None
    }
}

impl ChessSquare {
    /// A valid square index lies on the board.
    pub open spec fn wf(self) -> bool {
        self.0 < 64
    }

    pub open spec fn sfile(self) -> int {
        self.0 as int % 8
    }

    pub open spec fn srank(self) -> int {
        self.0 as int / 8
    }

    pub fn new(index: u8) -> (r: Option<Self>)
        ensures
            r == (if index < 64 {
                Some(ChessSquare(index))
            } else {
                None::<ChessSquare>
            }),
    {
        if index < 64 {
            Some(ChessSquare(index))
        } else {
            None
        }
    }

    pub fn from_coords(file: u8, rank: u8) -> (r: Option<Self>)
        ensures
            r == (if file < 8 && rank < 8 {
                Some(ChessSquare((rank * 8 + file) as u8))
            } else {
                None::<ChessSquare>
            }),
    {
        if file < 8 && rank < 8 {
            Some(ChessSquare(rank * 8 + file))
        } else {
            None
        }
    }

    pub fn from_name(name: &str) -> (r: Option<Self>)
        ensures
            r == spec_square_from_name(name@),
            r matches Some(sq) ==> sq.wf(),
    {
        if name.unicode_len() != 2 {
            return None;
        }
        let c0 = name.get_char(0);
        let c1 = name.get_char(1);
        let v0 = c0 as u32;
        let v1 = c1 as u32;
        if 97 <= v0 && v0 <= 104 && 49 <= v1 && v1 <= 56 {
            Some(ChessSquare((((v1 - 49) * 8 + (v0 - 97))) as u8))
        } else {
            None
        }
    }

    /// The colour of the square itself: light when file and rank have
    /// an even sum, dark otherwise.
    pub fn colour(self) -> (r: Color)
        ensures
            r == (if (self.sfile() + self.srank()) % 2 == 0 {
                Color::White
            } else {
                Color::Black
            }),
    {
        if (self.0 % 8 + self.0 / 8) % 2 == 0 {
            Color::White
        } else {
            Color::Black
        }
    }

    pub fn to_name(self) -> (r: String)
        requires
            self.wf(),
        ensures
            r@ == spec_square_name(self.sfile(), self.srank()),
    {
        self.name()
    }

    pub fn is_valid(self) -> (r: bool)
        ensures
            r == self.wf(),
    {
        self.0 < 64
    }

    /// The one-bit board set holding exactly this square.
    pub fn bitboard(self) -> (r: crate::bitboard::Bitboard)
        requires
            self.wf(),
        ensures
            r.0 == (1u64 << self.0),
    {
        crate::bitboard::Bitboard(1u64 << self.0)
    }

    pub fn square_north(self) -> (r: Option<ChessSquare>)
        requires
            self.wf(),
        ensures
            r == (if self.0 + 8 < 64 {
                Some(ChessSquare((self.0 + 8) as u8))
            } else {
                None::<ChessSquare>
            }),
    {
        Self::new(self.0 + 8)
    }

    pub fn square_south(self) -> (r: Option<ChessSquare>)
        ensures
            r == (if self.0 >= 8 {
                Some(ChessSquare((self.0 - 8) as u8))
            } else {
                None::<ChessSquare>
            }),
    {
        if self.0 >= 8 {
            Some(ChessSquare(self.0 - 8))
        } else {
            None
        }
    }

    pub fn index(&self) -> (r: u8)
        ensures
            r == self.0,
    {
        self.0
    }

    pub fn file(&self) -> (r: u8)
        ensures
            r == self.sfile(),
    {
        self.0 % 8
    }

    pub fn rank(&self) -> (r: u8)
        ensures
            r == self.srank(),
    {
        self.0 / 8
    }

    pub fn name(&self) -> (r: String)
        requires
            self.wf(),
        ensures
            r@ == spec_square_name(self.sfile(), self.srank()),
    {
        let mut s = String::new();
        let f = self.0 % 8;
        let rk = self.0 / 8;
        if f == 0 {
            s.append("a");
            proof {
                reveal_strlit("a");
            }
        } else if f == 1 {
            s.append("b");
            proof {
                reveal_strlit("b");
            }
        } else if f == 2 {
            s.append("c");
            proof {
                reveal_strlit("c");
            }
        } else if f == 3 {
            s.append("d");
            proof {
                reveal_strlit("d");
            }
        } else if f == 4 {
            s.append("e");
            proof {
                reveal_strlit("e");
            }
        } else if f == 5 {
            s.append("f");
            proof {
                reveal_strlit("f");
            }
        } else if f == 6 {
            s.append("g");
            proof {
                reveal_strlit("g");
            }
        } else {
            s.append("h");
            proof {
                reveal_strlit("h");
            }
        }
        if rk == 0 {
            s.append("1");
            proof {
                reveal_strlit("1");
            }
        } else if rk == 1 {
            s.append("2");
            proof {
                reveal_strlit("2");
            }
        } else if rk == 2 {
            s.append("3");
            proof {
                reveal_strlit("3");
            }
        } else if rk == 3 {
            s.append("4");
            proof {
                reveal_strlit("4");
            }
        } else if rk == 4 {
            s.append("5");
            proof {
                reveal_strlit("5");
            }
        } else if rk == 5 {
            s.append("6");
            proof {
                reveal_strlit("6");
            }
        } else if rk == 6 {
            s.append("7");
            proof {
                reveal_strlit("7");
            }
        } else {
            s.append("8");
            proof {
                reveal_strlit("8");
            }
        }
        proof {
            assert(s@ =~= spec_square_name(self.sfile(), self.srank()));
        }
        s
    }
}

/// The character codes of square names: file letters are `a` + file,
/// rank digits are `1` + rank, and neither is a space.
pub proof fn lemma_square_name_chars(f: int, r: int)
    requires
        0 <= f < 8,
        0 <= r < 8,
    ensures
        spec_file_char(f) as u32 == 97 + f,
        spec_rank_char(r) as u32 == 49 + r,
        spec_file_char(f) != ' ',
        spec_rank_char(r) != ' ',
{
}

/// Parsing a square's own name gives the square back.
pub proof fn lemma_square_name_round_trip(sq: ChessSquare)
    requires
        sq.wf(),
    ensures
        spec_square_from_name(spec_square_name(sq.sfile(), sq.srank())) == Some(sq),
{
}

} // verus!
