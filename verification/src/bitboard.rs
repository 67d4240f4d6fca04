//! A 64-bit set of squares, one bit per square, with the usual set
//! operations, bit extraction, and edge-masked directional shifts.

use vstd::prelude::*;

use crate::bits::{bit64, lemma_bit_ops, popn};
use crate::chess_square::ChessSquare;

verus! {

#[derive(Copy, Clone, Debug, PartialEq, Eq, Structural)]
pub struct Bitboard(pub u64);

impl Bitboard {
    pub fn new(value: u64) -> (r: Self)
        ensures
            r.0 == value,
    {
        Self(value)
    }

    pub fn empty() -> (r: Self)
        ensures
            r.0 == 0,
    {
        Self(0)
    }

    pub fn from_square(square: ChessSquare) -> (r: Self)
        requires
            square.wf(),
        ensures
            r.0 == (1u64 << square.0),
    {
        Self(1u64 << square.0)
    }

    /// How many squares the set holds.
    pub fn count_ones(&self) -> (r: u32)
        ensures
            r == popn(self.0, 64),
    {
        let mut n: u32 = 0;
        let mut i: u64 = 0;
        while i < 64
            invariant
                i <= 64,
                n == popn(self.0, i as nat),
                n <= i,
            decreases 64 - i,
        {
            if (self.0 >> i) & 1u64 == 1u64 {
                n = n + 1;
            }
            i = i + 1;
        }
        n
    }

    pub fn is_empty(&self) -> (r: bool)
        ensures
            r == (self.0 == 0),
    {
        self.0 == 0
    }

    pub fn is_set(self, square: ChessSquare) -> (r: bool)
        requires
            square.wf(),
        ensures
            r == bit64(self.0, square.0 as u64),
    {
        proof {
            lemma_bit_ops();
        }
        (self.0 & (1u64 << square.0)) != 0
    }

    /// The lowest square of the set, if any.
    pub fn lsb_square(self) -> (r: Option<ChessSquare>)
        ensures
            (r is None) == (self.0 == 0),
            r matches Some(sq) ==> sq.wf() && bit64(self.0, sq.0 as u64) && (forall|j: u64|
                j < sq.0 ==> !bit64(self.0, j)),
    {
        if self.0 == 0 {
            None
        } else {
            proof {
                vstd::std_specs::bits::axiom_u64_trailing_zeros(self.0);
            }
            Some(ChessSquare(self.0.trailing_zeros() as u8))
        }
    }

    /// The index of the lowest set bit, if any.
    pub fn lsb_idx(&self) -> (r: Option<u8>)
        ensures
            (r is None) == (self.0 == 0),
            r matches Some(i) ==> i < 64 && bit64(self.0, i as u64) && (forall|j: u64|
                j < i ==> !bit64(self.0, j)),
    {
        if self.0 == 0 {
            None
        } else {
            proof {
                vstd::std_specs::bits::axiom_u64_trailing_zeros(self.0);
            }
            Some(self.0.trailing_zeros() as u8)
        }
    }

    /// Removes and returns the lowest square of the set.
    pub fn pop_lsb(&mut self) -> (r: Option<ChessSquare>)
        ensures
            (r is None) == (old(self).0 == 0),
            r is None ==> final(self).0 == old(self).0,
            r matches Some(sq) ==> sq.wf() && bit64(old(self).0, sq.0 as u64) && (forall|j: u64|
                j < sq.0 ==> !bit64(old(self).0, j)) && final(self).0 == (old(self).0 ^ (1u64
                << sq.0)),
    {
        if let Some(idx) = self.lsb_idx() {
            self.0 = self.0 ^ (1u64 << idx);
            Some(ChessSquare(idx))
        } else {
            None
        }
    }

    /// The highest square of the set, if any.
    pub fn msb_square(self) -> (r: Option<ChessSquare>)
        ensures
            (r is None) == (self.0 == 0),
            r matches Some(sq) ==> sq.wf() && bit64(self.0, sq.0 as u64) && (forall|j: u64|
                sq.0 < j < 64 ==> !bit64(self.0, j)),
    {
        proof {
            lemma_bit_ops();
        }
        let mut j: u64 = 64;
        while j > 0
            invariant
                j <= 64,
                forall|k: u64| j <= k < 64 ==> !bit64(self.0, k),
            decreases j,
        {
            j = j - 1;
            if (self.0 >> j) & 1u64 == 1u64 {
                proof {
                    lemma_bit_ops();
                    assert(bit64(self.0, j));
                    assert(!bit64(0u64, j));
                }
                return Some(ChessSquare(j as u8));
            }
        }
        proof {
            crate::bits::lemma_u64_no_bits(self.0);
        }
        None
    }

    pub fn contains(&self, square: ChessSquare) -> (r: bool)
        requires
            square.wf(),
        ensures
            r == bit64(self.0, square.0 as u64),
    {
        proof {
            lemma_bit_ops();
        }
        (self.0 & (1u64 << square.0)) != 0
    }

    pub fn set(&mut self, square: ChessSquare)
        requires
            square.wf(),
        ensures
            final(self).0 == (old(self).0 | (1u64 << square.0)),
    {
        self.0 = self.0 | (1u64 << square.0);
    }

    pub fn clear(&mut self, square: ChessSquare)
        requires
            square.wf(),
        ensures
            final(self).0 == (old(self).0 & !(1u64 << square.0)),
    {
        self.0 = self.0 & !(1u64 << square.0);
    }

    pub fn toggle(&mut self, square: ChessSquare)
        requires
            square.wf(),
        ensures
            final(self).0 == (old(self).0 ^ (1u64 << square.0)),
    {
        self.0 = self.0 ^ (1u64 << square.0);
    }

    pub fn union(self, other: Self) -> (r: Self)
        ensures
            r.0 == (self.0 | other.0),
    {
        Bitboard(self.0 | other.0)
    }

    pub fn intersection(self, other: Self) -> (r: Self)
        ensures
            r.0 == (self.0 & other.0),
    {
        Bitboard(self.0 & other.0)
    }

    pub fn difference(self, other: Self) -> (r: Self)
        ensures
            r.0 == (self.0 & !other.0),
    {
        Bitboard(self.0 & !other.0)
    }

    pub fn symmetric_difference(self, other: Self) -> (r: Self)
        ensures
            r.0 == (self.0 ^ other.0),
    {
        Bitboard(self.0 ^ other.0)
    }

    pub fn not(self) -> (r: Self)
        ensures
            r.0 == !self.0,
    {
        Bitboard(!self.0)
    }

    /// One rank up; bits on rank 8 fall off the board.
    pub fn shift_north(self) -> (r: Self)
        ensures
            r.0 == (self.0 << 8),
    {
        Bitboard(self.0 << 8)
    }

    /// One file toward `h`; bits on file h are cleared first so no
    /// square wraps to the next rank.
    pub fn shift_east(self) -> (r: Self)
        ensures
            r.0 == ((self.0 & 0x7f7f_7f7f_7f7f_7f7fu64) << 1),
    {
        Bitboard((self.0 & 0x7f7f_7f7f_7f7f_7f7fu64) << 1)
    }

    /// One file toward `a`; bits on file a are cleared first.
    pub fn shift_west(self) -> (r: Self)
        ensures
            r.0 == ((self.0 & 0xfefe_fefe_fefe_fefeu64) >> 1),
    {
        Bitboard((self.0 & 0xfefe_fefe_fefe_fefeu64) >> 1)
    }

    /// One rank down; bits on rank 1 fall off the board.
    pub fn shift_south(self) -> (r: Self)
        ensures
            r.0 == (self.0 >> 8),
    {
        Bitboard(self.0 >> 8)
    }
}

} // verus!
