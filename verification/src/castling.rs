//! Castling rights as a four-bit mask, with the FEN field that
//! describes them.

use vstd::prelude::*;

verus! {

#[derive(Copy, Clone, Debug, PartialEq, Eq, Structural)]
pub struct CastlingRights(pub u8);

/// The FEN castling field for a rights mask: the letters `KQkq` of
/// the rights held, in that fixed order, or `-` when none is held.
pub open spec fn spec_castling_fen(m: u8) -> Seq<char> {
    if m & 15 == 0 {
        seq!['-']
    } else {
        (if m & 1 != 0 {
            seq!['K']
        } else {
            Seq::<char>::empty()
        }) + (if m & 2 != 0 {
            seq!['Q']
        } else {
            Seq::<char>::empty()
        }) + (if m & 4 != 0 {
            seq!['k']
        } else {
            Seq::<char>::empty()
        }) + (if m & 8 != 0 {
            seq!['q']
        } else {
            Seq::<char>::empty()
        })
    }
}

impl CastlingRights {
    pub const WHITE_KINGSIDE: u8 = 1;

    pub const WHITE_QUEENSIDE: u8 = 2;

    pub const BLACK_KINGSIDE: u8 = 4;

    pub const BLACK_QUEENSIDE: u8 = 8;

    /// All four rights.
    pub fn new() -> (r: Self)
        ensures
            r.0 == 15,
    {
        Self(15)
    }

    pub fn empty() -> (r: Self)
        ensures
            r.0 == 0,
    {
        Self(0)
    }

    /// Grants each right whose letter occurs anywhere in the field.
    pub fn from_fen(fen_part: &str) -> (r: Self)
        ensures
            (r.0 & 1 != 0) == fen_part@.contains('K'),
            (r.0 & 2 != 0) == fen_part@.contains('Q'),
            (r.0 & 4 != 0) == fen_part@.contains('k'),
            (r.0 & 8 != 0) == fen_part@.contains('q'),
            r.0 < 16,
    {
        let n = fen_part.unicode_len();
        let mut rights: u8 = 0;
        let mut i: usize = 0;
        proof {
            assert(0u8 & 1 == 0 && 0u8 & 2 == 0 && 0u8 & 4 == 0 && 0u8 & 8 == 0) by (bit_vector);
        }
        while i < n
            invariant
                i <= n,
                n == fen_part@.len(),
                (rights & 1 != 0) == fen_part@.subrange(0, i as int).contains('K'),
                (rights & 2 != 0) == fen_part@.subrange(0, i as int).contains('Q'),
                (rights & 4 != 0) == fen_part@.subrange(0, i as int).contains('k'),
                (rights & 8 != 0) == fen_part@.subrange(0, i as int).contains('q'),
                rights < 16,
            decreases n - i,
        {
            let c = fen_part.get_char(i);
            if c == 'K' {
                rights = rights | 1;
            } else if c == 'Q' {
                rights = rights | 2;
            } else if c == 'k' {
                rights = rights | 4;
            } else if c == 'q' {
                rights = rights | 8;
            }
            proof {
                lemma_u8_mask_or();
                assert(fen_part@.subrange(0, (i + 1) as int).drop_last()
                    =~= fen_part@.subrange(0, i as int));
                assert(fen_part@.subrange(0, (i + 1) as int).last() == fen_part@[i as int]);
            }
            i = i + 1;
        }
        proof {
            assert(fen_part@.subrange(0, n as int) =~= fen_part@);
        }
        Self(rights)
    }

    /// The canonical FEN field for these rights.
    pub fn to_fen(&self) -> (r: String)
        requires
            self.0 < 16,
        ensures
            r@ == spec_castling_fen(self.0),
    {
        let mut s = String::new();
        if self.0 & 1 != 0 {
            s.append("K");
        }
        if self.0 & 2 != 0 {
            s.append("Q");
        }
        if self.0 & 4 != 0 {
            s.append("k");
        }
        if self.0 & 8 != 0 {
            s.append("q");
        }
        if self.0 & 1 == 0 && self.0 & 2 == 0 && self.0 & 4 == 0 && self.0 & 8 == 0 {
            proof {
                lemma_u8_mask_or();
                assert(self.0 & 15 == 0);
            }
            s.append("-");
            proof {
                reveal_strlit("-");
                assert(s@ =~= spec_castling_fen(self.0));
            }
        } else {
            proof {
                lemma_u8_mask_or();
                assert(self.0 & 15 != 0);
                reveal_strlit("K");
                reveal_strlit("Q");
                reveal_strlit("k");
                reveal_strlit("q");
                assert(s@ =~= spec_castling_fen(self.0));
            }
        }
        s
    }

    pub fn has(&self, right: u8) -> (r: bool)
        ensures
            r == ((self.0 & right) != 0),
    {
        (self.0 & right) != 0
    }

    pub fn remove(&mut self, rights_to_remove: u8)
        ensures
            final(self).0 == (old(self).0 & !rights_to_remove),
    {
        self.0 = self.0 & !rights_to_remove;
    }
}

/// How a four-bit mask decomposes into its four rights bits.
pub proof fn lemma_low_bits(m: u8)
    by (bit_vector)
    ensures
        (m & 1 == 0 || m & 1 == 1) && (m & 2 == 0 || m & 2 == 2) && (m & 4 == 0 || m & 4 == 4) && (
        m & 8 == 0 || m & 8 == 8),
        m & 15 != 0 ==> (m & 1 != 0 || m & 2 != 0 || m & 4 != 0 || m & 8 != 0),
        m < 16 ==> m & 15 == m,
        m < 16 ==> m == (m & 1) + (m & 2) + (m & 4) + (m & 8),
{
}

/// Facts about four-bit masks: or-ing in one of the low four bits
/// changes exactly that bit, and a mask is zero on the low four bits
/// exactly when each of them is clear.
proof fn lemma_u8_mask_or()
    by (bit_vector)
    ensures
        forall|m: u8, b: u8|
            b == 1 || b == 2 || b == 4 || b == 8 ==> ((#[trigger] (m | b)) & b != 0) && (forall|
                c: u8,
            |
                (c == 1 || c == 2 || c == 4 || c == 8) && c != b ==> ((m | b) & c != 0) == (m & c
                    != 0)),
        forall|m: u8|
            ((#[trigger] (m & 15)) == 0) == (m & 1 == 0 && m & 2 == 0 && m & 4 == 0 && m & 8 == 0),
        forall|m: u8, b: u8| m < 16 && (b == 1 || b == 2 || b == 4 || b == 8) ==> (m | b) < 16,
{
}

} // verus!
