//! Bit-level helpers for 64-bit board sets: a bit-test spec function,
//! a population count, and the bitwise lemmas the rest of the crate
//! reasons with.

use vstd::prelude::*;

verus! {

/// True iff bit `i` of `b` is set; false for `i` outside the word.
pub open spec fn bit64(b: u64, i: u64) -> bool {
    i < 64 && (b >> i) & 1u64 == 1u64
}

/// Number of set bits among the low `n` bits of `x`.
pub open spec fn popn(x: u64, n: nat) -> nat
    decreases n,
{
    if n == 0 {
        0
    } else {
        popn(x, (n - 1) as nat) + (if bit64(x, (n - 1) as u64) {
            1nat
        } else {
            0nat
        })
    }
}

/// Pointwise semantics of the bitwise operators in terms of `bit64`.
pub proof fn lemma_bit_ops()
    by (bit_vector)
    ensures
        forall|a: u64, b: u64, i: u64|
            i < 64 ==> (#[trigger] bit64(a | b, i)) == (bit64(a, i) || bit64(b, i)),
        forall|a: u64, b: u64, i: u64|
            i < 64 ==> (#[trigger] bit64(a & b, i)) == (bit64(a, i) && bit64(b, i)),
        forall|a: u64, b: u64, i: u64|
            i < 64 ==> (#[trigger] bit64(a ^ b, i)) == (bit64(a, i) != bit64(b, i)),
        forall|a: u64, i: u64| i < 64 ==> (#[trigger] bit64(!a, i)) == !bit64(a, i),
        forall|j: u64, i: u64|
            i < 64 && j < 64 ==> (#[trigger] bit64(1u64 << j, i)) == (i == j),
        forall|i: u64| !bit64(0u64, i),
        forall|a: u64, i: u64| i < 64 ==> ((a & (1u64 << i)) != 0) == (#[trigger] bit64(a, i)),
        forall|a: u64, i: u64| i < 64 ==> (((a >> i) & 1u64) != 0) == (#[trigger] bit64(a, i)),
{
}

/// `a ^ b` is zero only when the words are equal, and a nonzero word
/// has its lowest set bit below 64.
proof fn lemma_xor_cancel()
    by (bit_vector)
    ensures
        forall|a: u64, b: u64| #[trigger] (a ^ b) == 0 ==> a == b,
{
}

/// A word with no set bit is zero.
pub proof fn lemma_u64_no_bits(x: u64)
    requires
        forall|i: u64| i < 64 ==> !bit64(x, i),
    ensures
        x == 0,
{
    if x != 0 {
        vstd::std_specs::bits::axiom_u64_trailing_zeros(x);
        let tz = vstd::std_specs::bits::u64_trailing_zeros(x) as u64;
        assert(bit64(x, tz));
    }
}

/// The empty word has no set bits to count.
pub proof fn lemma_popn_zero(n: nat)
    requires
        n <= 64,
    ensures
        popn(0u64, n) == 0,
    decreases n,
{
    lemma_bit_ops();
    if n > 0 {
        lemma_popn_zero((n - 1) as nat);
        assert(!bit64(0u64, (n - 1) as u64));
    }
}

/// A set bit below `n` makes the count at least one.
pub proof fn lemma_pop_low(x: u64, n: nat, i: u64)
    requires
        i < n <= 64,
        bit64(x, i),
    ensures
        popn(x, n) >= 1,
    decreases n,
{
    if i + 1 < n {
        lemma_pop_low(x, (n - 1) as nat, i);
    }
}

/// Two distinct set bits below `n` make the count at least two.
pub proof fn lemma_pop_two(x: u64, n: nat, i: u64, j: u64)
    requires
        i < j,
        j < n <= 64,
        bit64(x, i),
        bit64(x, j),
    ensures
        popn(x, n) >= 2,
    decreases n,
{
    if j + 1 == n {
        lemma_pop_low(x, (n - 1) as nat, i);
    } else {
        lemma_pop_two(x, (n - 1) as nat, i, j);
    }
}

/// A word counting exactly one bit has only one.
pub proof fn lemma_pop_one(x: u64, i: u64, j: u64)
    requires
        popn(x, 64) == 1,
        bit64(x, i),
        bit64(x, j),
    ensures
        i == j,
{
    if i < j {
        lemma_pop_two(x, 64, i, j);
    }
    if j < i {
        lemma_pop_two(x, 64, j, i);
    }
}

/// The exclusive-or algebra the hash proofs rest on.
pub proof fn lemma_xor_ops()
    by (bit_vector)
    ensures
        forall|a: u64| (#[trigger] (a ^ 0u64)) == a,
        forall|a: u64| (#[trigger] (0u64 ^ a)) == a,
        forall|a: u64| (#[trigger] (a ^ a)) == 0,
        forall|a: u64, b: u64| (#[trigger] (a ^ b)) == (b ^ a),
        forall|a: u64, b: u64, c: u64| (#[trigger] ((a ^ b) ^ c)) == (a ^ (b ^ c)),
        forall|a: u64, b: u64| (#[trigger] ((a ^ b) ^ b)) == a,
{
}

/// Setting then clearing a bit, or clearing then setting it, gives
/// the word back.
pub proof fn lemma_mask_cancel()
    by (bit_vector)
    ensures
        forall|x: u64, m: u64| x & m == 0 ==> ((#[trigger] (x | m)) & !m) == x,
        forall|x: u64, m: u64| x & m == m ==> ((#[trigger] (x & !m)) | m) == x,
        forall|x: u64, j: u64|
            j < 64 && (#[trigger] (x & (1u64 << j))) != 0 ==> (x & (1u64 << j)) == (1u64 << j),
{
}

/// Disjoint words share no set bit.
pub proof fn lemma_disjoint_bits(x: u64, y: u64)
    requires
        x & y == 0,
    ensures
        forall|i: u64| i < 64 ==> !(bit64(x, i) && bit64(y, i)),
{
    lemma_bit_ops();
    assert forall|i: u64| i < 64 implies !(bit64(x, i) && bit64(y, i)) by {
        assert(bit64(x & y, i) == (bit64(x, i) && bit64(y, i)));
        assert(!bit64(0u64, i));
    }
}

/// Words sharing no set bit are disjoint.
pub proof fn lemma_bits_disjoint(x: u64, y: u64)
    requires
        forall|i: u64| i < 64 ==> !(bit64(x, i) && bit64(y, i)),
    ensures
        x & y == 0,
{
    lemma_bit_ops();
    assert forall|i: u64| i < 64 implies !bit64(x & y, i) by {
        assert(!(bit64(x, i) && bit64(y, i)));
    }
    lemma_u64_no_bits(x & y);
}

/// Two words with the same bits are the same word.
pub proof fn lemma_u64_ext(a: u64, b: u64)
    requires
        forall|i: u64| i < 64 ==> bit64(a, i) == bit64(b, i),
    ensures
        a == b,
{
    lemma_bit_ops();
    assert forall|i: u64| i < 64 implies !bit64(a ^ b, i) by {
        assert(bit64(a, i) == bit64(b, i));
    }
    lemma_u64_no_bits(a ^ b);
    lemma_xor_cancel();
    assert((a ^ b) == 0);
}

} // verus!
