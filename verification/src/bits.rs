//! Bit-level model of 64-bit boards: single-bit membership, population count,
//! and the lemmas that connect them to the machine operations.

use vstd::prelude::*;
use vstd::std_specs::bits::u64_trailing_zeros;
use vstd::std_specs::bits::axiom_u64_trailing_zeros;

verus! {

/// Membership of bit `i` in the 64-bit word `b`.
pub open spec fn bit64(b: u64, i: u64) -> bool {
    (b >> i) & 1 == 1
}

/// Number of set bits of `b`.
pub open spec fn popcount64(b: u64) -> nat
    decreases b,
{
    if b == 0 {
        0
    } else {
        ((b & 1) as nat + popcount64(b / 2)) as nat
    }
}

/// `b` holds exactly one set bit.
pub open spec fn single_bit64(b: u64) -> bool {
    b != 0 && b & (b - 1) as u64 == 0
}

pub broadcast proof fn lemma_bit64_or(a: u64, b: u64, i: u64)
    by (bit_vector)
    requires
        i < 64,
    ensures
        #[trigger] bit64(a | b, i) <==> bit64(a, i) || bit64(b, i),
{
}

pub broadcast proof fn lemma_bit64_and(a: u64, b: u64, i: u64)
    by (bit_vector)
    requires
        i < 64,
    ensures
        #[trigger] bit64(a & b, i) <==> bit64(a, i) && bit64(b, i),
{
}

pub broadcast proof fn lemma_bit64_xor(a: u64, b: u64, i: u64)
    by (bit_vector)
    requires
        i < 64,
    ensures
        #[trigger] bit64(a ^ b, i) <==> (bit64(a, i) != bit64(b, i)),
{
}

pub broadcast proof fn lemma_bit64_not(a: u64, i: u64)
    by (bit_vector)
    requires
        i < 64,
    ensures
        #[trigger] bit64(!a, i) <==> !bit64(a, i),
{
}

pub broadcast proof fn lemma_bit64_single(s: u64, i: u64)
    by (bit_vector)
    requires
        s < 64,
        i < 64,
    ensures
        #[trigger] bit64(1u64 << s, i) <==> i == s,
{
}

proof fn lemma_xor_nonzero(a: u64, b: u64)
    by (bit_vector)
    requires
        a != b,
    ensures
        a ^ b != 0,
{
}

/// A nonzero word has a set bit: the one found by counting trailing zeros.
pub proof fn lemma_nonzero_has_bit(x: u64)
    requires
        x != 0,
    ensures
        u64_trailing_zeros(x) < 64,
        bit64(x, u64_trailing_zeros(x) as u64),
{
    axiom_u64_trailing_zeros(x);
}

/// Two words with the same bits are equal.
pub proof fn lemma_bit64_ext(a: u64, b: u64)
    requires
        forall|i: u64| i < 64 ==> (bit64(a, i) <==> bit64(b, i)),
    ensures
        a == b,
{
    if a != b {
        lemma_xor_nonzero(a, b);
        lemma_nonzero_has_bit(a ^ b);
        let i = u64_trailing_zeros(a ^ b) as u64;
        lemma_bit64_xor(a, b, i);
    }
}

/// One when the flag holds, zero when it does not; used to count holders of
/// one square across several boards.
pub open spec fn bcount(x: bool) -> int {
    if x {
        1
    } else {
        0
    }
}

pub broadcast proof fn lemma_bit64_of_zero(i: u64)
    by (bit_vector)
    ensures
        !#[trigger] bit64(0u64, i),
{
}

pub broadcast proof fn lemma_xor_zero(x: u64)
    by (bit_vector)
    ensures
        #[trigger] (x ^ 0u64) == x,
{
}

pub broadcast group group_bit64 {
    lemma_bit64_or,
    lemma_bit64_and,
    lemma_bit64_xor,
    lemma_bit64_not,
    lemma_bit64_single,
    lemma_bit64_of_zero,
    lemma_xor_zero,
}

/// A single-bit word whose bit `s` is set is exactly `1 << s`.
pub proof fn lemma_single_bit_at(b: u64, s: u64)
    by (bit_vector)
    requires
        s < 64,
        b != 0,
        b & (b - 1) as u64 == 0,
        (b >> s) & 1 == 1,
    ensures
        b == 1u64 << s,
{
}

/// Moving a lone bit from `f` to `t` by the from-to mask leaves the bit at `t`.
pub proof fn lemma_single_bit_moved(f: u64, t: u64)
    by (bit_vector)
    requires
        f < 64,
        t < 64,
        f != t,
    ensures
        (1u64 << f) ^ ((1u64 << f) | (1u64 << t)) == 1u64 << t,
{
}

/// Two xors with disjoint masks are one xor with their union.
pub proof fn lemma_xor_disjoint_chain(x: u64, a: u64, b: u64)
    by (bit_vector)
    requires
        a & b == 0,
    ensures
        (x ^ a) ^ b == x ^ (a | b),
{
}

/// A pawn moved from `f` to `t` and then cleared from `t` has simply left `f`.
pub proof fn lemma_move_then_clear(x: u64, f: u64, t: u64)
    by (bit_vector)
    requires
        f < 64,
        t < 64,
        f != t,
        bit64(x, f),
        !bit64(x, t),
    ensures
        (x ^ ((1u64 << f) | (1u64 << t))) & !(1u64 << t) == x ^ (1u64 << f),
{
}

/// Setting an absent bit is the same as toggling it.
pub proof fn lemma_set_absent_bit(x: u64, t: u64)
    by (bit_vector)
    requires
        t < 64,
        !bit64(x, t),
    ensures
        x | (1u64 << t) == x ^ (1u64 << t),
{
}

/// From-to masks of four distinct squares do not overlap.
pub proof fn lemma_pair_masks_disjoint(f: u64, t: u64, g: u64, u: u64)
    by (bit_vector)
    requires
        f < 64,
        t < 64,
        g < 64,
        u < 64,
        f != g,
        f != u,
        t != g,
        t != u,
    ensures
        ((1u64 << f) | (1u64 << t)) & ((1u64 << g) | (1u64 << u)) == 0,
{
}

/// Associativity of union, and how zero behaves under the bit operations.
pub proof fn lemma_u64_basics(a: u64, b: u64, c: u64)
    by (bit_vector)
    ensures
        (a | b) | c == a | (b | c),
        a | 0 == a,
        0 | a == a,
        0 & a == 0,
        a & 0 == 0,
        b < 64 ==> 0u64 << b == 0,
        b < 64 ==> 0u64 >> b == 0,
{
}

/// A word shifted by nothing is unchanged.
pub proof fn lemma_shift_by_zero(x: u64)
    by (bit_vector)
    ensures
        x << 0u64 == x,
        x >> 0u64 == x,
{
}

/// The lowest bit of a word is zero or one.
pub proof fn lemma_low_bit_is_01(x: u64)
    by (bit_vector)
    ensures
        x & 1 == 0 || x & 1 == 1,
{
}

proof fn lemma_shr_is_div2(b: u64)
    by (bit_vector)
    ensures
        b >> 1u64 == b / 2,
        b & 1 == (b % 2),
{
}

/// Unfolding step used when counting bits from the low end.
pub proof fn lemma_popcount64_step(b: u64)
    ensures
        popcount64(b) == (b & 1) + popcount64(b >> 1u64),
{
    lemma_shr_is_div2(b);
    if b == 0 {
        assert(0u64 >> 1u64 == 0u64 && 0u64 & 1 == 0) by (bit_vector);
    }
}

/// A word with a single set bit has population count one.
pub proof fn lemma_single_bit_popcount(b: u64)
    requires
        single_bit64(b),
    ensures
        popcount64(b) == 1,
    decreases b,
{
    lemma_popcount64_step(b);
    if b == 1 {
        assert(1u64 & 1 == 1 && 1u64 >> 1u64 == 0) by (bit_vector);
    } else {
        assert(b & 1 == 0 && single_bit64(b >> 1u64) && (b >> 1u64) < b) by (bit_vector)
            requires
                b != 0 && b & (b - 1) as u64 == 0 && b != 1,
        ;
        lemma_single_bit_popcount(b >> 1u64);
    }
}

/// The single set bit of `1 << s` is bit `s`.
pub proof fn lemma_shl1_single(s: u64)
    by (bit_vector)
    requires
        s < 64,
    ensures
        single_bit64(1u64 << s),
{
}

} // verus!
