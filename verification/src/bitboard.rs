//! 64-bit set-of-squares: bit i set means square i is a member.
//! Square 0 = a1, 7 = h1, 56 = a8, 63 = h8.

use vstd::prelude::*;
use vstd::std_specs::bits::u64_trailing_zeros;
use vstd::std_specs::bits::u64_leading_zeros;
use vstd::std_specs::bits::axiom_u64_trailing_zeros;
use vstd::std_specs::bits::axiom_u64_leading_zeros;
use vstd::arithmetic::power2::pow2;
use vstd::arithmetic::power2::lemma2_to64;
use vstd::arithmetic::power2::lemma_pow2_strictly_increases;
use crate::bits::bit64;
use crate::bits::popcount64;
use crate::bits::lemma_bit64_and;
use crate::bits::lemma_bit64_not;
use crate::bits::lemma_bit64_single;
use crate::bits::lemma_popcount64_step;

verus! {

/// All squares of the a-file.
pub const FILE_A: u64 = 0x0101010101010101;

/// All squares of the h-file.
pub const FILE_H: u64 = 0x8080808080808080;

/// All squares of the first rank.
pub const RANK_1: u64 = 0x00000000000000ff;

/// All squares of the eighth rank.
pub const RANK_8: u64 = 0xff00000000000000;

/// The four borders of the board.
pub const EDGES: u64 = FILE_A | FILE_H | RANK_1 | RANK_8;

#[derive(PartialEq, Eq, Structural, Clone, Copy, Debug)]
pub struct BitBoard {
    pub value: u64,
}

/// Index of the square one file east of `i`, etc.; the spec side of the shifts.
pub open spec fn north_of(b: u64) -> u64 {
    b << 8
}

pub open spec fn south_of(b: u64) -> u64 {
    b >> 8
}

pub open spec fn east_of(b: u64) -> u64 {
    (b << 1) & !FILE_A
}

pub open spec fn west_of(b: u64) -> u64 {
    (b >> 1) & !FILE_H
}

pub open spec fn northeast_of(b: u64) -> u64 {
    (b << 9) & !FILE_A
}

pub open spec fn northwest_of(b: u64) -> u64 {
    (b << 7) & !FILE_H
}

pub open spec fn southeast_of(b: u64) -> u64 {
    (b >> 7) & !FILE_A
}

pub open spec fn southwest_of(b: u64) -> u64 {
    (b >> 9) & !FILE_H
}

/// `b` shifted east by `n` files, clearing the wrap-around column at each step.
pub open spec fn east_steps(b: u64, n: nat) -> u64
    decreases n,
{
    if n == 0 {
        b
    } else {
        east_of(east_steps(b, (n - 1) as nat))
    }
}

/// `b` shifted west by `n` files, clearing the wrap-around column at each step.
pub open spec fn west_steps(b: u64, n: nat) -> u64
    decreases n,
{
    if n == 0 {
        b
    } else {
        west_of(west_steps(b, (n - 1) as nat))
    }
}

/// Compound shift by (`dx` files, `dy` ranks): ranks first, then files step by step.
pub open spec fn shift_xy(b: u64, dx: int, dy: int) -> u64 {
    let v = if dy >= 0 {
        b << (8 * dy)
    } else {
        b >> (8 * -dy)
    };
    if dx >= 0 {
        east_steps(v, dx as nat)
    } else {
        west_steps(v, (-dx) as nat)
    }
}

/// Square index with the rank mirrored (a1 <-> a8).
pub open spec fn mirror_v_index(i: u64) -> u64 {
    i ^ 56
}

/// Square index with the file mirrored (a1 <-> h1).
pub open spec fn mirror_h_index(i: u64) -> u64 {
    i ^ 7
}

/// Square index transposed along the a1-h8 diagonal.
pub open spec fn mirror_a1h8_index(i: u64) -> u64 {
    ((i & 7) << 3) | (i >> 3)
}

/// Square index reflected along the a8-h1 diagonal.
pub open spec fn mirror_a8h1_index(i: u64) -> u64 {
    63 ^ (((i & 7) << 3) | (i >> 3))
}

spec fn mirror_v_val(b: u64) -> u64 {
    (0u64 | ((b >> 56) & RANK_1)) | (((b >> 48) & RANK_1) << 8) | (((b >> 40) & RANK_1) << 16) | ((
    (b >> 32) & RANK_1) << 24) | (((b >> 24) & RANK_1) << 32) | (((b >> 16) & RANK_1) << 40) | (((b
        >> 8) & RANK_1) << 48) | ((b & RANK_1) << 56)
}

spec fn mirror_h_val(b: u64) -> u64 {
    let b1 = ((b >> 1) & 0x5555555555555555) | ((b & 0x5555555555555555) << 1);
    let b2 = ((b1 >> 2) & 0x3333333333333333) | ((b1 & 0x3333333333333333) << 2);
    ((b2 >> 4) & 0x0f0f0f0f0f0f0f0f) | ((b2 & 0x0f0f0f0f0f0f0f0f) << 4)
}

spec fn mirror_a1h8_val(b: u64) -> u64 {
    let t0 = 0x0f0f0f0f00000000 & (b ^ (b << 28));
    let b0 = b ^ (t0 ^ (t0 >> 28));
    let t1 = 0x3333000033330000 & (b0 ^ (b0 << 14));
    let b1 = b0 ^ (t1 ^ (t1 >> 14));
    let t2 = 0x5500550055005500 & (b1 ^ (b1 << 7));
    b1 ^ (t2 ^ (t2 >> 7))
}

spec fn mirror_a8h1_val(b: u64) -> u64 {
    let t0 = b ^ (b << 36);
    let b0 = b ^ (0xf0f0f0f00f0f0f0f & (t0 ^ (b >> 36)));
    let t1 = 0xcccc0000cccc0000 & (b0 ^ (b0 << 18));
    let b1 = b0 ^ (t1 ^ (t1 >> 18));
    let t2 = 0xaa00aa00aa00aa00 & (b1 ^ (b1 << 9));
    b1 ^ (t2 ^ (t2 >> 9))
}

proof fn lemma_mirror_v(b: u64, i: u64)
    by (bit_vector)
    requires
        i < 64,
    ensures
        bit64(mirror_v_val(b), i) == bit64(b, i ^ 56),
{
}

proof fn lemma_mirror_h(b: u64, i: u64)
    by (bit_vector)
    requires
        i < 64,
    ensures
        bit64(mirror_h_val(b), i) == bit64(b, i ^ 7),
{
}

proof fn lemma_mirror_a1h8(b: u64, i: u64)
    by (bit_vector)
    requires
        i < 64,
    ensures
        bit64(mirror_a1h8_val(b), i) == bit64(b, ((i & 7) << 3) | (i >> 3)),
{
}

proof fn lemma_mirror_a8h1(b: u64, i: u64)
    by (bit_vector)
    requires
        i < 64,
    ensures
        bit64(mirror_a8h1_val(b), i) == bit64(b, 63 ^ (((i & 7) << 3) | (i >> 3))),
{
}

proof fn lemma_popcount64_pow_bound(b: u64, n: nat)
    requires
        b < pow2(n),
    ensures
        popcount64(b) <= n,
    decreases n,
{
    if b == 0 {
    } else {
        if n == 0 {
            assert(pow2(0) == 1) by {
                lemma2_to64();
            }
        } else {
            assert(b / 2 < pow2((n - 1) as nat)) by {
                assert(pow2(n) == 2 * pow2((n - 1) as nat)) by {
                    vstd::arithmetic::power2::lemma_pow2_unfold(n);
                }
            }
            lemma_popcount64_pow_bound(b / 2, (n - 1) as nat);
            crate::bits::lemma_low_bit_is_01(b);
        }
    }
}

/// Any 64-bit word has at most 64 set bits.
pub proof fn lemma_popcount64_le(b: u64)
    ensures
        popcount64(b) <= 64,
{
    lemma2_to64();
    assert(pow2(64) == 0x10000000000000000) by {
        vstd::arithmetic::power2::lemma_pow2_adds(32, 32);
    }
    lemma_popcount64_pow_bound(b, 64);
}

impl BitBoard {
    #[verifier::inline]
    pub open spec fn spec_has(self, i: u64) -> bool {
        bit64(self.value, i)
    }

    pub fn empty() -> (r: Self)
        ensures
            r.value == 0,
    {
        BitBoard { value: 0 }
    }

    pub fn full() -> (r: Self)
        ensures
            r.value == 0xffffffffffffffff,
    {
        BitBoard { value: 0xffffffffffffffff }
    }

    pub fn from(value: u64) -> (r: Self)
        ensures
            r.value == value,
    {
        BitBoard { value }
    }

    pub fn raw(self) -> (r: u64)
        ensures
            r == self.value,
    {
        self.value
    }

    pub fn is_empty(&self) -> (r: bool)
        ensures
            r == (self.value == 0),
    {
        self.value == 0
    }

    pub fn is_empty_bit(&self, position: u64) -> (r: bool)
        requires
            position < 64,
        ensures
            r == !bit64(self.value, position),
    {
        let v = self.value;
        let mask = 1u64 << position;
        let r = v & mask == 0;
        proof {
            assert(v & (1u64 << position) == 0 <==> (v >> position) & 1 != 1) by (bit_vector)
                requires
                    position < 64,
            ;
        }
        r
    }

    pub fn is_bit_set(&self, position: u64) -> (r: bool)
        requires
            position < 64,
        ensures
            r == bit64(self.value, position),
    {
        !self.is_empty_bit(position)
    }

    pub fn remove_bit(&self, position: u64) -> (r: BitBoard)
        requires
            position < 64,
        ensures
            r.value == self.value & !(1u64 << position),
            forall|i: u64|
                i < 64 ==> (bit64(r.value, i) <==> (bit64(self.value, i) && i != position)),
    {
        let mask = 1u64 << position;
        let new_value = self.value & !mask;
        proof {
            assert forall|i: u64| i < 64 implies (bit64(new_value, i) <==> (bit64(self.value, i)
                && i != position)) by {
                lemma_bit64_and(self.value, !(1u64 << position), i);
                lemma_bit64_not(1u64 << position, i);
                lemma_bit64_single(position, i);
            }
        }
        BitBoard { value: new_value }
    }

    /// Index of the lowest set bit; zero when the board is empty.
    pub fn lsb(self) -> (r: usize)
        ensures
            self.value == 0 ==> r == 0,
            self.value != 0 ==> r < 64 && bit64(self.value, r as u64) && (forall|j: u64|
                j < r ==> !bit64(self.value, j)),
    {
        if self.value == 0 {
            return 0;
        }
        proof {
            axiom_u64_trailing_zeros(self.value);
        }
        self.value.trailing_zeros() as usize
    }

    /// Number of set bits.
    pub fn bit_count(&self) -> (r: u32)
        ensures
            r == popcount64(self.value),
    {
        let mut b = self.value;
        let mut c: u32 = 0;
        proof {
            lemma_popcount64_le(self.value);
        }
        while b != 0
            invariant
                c + popcount64(b) == popcount64(self.value),
                popcount64(self.value) <= 64,
            decreases b,
        {
            proof {
                lemma_popcount64_step(b);
                assert(b >> 1u64 < b && (b & 1) <= 1) by (bit_vector)
                    requires
                        b != 0,
                ;
            }
            c = c + (b & 1) as u32;
            b = b >> 1u64;
        }
        c
    }

    /// Index of the highest set bit; zero when the board is empty.
    pub fn msb(&self) -> (r: usize)
        ensures
            self.value == 0 ==> r == 0,
            self.value != 0 ==> r < 64 && bit64(self.value, r as u64) && (forall|j: u64|
                r < j < 64 ==> !bit64(self.value, j)),
    {
        if self.value == 0 {
            return 0;
        }
        proof {
            axiom_u64_leading_zeros(self.value);
        }
        let lz = self.value.leading_zeros();
        let r = (63 - lz) as usize;
        proof {
            let v = self.value;
            let k = r as u64;
            assert((v >> k) & 1 != 0 ==> (v >> k) & 1 == 1) by (bit_vector);
        }
        r
    }

    pub fn and(self, other: BitBoard) -> (r: BitBoard)
        ensures
            r.value == self.value & other.value,
    {
        BitBoard { value: self.value & other.value }
    }

    pub fn or(self, other: BitBoard) -> (r: BitBoard)
        ensures
            r.value == self.value | other.value,
    {
        BitBoard { value: self.value | other.value }
    }

    pub fn xor(self, other: BitBoard) -> (r: BitBoard)
        ensures
            r.value == self.value ^ other.value,
    {
        BitBoard { value: self.value ^ other.value }
    }

    pub fn inverted(self) -> (r: BitBoard)
        ensures
            r.value == !self.value,
    {
        BitBoard { value: !self.value }
    }

    pub fn mirrored_vertically(self) -> (r: Self)
        ensures
            forall|i: u64| i < 64 ==> (bit64(r.value, i) <==> bit64(self.value, mirror_v_index(i))),
    {
        let b = self.value;
        let mut result: u64 = 0;
        result = result | ((b >> 56) & RANK_1);
        result = result | (((b >> 48) & RANK_1) << 8);
        result = result | (((b >> 40) & RANK_1) << 16);
        result = result | (((b >> 32) & RANK_1) << 24);
        result = result | (((b >> 24) & RANK_1) << 32);
        result = result | (((b >> 16) & RANK_1) << 40);
        result = result | (((b >> 8) & RANK_1) << 48);
        result = result | ((b & RANK_1) << 56);
        proof {
            assert(result == mirror_v_val(b));
            assert forall|i: u64| i < 64 implies (bit64(result, i) <==> bit64(
                b,
                mirror_v_index(i),
            )) by {
                lemma_mirror_v(b, i);
            }
        }
        BitBoard { value: result }
    }

    pub fn mirrored_horizontally(self) -> (r: Self)
        ensures
            forall|i: u64| i < 64 ==> (bit64(r.value, i) <==> bit64(self.value, mirror_h_index(i))),
    {
        let k1: u64 = 0x5555555555555555;
        let k2: u64 = 0x3333333333333333;
        let k4: u64 = 0x0f0f0f0f0f0f0f0f;
        let mut b = self.value;
        b = ((b >> 1) & k1) | ((b & k1) << 1);
        b = ((b >> 2) & k2) | ((b & k2) << 2);
        b = ((b >> 4) & k4) | ((b & k4) << 4);
        proof {
            assert(b == mirror_h_val(self.value));
            assert forall|i: u64| i < 64 implies (bit64(b, i) <==> bit64(
                self.value,
                mirror_h_index(i),
            )) by {
                lemma_mirror_h(self.value, i);
            }
        }
        BitBoard { value: b }
    }

    pub fn mirrored_a1h8(self) -> (r: Self)
        ensures
            forall|i: u64|
                i < 64 ==> (bit64(r.value, i) <==> bit64(self.value, mirror_a1h8_index(i))),
    {
        let k1: u64 = 0x5500550055005500;
        let k2: u64 = 0x3333000033330000;
        let k4: u64 = 0x0f0f0f0f00000000;
        let mut b = self.value;
        let mut t = k4 & (b ^ (b << 28));
        b = b ^ (t ^ (t >> 28));
        t = k2 & (b ^ (b << 14));
        b = b ^ (t ^ (t >> 14));
        t = k1 & (b ^ (b << 7));
        b = b ^ (t ^ (t >> 7));
        proof {
            assert(b == mirror_a1h8_val(self.value));
            assert forall|i: u64| i < 64 implies (bit64(b, i) <==> bit64(
                self.value,
                mirror_a1h8_index(i),
            )) by {
                lemma_mirror_a1h8(self.value, i);
            }
        }
        BitBoard { value: b }
    }

    pub fn mirrored_a8h1(self) -> (r: Self)
        ensures
            forall|i: u64|
                i < 64 ==> (bit64(r.value, i) <==> bit64(self.value, mirror_a8h1_index(i))),
    {
        let k1: u64 = 0xaa00aa00aa00aa00;
        let k2: u64 = 0xcccc0000cccc0000;
        let k4: u64 = 0xf0f0f0f00f0f0f0f;
        let mut b = self.value;
        let mut t = b ^ (b << 36);
        b = b ^ (k4 & (t ^ (b >> 36)));
        t = k2 & (b ^ (b << 18));
        b = b ^ (t ^ (t >> 18));
        t = k1 & (b ^ (b << 9));
        b = b ^ (t ^ (t >> 9));
        proof {
            assert(b == mirror_a8h1_val(self.value));
            assert forall|i: u64| i < 64 implies (bit64(b, i) <==> bit64(
                self.value,
                mirror_a8h1_index(i),
            )) by {
                lemma_mirror_a8h1(self.value, i);
            }
        }
        BitBoard { value: b }
    }

    pub fn shifted_north(self) -> (r: Self)
        ensures
            r.value == north_of(self.value),
    {
        BitBoard { value: self.value << 8 }
    }

    pub fn shifted_northeast(self) -> (r: Self)
        ensures
            r.value == northeast_of(self.value),
    {
        BitBoard { value: (self.value << 9) & !FILE_A }
    }

    pub fn shifted_east(self) -> (r: Self)
        ensures
            r.value == east_of(self.value),
    {
        BitBoard { value: (self.value << 1) & !FILE_A }
    }

    pub fn shifted_southeast(self) -> (r: Self)
        ensures
            r.value == southeast_of(self.value),
    {
        BitBoard { value: (self.value >> 7) & !FILE_A }
    }

    pub fn shifted_south(self) -> (r: Self)
        ensures
            r.value == south_of(self.value),
    {
        BitBoard { value: self.value >> 8 }
    }

    pub fn shifted_southwest(self) -> (r: Self)
        ensures
            r.value == southwest_of(self.value),
    {
        BitBoard { value: (self.value >> 9) & !FILE_H }
    }

    pub fn shifted_west(self) -> (r: Self)
        ensures
            r.value == west_of(self.value),
    {
        BitBoard { value: (self.value >> 1) & !FILE_H }
    }

    pub fn shifted_northwest(self) -> (r: Self)
        ensures
            r.value == northwest_of(self.value),
    {
        BitBoard { value: (self.value << 7) & !FILE_H }
    }

    /// Compound shift by (`dx` files, `dy` ranks) with wrap masks applied per file step.
    pub fn shifted(self, dx: i8, dy: i8) -> (r: Self)
        requires
            -7 <= dx <= 7,
            -7 <= dy <= 7,
        ensures
            r.value == shift_xy(self.value, dx as int, dy as int),
    {
        let mut b = self.value;
        if dy > 0 {
            b = b << ((dy as u64) * 8);
        }
        if dy < 0 {
            b = b >> ((-(dy as i64)) as u64 * 8);
        }
        proof {
            if dy == 0 {
                crate::bits::lemma_shift_by_zero(b);
            }
        }
        let ghost v = b;
        if dx > 0 {
            let steps = dx as u64;
            let mut i: u64 = 0;
            while i < steps
                invariant
                    i <= steps,
                    b == east_steps(v, i as nat),
                decreases steps - i,
            {
                b = (b << 1) & !FILE_A;
                i = i + 1;
            }
        }
        if dx < 0 {
            let steps = (-(dx as i64)) as u64;
            let mut i: u64 = 0;
            while i < steps
                invariant
                    i <= steps,
                    b == west_steps(v, i as nat),
                decreases steps - i,
            {
                b = (b >> 1) & !FILE_H;
                i = i + 1;
            }
        }
        BitBoard { value: b }
    }
}

} // verus!
