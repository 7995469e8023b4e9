//! Arithmetic on 32-bit machine words: the two's-complement reading of a word,
//! reduction modulo 2^32, sign extension, single bits and bytes.

use vstd::prelude::*;

verus! {

/// The two's-complement value of `w`.
pub open spec fn signed(w: u32) -> int {
    if w < 0x8000_0000 {
        w as int
    } else {
        w - 0x1_0000_0000
    }
}

/// The word congruent to `v` modulo 2^32.
pub open spec fn wrap(v: int) -> u32 {
    (v % 0x1_0000_0000) as u32
}

/// The word whose two's-complement value is that of the field `v`, a field that
/// holds the values `0..span` and whose upper half stands for negative numbers.
pub open spec fn sign_extend(v: int, span: int) -> u32 {
    if v < span / 2 {
        v as u32
    } else {
        (v - span + 0x1_0000_0000) as u32
    }
}

/// `w` rounded down to a multiple of four.
pub open spec fn align4(w: u32) -> u32 {
    (w - w % 4) as u32
}

/// Bit `i` of `w`.
pub open spec fn bit(w: u32, i: nat) -> bool {
    (w as nat / vstd::arithmetic::power2::pow2(i)) % 2 == 1
}

/// Byte `i` of `w`, counted from the least significant one.
pub open spec fn byte(w: u32, i: int) -> u8 {
    if i == 0 {
        (w % 0x100) as u8
    } else if i == 1 {
        (w / 0x100 % 0x100) as u8
    } else if i == 2 {
        (w / 0x1_0000 % 0x100) as u8
    } else {
        (w / 0x100_0000) as u8
    }
}

/// The number that `bytes` spell out in little-endian order.
pub open spec fn le_value(bytes: Seq<u8>) -> nat
    decreases bytes.len(),
{
    if bytes.len() == 0 {
        0
    } else {
        bytes[0] as nat + 0x100 * le_value(bytes.drop_first())
    }
}

/// The machine's signed reinterpretation of a word is its two's-complement value.
pub proof fn lemma_as_signed(w: u32)
    ensures
        (w as i32) as int == signed(w),
{
    assert((w as i32) as int == (if w < 0x8000_0000 {
        w as int
    } else {
        w - 0x1_0000_0000
    })) by (bit_vector);
}

/// The two readings of a word determine each other.
pub proof fn lemma_signed_wrap(w: u32)
    ensures
        wrap(signed(w)) == w,
        -0x8000_0000 <= signed(w) < 0x8000_0000,
{
}

/// Keeping the five low bits is taking the remainder by 32.
pub proof fn lemma_low5(b: u32)
    ensures
        b & 0x1F == b % 32,
{
    assert(b & 0x1F == b % 32) by (bit_vector);
}

/// A left shift multiplies by a power of two and drops what no longer fits.
pub proof fn lemma_shl(a: u32, sh: u32)
    requires
        sh < 32,
    ensures
        a << sh == wrap(a * vstd::arithmetic::power2::pow2(sh as nat)),
    decreases sh,
{
    let p = vstd::arithmetic::power2::pow2(sh as nat) as int;
    if sh == 0 {
        vstd::arithmetic::power2::lemma2_to64();
        assert(a << 0 == a) by (bit_vector);
    } else {
        let k: u32 = (sh - 1) as u32;
        let q = vstd::arithmetic::power2::pow2(k as nat) as int;
        lemma_shl(a, k);
        vstd::arithmetic::power2::lemma_pow2_unfold(sh as nat);
        let half = a << k;
        assert(a << sh == (half * 2 % 0x1_0000_0000) as u32) by (bit_vector)
            requires
                sh == k + 1,
                sh < 32,
                half == a << k,
        ;
        assert(a * p == (a * q) * 2) by (nonlinear_arith)
            requires
                p == 2 * q,
        ;
        vstd::arithmetic::div_mod::lemma_mul_mod_noop_left(a * q, 2, 0x1_0000_0000);
    }
}

/// A logical right shift divides by a power of two.
pub proof fn lemma_shr(a: u32, sh: u32)
    requires
        sh < 32,
    ensures
        a >> sh == a as nat / vstd::arithmetic::power2::pow2(sh as nat),
{
    vstd::bits::lemma_u32_shr_is_div(a, sh);
}

/// An arithmetic right shift divides the two's-complement value by a power of
/// two, rounding down.
pub proof fn lemma_sar(a: u32, sh: u32)
    requires
        sh < 32,
    ensures
        ((a as i32) >> sh) as u32 == wrap(
            signed(a) / vstd::arithmetic::power2::pow2(sh as nat) as int,
        ),
{
    let p = vstd::arithmetic::power2::pow2(sh as nat) as int;
    vstd::arithmetic::power2::lemma_pow2_pos(sh as nat);
    if a < 0x8000_0000 {
        assert(((a as i32) >> sh) as u32 == a >> sh) by (bit_vector)
            requires
                a < 0x8000_0000,
                sh < 32,
        ;
        lemma_shr(a, sh);
        assert(a as int / p <= a) by {
            vstd::arithmetic::div_mod::lemma_div_is_ordered_by_denominator(a as int, 1, p);
        }
        vstd::arithmetic::div_mod::lemma_div_pos_is_pos(a as int, p);
    } else {
        let c: u32 = !a;
        assert(((a as i32) >> sh) as u32 == !(c >> sh)) by (bit_vector)
            requires
                a >= 0x8000_0000,
                c == !a,
                sh < 32,
        ;
        assert(c == 0xFFFF_FFFF - a) by (bit_vector)
            requires
                c == !a,
        ;
        let s = c >> sh;
        assert(!s == 0xFFFF_FFFF - s) by (bit_vector);
        lemma_shr(c, sh);
        // signed(a) == -1 - c, and floor((-1 - c) / p) == -1 - floor(c / p).
        let q = c as int / p;
        let r = c as int % p;
        vstd::arithmetic::div_mod::lemma_fundamental_div_mod(c as int, p);
        assert(signed(a) == p * (-1 - q) + (p - 1 - r)) by (nonlinear_arith)
            requires
                signed(a) == -1 - c as int,
                c as int == p * q + r,
        ;
        vstd::arithmetic::div_mod::lemma_fundamental_div_mod_converse(
            signed(a),
            p,
            -1 - q,
            p - 1 - r,
        );
    }
}

} // verus!
