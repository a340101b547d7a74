//! Widening a 32-bit IEEE-754 number to a double, on their bits.

use vstd::arithmetic::power2::{lemma2_to64, lemma_pow2_adds, lemma_pow2_unfold, pow2};
use vstd::prelude::*;

verus! {

/// Whether the 32-bit number with these bits is finite: no infinity and no
/// NaN.
pub open spec fn is_finite(bits: u32) -> bool {
    (bits >> 23) & 0xFF != 0xFF
}

/// The size of a finite 32-bit number: the pair `(s, x)` stands for
/// `s * 2^x`.
pub open spec fn single_size(bits: u32) -> (int, int) {
    let e = ((bits >> 23) & 0xFF) as int;
    let m = (bits & 0x7F_FFFF) as int;
    if e == 0 {
        (m, -149)
    } else {
        (0x80_0000 + m, e - 150)
    }
}

/// The size of a finite double: the pair `(s, x)` stands for `s * 2^x`.
pub open spec fn double_size(bits: u64) -> (int, int) {
    let e = ((bits >> 52) & 0x7FF) as int;
    let m = (bits & 0xF_FFFF_FFFF_FFFF) as int;
    if e == 0 {
        (m, -1074)
    } else {
        (0x10_0000_0000_0000 + m, e - 1075)
    }
}

/// The fraction of a subnormal number shifted left until its leading one
/// reaches bit 23, with the number of places it was shifted, in at most
/// `fuel` steps.
pub open spec fn normalized(m: u32, fuel: nat) -> (u32, nat)
    decreases fuel,
{
    if fuel == 0 || m & 0x80_0000 != 0 {
        (m, 0)
    } else {
        let rest = normalized(m << 1, (fuel - 1) as nat);
        (rest.0, rest.1 + 1)
    }
}

/// The bits of the double that has the value of the 32-bit number with
/// bits `bits`: the sign as it is; an infinity as an infinity; a NaN as a
/// quiet NaN with the same payload; a zero as a zero; a subnormal number
/// normalized; any other number with its exponent rebased and its fraction
/// moved up by 29 places.
pub open spec fn widened(bits: u32) -> u64 {
    let sign = ((bits >> 31) as u64) << 63;
    let e = (bits >> 23) & 0xFF;
    let m = bits & 0x7F_FFFF;
    if e == 0xFF {
        if m == 0 {
            sign | 0x7FF0_0000_0000_0000
        } else {
            sign | 0x7FF8_0000_0000_0000 | ((m as u64) << 29)
        }
    } else if e == 0 {
        if m == 0 {
            sign
        } else {
            let n = normalized(m, 23);
            sign | (((897 - n.1) as u64) << 52) | (((n.0 & 0x7F_FFFF) as u64) << 29)
        }
    } else {
        sign | (((e + 896) as u64) << 52) | ((m as u64) << 29)
    }
}

/// Normalizing a fraction shifts it by as many places as doubles it into
/// the range of a leading one at bit 23.
pub proof fn lemma_normalized(m: u32, fuel: nat)
    requires
        0 < m < 0x100_0000,
        m * pow2(fuel) >= 0x80_0000,
    ensures
        0x80_0000 <= normalized(m, fuel).0 < 0x100_0000,
        normalized(m, fuel).0 == m * pow2(normalized(m, fuel).1),
        normalized(m, fuel).1 <= fuel,
    decreases fuel,
{
    lemma2_to64();
    assert(m * pow2(0) == m) by (nonlinear_arith)
        requires
            pow2(0) == 1,
    ;
    if m & 0x80_0000 != 0 {
        assert(m >= 0x80_0000) by (bit_vector)
            requires
                m & 0x80_0000 != 0,
        ;
        assert(normalized(m, fuel) == (m, 0nat));
    } else {
        assert(m < 0x80_0000) by (bit_vector)
            requires
                m < 0x100_0000,
                m & 0x80_0000 == 0,
        ;
        assert(m << 1 == 2 * m) by (bit_vector)
            requires
                m < 0x80_0000,
        ;
        if fuel > 0 {
            let rest = (fuel - 1) as nat;
            lemma_pow2_unfold(fuel);
            assert((2 * m) * pow2(rest) == m * pow2(fuel)) by (nonlinear_arith)
                requires
                    pow2(fuel) == 2 * pow2(rest),
            ;
            lemma_normalized(m << 1, rest);
            let k = normalized(m << 1, rest).1;
            lemma_pow2_unfold(k + 1);
            assert((2 * m) * pow2(k) == m * pow2(k + 1)) by (nonlinear_arith)
                requires
                    pow2(k + 1) == 2 * pow2(k),
            ;
            assert(normalized(m, fuel) == (normalized(m << 1, rest).0, k + 1));
        } else {
            assert(normalized(m, fuel) == (m, 0nat));
        }
    }
}

/// Widening keeps the sign and the value of every finite number: the
/// double stands for the same `s * 2^x`, written with a smaller `x`.
pub proof fn lemma_widened_keeps_value(bits: u32)
    requires
        is_finite(bits),
    ensures
        widened(bits) >> 63 == bits >> 31,
        double_size(widened(bits)).1 <= single_size(bits).1,
        double_size(widened(bits)).0 == single_size(bits).0 * pow2(
            (single_size(bits).1 - double_size(widened(bits)).1) as nat,
        ),
{
    lemma2_to64();
    let s = (bits >> 31) as u64;
    let e = (bits >> 23) & 0xFF;
    let m = bits & 0x7F_FFFF;
    assert(e <= 0xFF && m <= 0x7F_FFFF && (bits >> 31) <= 1) by (bit_vector)
        requires
            e == (bits >> 23) & 0xFF,
            m == bits & 0x7F_FFFF,
    ;
    let w = widened(bits);
    if e == 0 && m == 0 {
        assert(w == s << 63);
        assert((s << 63) >> 63 == s && ((s << 63) >> 52) & 0x7FF == 0 && (s << 63)
            & 0xF_FFFF_FFFF_FFFF == 0) by (bit_vector)
            requires
                s <= 1,
        ;
        assert(0 == 0 * pow2(925)) by (nonlinear_arith);
    } else {
        let (ee, mm): (u64, u64) = if e == 0 {
            lemma_pow2_adds(0, 23);
            assert(m * pow2(23) >= 0x80_0000) by (nonlinear_arith)
                requires
                    m >= 1,
                    pow2(23) == 0x80_0000,
            ;
            lemma_normalized(m, 23);
            let n = normalized(m, 23);
            assert(n.1 >= 1) by {
                if n.1 == 0 {
                    assert(n.0 == m * pow2(0));
                }
            }
            let t = n.0;
            assert(t & 0x7F_FFFF == t - 0x80_0000) by (bit_vector)
                requires
                    0x80_0000 <= t < 0x100_0000,
            ;
            ((897 - n.1) as u64, (t & 0x7F_FFFF) as u64)
        } else {
            ((e + 896) as u64, m as u64)
        };
        assert(w == (s << 63) | (ee << 52) | (mm << 29));
        assert(((s << 63) | (ee << 52) | (mm << 29)) >> 63 == s && ((((s << 63) | (ee << 52) | (mm
            << 29)) >> 52) & 0x7FF) == ee && (((s << 63) | (ee << 52) | (mm << 29))
            & 0xF_FFFF_FFFF_FFFF) == mm * 0x2000_0000) by (bit_vector)
            requires
                s <= 1,
                0 < ee < 0x7FF,
                mm < 0x80_0000,
        ;
        if e == 0 {
            let n = normalized(m, 23);
            let k = n.1;
            lemma_pow2_adds(k, 29);
            assert((0x80_0000 + mm) * 0x2000_0000 == m * pow2(k + 29)) by (nonlinear_arith)
                requires
                    0x80_0000 + mm == m * pow2(k),
                    pow2(k + 29) == pow2(k) * 0x2000_0000,
            ;
        }
    }
}

/// Widening turns an infinity into the infinity of the same sign, and a
/// NaN into a quiet NaN of the same sign.
pub proof fn lemma_widened_special(bits: u32)
    requires
        !is_finite(bits),
    ensures
        widened(bits) >> 63 == bits >> 31,
        (widened(bits) >> 52) & 0x7FF == 0x7FF,
        bits & 0x7F_FFFF == 0 <==> widened(bits) & 0xF_FFFF_FFFF_FFFF == 0,
        bits & 0x7F_FFFF != 0 ==> widened(bits) & 0x8_0000_0000_0000 != 0,
{
    let s = (bits >> 31) as u64;
    let m = (bits & 0x7F_FFFF) as u64;
    assert(m <= 0x7F_FFFF && (bits >> 31) <= 1) by (bit_vector)
        requires
            m == (bits & 0x7F_FFFF) as u64,
    ;
    if m == 0 {
        let w = (s << 63) | 0x7FF0_0000_0000_0000;
        assert(w >> 63 == s && (w >> 52) & 0x7FF == 0x7FF && w & 0xF_FFFF_FFFF_FFFF == 0)
            by (bit_vector)
            requires
                s <= 1,
                w == (s << 63) | 0x7FF0_0000_0000_0000,
        ;
    } else {
        let w = (s << 63) | 0x7FF8_0000_0000_0000 | (m << 29);
        assert(w >> 63 == s && (w >> 52) & 0x7FF == 0x7FF && w & 0xF_FFFF_FFFF_FFFF != 0 && w
            & 0x8_0000_0000_0000 != 0) by (bit_vector)
            requires
                s <= 1,
                m <= 0x7F_FFFF,
                w == (s << 63) | 0x7FF8_0000_0000_0000 | (m << 29),
        ;
    }
}

/// Widens a 32-bit number to a double, on their bits.
pub fn widen(bits: u32) -> (r: u64)
    ensures
        r == widened(bits),
{
    let sign = ((bits >> 31) as u64) << 63;
    let e = (bits >> 23) & 0xFF;
    let m = bits & 0x7F_FFFF;
    assert(e <= 0xFF) by (bit_vector)
        requires
            e == (bits >> 23) & 0xFF,
    ;
    if e == 0xFF {
        if m == 0 {
            sign | 0x7FF0_0000_0000_0000
        } else {
            sign | 0x7FF8_0000_0000_0000 | ((m as u64) << 29)
        }
    } else if e == 0 {
        if m == 0 {
            sign
        } else {
            let mut t: u32 = m;
            let mut k: u32 = 0;
            while k < 23 && t & 0x80_0000 == 0
                invariant
                    k <= 23,
                    normalized(m, 23).0 == normalized(t, (23 - k) as nat).0,
                    normalized(m, 23).1 == normalized(t, (23 - k) as nat).1 + k,
                decreases 23 - k,
            {
                t = t << 1;
                k = k + 1;
            }
            sign | (((897 - k) as u64) << 52) | (((t & 0x7F_FFFF) as u64) << 29)
        }
    } else {
        sign | (((e + 896) as u64) << 52) | ((m as u64) << 29)
    }
}

} // verus!
