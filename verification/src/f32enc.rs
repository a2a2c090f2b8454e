//! Encoding fixed-point values as IEEE 754 single-precision bit patterns.
//!
//! The binary container stores positions and normals as 32-bit floats. A
//! fixed-point value of `v` micro-units stands for the real number
//! `v / 1_000_000`; its nearest single-precision neighbour (ties to even)
//! is computed here in pure integer arithmetic, so the encoding is exact
//! and fully specified. Values are bounded well inside the normal range of
//! the format, so neither subnormals nor infinities arise.

use vstd::prelude::*;
use vstd::arithmetic::power2::pow2;

use crate::vec3::SCALE;

verus! {

/// Largest fixed-point magnitude the encoder accepts: one thousand units.
pub const F32_INPUT_LIMIT: i64 = 1000000000;

/// The binade index of the magnitude `m` micro-units: the smallest `j`
/// (at most 29) such that `m * 2^20 < 2^(j + 1) * 1_000_000`; the binary
/// exponent of the encoded value is then `j - 20`.
pub open spec fn binade_from(m: int, j: nat) -> nat
    decreases 29 - j,
{
    if j >= 29 {
        29
    } else if m * pow2(20) < pow2(j + 1) * (SCALE as int) {
        j
    } else {
        binade_from(m, j + 1)
    }
}

/// The IEEE 754 single-precision bit pattern nearest to `v / 1_000_000`,
/// rounding ties to even. Defined for magnitudes up to a thousand units,
/// which always encode as normal numbers.
pub open spec fn f32_bits_of(v: int) -> u32 {
    if v == 0 {
        0
    } else {
        let sign: int = if v < 0 {
            1
        } else {
            0
        };
        let m = if v < 0 {
            -v
        } else {
            v
        };
        let j = binade_from(m, 0);
        let num = m * pow2((43 - j) as nat);
        let q = num / (SCALE as int);
        let r = num % (SCALE as int);
        let s = if 2 * r > SCALE as int || (2 * r == SCALE as int && q % 2 == 1) {
            q + 1
        } else {
            q
        };
        if s == pow2(24) {
            (sign * pow2(31) + (j + 108) * pow2(23)) as u32
        } else {
            (sign * pow2(31) + (j + 107) * pow2(23) + (s - pow2(23))) as u32
        }
    }
}

/// `2^k` as an exec value, for `k` up to 44.
fn pow2_exec(k: u64) -> (r: u128)
    requires
        k <= 44,
    ensures
        r == pow2(k as nat),
{
    proof {
        vstd::arithmetic::power2::lemma2_to64();
        vstd::arithmetic::power2::lemma2_to64_rest();
    }
    let mut p: u128 = 1;
    for i in 0..k
        invariant
            k <= 44,
            p == pow2(i as nat),
    {
        proof {
            vstd::arithmetic::power2::lemma2_to64();
            vstd::arithmetic::power2::lemma2_to64_rest();
            vstd::arithmetic::power2::lemma_pow2_strictly_increases(i as nat, 45);
            vstd::arithmetic::power2::lemma_pow2_adds(44, 1);
            vstd::arithmetic::power2::lemma_pow2_unfold((i + 1) as nat);
        }
        p = p * 2;
    }
    p
}

/// Computes the IEEE 754 single-precision bit pattern nearest to
/// `v / 1_000_000`, rounding ties to even.
pub fn f32_bits(v: i64) -> (r: u32)
    requires
        -F32_INPUT_LIMIT <= v <= F32_INPUT_LIMIT,
    ensures
        r == f32_bits_of(v as int),
{
    if v == 0 {
        return 0;
    }
    let sign: u32 = if v < 0 {
        1
    } else {
        0
    };
    let m: u128 = if v < 0 {
        (-v) as u128
    } else {
        v as u128
    };

    // Find the binade: the power of two just below the magnitude.
    let m_scaled: u128 = m * 1048576;
    proof {
        vstd::arithmetic::power2::lemma2_to64();
        vstd::arithmetic::power2::lemma2_to64_rest();
        assert(m_scaled == (m as int) * pow2(20));
    }
    let mut j: u64 = 0;
    while j < 29
        invariant
            j <= 29,
            binade_from(m as int, 0) == binade_from(m as int, j as nat),
            m_scaled == (m as int) * pow2(20),
            1 <= m <= F32_INPUT_LIMIT as u128,
        ensures
            j <= 29,
            binade_from(m as int, 0) == j as nat,
            m_scaled == (m as int) * pow2(20),
        decreases 29 - j,
    {
        proof {
            vstd::arithmetic::power2::lemma2_to64();
            vstd::arithmetic::power2::lemma2_to64_rest();
            vstd::arithmetic::power2::lemma_pow2_strictly_increases((j + 1) as nat, 31);
        }
        let threshold: u128 = pow2_exec(j + 1) * 1000000;
        if m_scaled < threshold {
            proof {
                assert(binade_from(m as int, j as nat) == j as nat);
            }
            break ;
        }
        j = j + 1;
    }

    // Scale the magnitude so the quotient below lands in [2^23, 2^24).
    let shift: u64 = 43 - j;
    let factor = pow2_exec(shift);
    proof {
        vstd::arithmetic::power2::lemma2_to64();
        vstd::arithmetic::power2::lemma2_to64_rest();
        vstd::arithmetic::power2::lemma_pow2_strictly_increases(shift as nat, 44);
        crate::vec3::lemma_mul_le(m as int, factor as int, F32_INPUT_LIMIT as int, pow2(
            43) as int);
    }
    let num: u128 = m * factor;
    let q: u128 = num / 1000000;
    let r: u128 = num % 1000000;
    let s: u128 = if 2 * r > 1000000 || (2 * r == 1000000 && q % 2 == 1) {
        q + 1
    } else {
        q
    };
    proof {
        vstd::arithmetic::power2::lemma2_to64();
        vstd::arithmetic::power2::lemma2_to64_rest();
        lemma_quotient_bounds(m as int, j as nat, factor as int, num as int, q as int);
        assert(8388608 <= s <= 16777216);
    }
    let exp_field: u64 = if s == 16777216 {
        j + 108
    } else {
        j + 107
    };
    let mantissa: u64 = if s == 16777216 {
        0
    } else {
        (s as u64) - 8388608
    };
    let bits: u64 = (sign as u64) * 2147483648 + exp_field * 8388608 + mantissa;
    proof {
        assert(bits == f32_bits_of(v as int));
    }
    bits as u32
}

/// In the found binade, the scaled magnitude divided by the scale lands
/// in `[2^23, 2^24)`: a normal significand.
proof fn lemma_quotient_bounds(m: int, j: nat, factor: int, num: int, q: int)
    requires
        1 <= m <= F32_INPUT_LIMIT as int,
        j == binade_from(m, 0),
        j <= 29,
        factor == pow2((43 - j) as nat),
        num == m * factor,
        q == num / (SCALE as int),
    ensures
        pow2(23) <= q < pow2(24),
{
    lemma_binade_correct(m, 0, j);
    vstd::arithmetic::power2::lemma2_to64();
    vstd::arithmetic::power2::lemma2_to64_rest();
    let scale = SCALE as int;
    let p20 = pow2(20) as int;
    let pshift = pow2((43 - j) as nat) as int;

    // Lower bound: num >= 2^23 * SCALE.
    if j == 0 {
        // factor is 2^43, and 2^43 already exceeds 2^23 * SCALE.
        assert(num >= pow2(43)) by (nonlinear_arith)
            requires
                num == m * factor,
                m >= 1,
                factor == pow2(43) as int,
                factor > 0,
        ;
        assert(pow2(43) >= pow2(23) * scale);
    } else {
        assert(m * p20 >= pow2(j) * scale);
        vstd::arithmetic::power2::lemma_pow2_adds(j, (43 - j) as nat);
        vstd::arithmetic::power2::lemma_pow2_adds(20, 23);
        assert(num * p20 >= (pow2(23) * scale) * p20) by (nonlinear_arith)
            requires
                num == m * pshift,
                m * p20 >= pow2(j) * scale,
                pshift > 0,
                p20 > 0,
                (pow2(j) as int) * pshift == pow2(43),
                (pow2(20) as int) * (pow2(23) as int) == pow2(43),
                p20 == pow2(20) as int,
        ;
        assert(num >= pow2(23) * scale) by (nonlinear_arith)
            requires
                num * p20 >= (pow2(23) * scale) * p20,
                p20 > 0,
        ;
    }
    vstd::arithmetic::div_mod::lemma_div_is_ordered(pow2(23) * scale, num, scale);
    assert((pow2(23) * scale) / scale == pow2(23)) by {
        vstd::arithmetic::div_mod::lemma_div_by_multiple(pow2(23) as int, scale);
    }

    // Upper bound: num < 2^24 * SCALE.
    assert(m * p20 < pow2(j + 1) * scale);
    vstd::arithmetic::power2::lemma_pow2_adds(j + 1, (43 - j) as nat);
    vstd::arithmetic::power2::lemma_pow2_adds(20, 24);
    assert(num * p20 < (pow2(24) * scale) * p20) by (nonlinear_arith)
        requires
            num == m * pshift,
            m * p20 < pow2(j + 1) * scale,
            pshift > 0,
            p20 > 0,
            (pow2((j + 1) as nat) as int) * pshift == pow2(44),
            (pow2(20) as int) * (pow2(24) as int) == pow2(44),
            p20 == pow2(20) as int,
    ;
    assert(num < pow2(24) * scale) by (nonlinear_arith)
        requires
            num * p20 < (pow2(24) * scale) * p20,
            p20 > 0,
    ;
    assert(q < pow2(24)) by {
        vstd::arithmetic::div_mod::lemma_div_is_ordered(num, pow2(24) * scale - 1, scale);
        vstd::arithmetic::div_mod::lemma_fundamental_div_mod_converse(
            pow2(24) * scale - 1,
            scale,
            pow2(24) - 1,
            scale - 1,
        );
    }
}

/// The binade scan is correct: at its result `j`, the magnitude lies in
/// `[2^j * SCALE / 2^20, 2^(j + 1) * SCALE / 2^20)` (except that the lower
/// bound holds vacuously at the scan's start index).
proof fn lemma_binade_correct(m: int, lo: nat, j: nat)
    requires
        1 <= m <= F32_INPUT_LIMIT as int,
        j == binade_from(m, lo),
        lo <= 29,
        lo == 0 || m * pow2(20) >= pow2(lo) * (SCALE as int),
    ensures
        j <= 29,
        m * pow2(20) < pow2(j + 1) * (SCALE as int),
        m * pow2(20) >= pow2(j) * (SCALE as int) || j == 0,
    decreases 29 - lo,
{
    vstd::arithmetic::power2::lemma2_to64();
        vstd::arithmetic::power2::lemma2_to64_rest();
    if lo >= 29 {
        assert(j == 29);
        assert(pow2(30) == 0x40000000);
        assert(m * pow2(20) <= (F32_INPUT_LIMIT as int) * pow2(20)) by (nonlinear_arith)
            requires
                1 <= m <= F32_INPUT_LIMIT as int,
                pow2(20) > 0,
        ;
        assert((F32_INPUT_LIMIT as int) * pow2(20) < pow2(30) * (SCALE as int));
    } else if m * pow2(20) < pow2(lo + 1) * (SCALE as int) {
        assert(j == lo);
    } else {
        lemma_binade_correct(m, lo + 1, j);
    }
}

} // verus!
