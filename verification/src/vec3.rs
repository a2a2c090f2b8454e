//! Fixed-point 3D vectors.
//!
//! All geometric quantities in this crate are held in signed 64-bit
//! fixed-point micro-units: the integer `1_000_000` stands for the length
//! `1.0`. Every coordinate that enters the mesh is bounded by `MAX_COORD`,
//! which keeps all the intermediate products of the normal computation
//! inside `i128`.

use vstd::prelude::*;

verus! {

/// Number of micro-units per length unit: fixed-point scale factor.
pub const SCALE: i64 = 1_000_000;

/// Largest coordinate magnitude (in micro-units) a mesh vertex may hold.
pub const MAX_COORD: i64 = 500_000_000;

/// A 3D vector in fixed-point micro-units.
#[derive(Clone, Copy, PartialEq, Eq, Structural, Debug)]
pub struct Vec3 {
    pub x: i64,
    pub y: i64,
    pub z: i64,
}

impl Vec3 {
    /// True when every component is within the mesh coordinate bound.
    pub open spec fn in_bounds(self) -> bool {
        &&& -MAX_COORD <= self.x <= MAX_COORD
        &&& -MAX_COORD <= self.y <= MAX_COORD
        &&& -MAX_COORD <= self.z <= MAX_COORD
    }

    /// True when every component is within twice the mesh coordinate bound,
    /// as holds for the difference of two in-bounds points.
    pub open spec fn in_double_bounds(self) -> bool {
        &&& -2 * MAX_COORD <= self.x <= 2 * MAX_COORD
        &&& -2 * MAX_COORD <= self.y <= 2 * MAX_COORD
        &&& -2 * MAX_COORD <= self.z <= 2 * MAX_COORD
    }

    /// True when every component is at most `SCALE` in magnitude,
    /// as holds for every cached unit normal.
    pub open spec fn unit_bounds(self) -> bool {
        &&& -SCALE <= self.x <= SCALE
        &&& -SCALE <= self.y <= SCALE
        &&& -SCALE <= self.z <= SCALE
    }

    pub fn new(x: i64, y: i64, z: i64) -> (r: Vec3)
        ensures
            r == (Vec3 { x, y, z }),
    {
        Vec3 { x, y, z }
    }
}

/// Division truncated toward zero (the behaviour of `/` on Rust's signed
/// integers), for a positive divisor.
pub open spec fn tdiv(a: int, b: int) -> int {
    if a >= 0 {
        a / b
    } else {
        -((-a) / b)
    }
}

/// `a / b` truncated toward zero, on `i128`, for a positive divisor.
pub fn tdiv_i128(a: i128, b: i128) -> (r: i128)
    requires
        0 < b,
        i128::MIN < a,
    ensures
        r == tdiv(a as int, b as int),
{
    if a >= 0 {
        let q: i128 = a / b;
        proof {
            vstd::arithmetic::div_mod::lemma_div_nonincreasing(a as int, b as int);
            vstd::arithmetic::div_mod::lemma_div_pos_is_pos(a as int, b as int);
        }
        q
    } else {
        let m: i128 = -a;
        let q: i128 = m / b;
        proof {
            vstd::arithmetic::div_mod::lemma_div_nonincreasing(m as int, b as int);
            vstd::arithmetic::div_mod::lemma_div_pos_is_pos(m as int, b as int);
        }
        -q
    }
}

/// Truncated division of `a * b` by `SCALE`: the product of two fixed-point
/// quantities. Computed in `i128`, so it never overflows.
pub fn mul_div_scale(a: i64, b: i64) -> (r: i128)
    ensures
        r == tdiv(a * b, SCALE as int),
{
    proof {
        assert((a as int) * (b as int) <= 0x8000000000000000 * 0x8000000000000000
            && (a as int) * (b as int) >= -(0x8000000000000000 * 0x8000000000000000))
            by (nonlinear_arith)
            requires
                -0x8000000000000000 <= a <= 0x7fffffffffffffff,
                -0x8000000000000000 <= b <= 0x7fffffffffffffff,
        ;
    }
    let p: i128 = (a as i128) * (b as i128);
    tdiv_i128(p, SCALE as i128)
}

/// The product of two magnitude-bounded integers is bounded by the product
/// of the bounds.
pub proof fn lemma_mul_le(a: int, b: int, bound_a: int, bound_b: int)
    requires
        0 <= bound_a,
        0 <= bound_b,
        -bound_a <= a <= bound_a,
        -bound_b <= b <= bound_b,
    ensures
        -(bound_a * bound_b) <= a * b <= bound_a * bound_b,
{
    assert(-(bound_a * bound_b) <= a * b <= bound_a * bound_b) by (nonlinear_arith)
        requires
            0 <= bound_a,
            0 <= bound_b,
            -bound_a <= a <= bound_a,
            -bound_b <= b <= bound_b,
    ;
}

/// Truncated division never grows a value's magnitude.
pub proof fn lemma_tdiv_bound(a: int, b: int, bound: int)
    requires
        1 <= b,
        0 <= bound,
        -bound <= a <= bound,
    ensures
        -bound <= tdiv(a, b) <= bound,
{
    if a >= 0 {
        vstd::arithmetic::div_mod::lemma_div_nonincreasing(a, b);
        vstd::arithmetic::div_mod::lemma_div_pos_is_pos(a, b);
    } else {
        vstd::arithmetic::div_mod::lemma_div_nonincreasing(-a, b);
        vstd::arithmetic::div_mod::lemma_div_pos_is_pos(-a, b);
    }
}

/// Integer square root: the unique `r` with `r * r <= v < (r + 1) * (r + 1)`.
pub open spec fn isqrt(v: nat) -> nat {
    choose|r: nat| #[trigger] (r * r) <= v && v < (r + 1) * (r + 1)
}

proof fn lemma_isqrt_unique(v: nat, r: nat)
    requires
        r * r <= v < (r + 1) * (r + 1),
    ensures
        isqrt(v) == r,
{
    assert(exists|q: nat| #[trigger] (q * q) <= v && v < (q + 1) * (q + 1)) by {
        assert(r * r <= v && v < (r + 1) * (r + 1));
    }
    let q = isqrt(v);
    assert(q * q <= v < (q + 1) * (q + 1));
    if q < r {
        assert((q + 1) * (q + 1) <= r * r) by (nonlinear_arith)
            requires q < r,
        ;
    } else if r < q {
        assert((r + 1) * (r + 1) <= q * q) by (nonlinear_arith)
            requires r < q,
        ;
    }
}

/// Integer square root of a `u128` below `2^126`, by bisection.
pub fn isqrt_u128(v: u128) -> (r: u64)
    requires
        v < 0x40000000000000000000000000000000u128,
    ensures
        r * r <= v < (r + 1) * (r + 1),
        r == isqrt(v as nat),
{
    let mut lo: u64 = 0;
    // 2^63 squared is 2^126, strictly above v.
    let mut hi: u64 = 9223372036854775808u64;
    proof {
        assert((9223372036854775808u64 as u128) * (9223372036854775808u64 as u128)
            == 0x40000000000000000000000000000000u128) by (nonlinear_arith);
    }
    while lo + 1 < hi
        invariant
            lo < hi,
            (lo as u128) * (lo as u128) <= v,
            v < (hi as u128) * (hi as u128),
        decreases hi - lo,
    {
        let mid: u64 = lo + (hi - lo) / 2;
        proof {
            assert((mid as int) * (mid as int) <= 0xffffffffffffffff * 0xffffffffffffffff)
                by (nonlinear_arith)
                requires
                    0 <= mid <= 0xffffffffffffffff,
            ;
        }
        let sq: u128 = (mid as u128) * (mid as u128);
        if sq <= v {
            lo = mid;
        } else {
            hi = mid;
        }
    }
    proof {
        assert(hi == lo + 1);
        assert((lo as u128) * (lo as u128) == (lo as nat) * (lo as nat)) by (nonlinear_arith);
        assert(((lo + 1) as u128) * ((lo + 1) as u128) == ((lo as nat) + 1) * ((lo as nat) + 1))
            by (nonlinear_arith);
        lemma_isqrt_unique(v as nat, lo as nat);
    }
    lo
}

} // verus!
