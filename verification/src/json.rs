//! Byte-level JSON text emission.
//!
//! The asset writer emits its JSON document directly as ASCII bytes, so the
//! exact text is pinned down by specification functions over byte
//! sequences: decimal renderings of unsigned and fixed-point numbers, and
//! the UTF-8 bytes of ASCII string literals.

use vstd::prelude::*;
use vstd::string::StringSliceAdditionalSpecFns;

use crate::vec3::SCALE;

verus! {

/// Decimal digits of `n`, most significant first.
pub open spec fn dec_u64(n: nat) -> Seq<u8>
    decreases n,
{
    if n < 10 {
        seq![(48 + n) as u8]
    } else {
        dec_u64(n / 10).push((48 + n % 10) as u8)
    }
}

/// Exactly `k` decimal digits of `m`, zero padded, most significant first.
pub open spec fn dec_padded(m: nat, k: nat) -> Seq<u8>
    decreases k,
{
    if k == 0 {
        Seq::empty()
    } else {
        dec_padded(m / 10, (k - 1) as nat).push((48 + m % 10) as u8)
    }
}

/// The canonical decimal rendering of the fixed-point value `v` micro-units:
/// an optional minus sign, the whole part, a point, and six fractional
/// digits.
pub open spec fn dec_fixed(v: int) -> Seq<u8> {
    let m = if v < 0 {
        -v
    } else {
        v
    };
    let sign: Seq<u8> = if v < 0 {
        seq![45u8]
    } else {
        Seq::empty()
    };
    sign + dec_u64((m / (SCALE as int)) as nat) + seq![46u8] + dec_padded(
        (m % (SCALE as int)) as nat,
        6,
    )
}

/// Appends the decimal digits of `n`.
pub fn push_u64(out: &mut Vec<u8>, n: u64)
    ensures
        final(out)@ == old(out)@ + dec_u64(n as nat),
    decreases n,
{
    if n < 10 {
        out.push(48 + (n as u8));
        proof {
            assert(final(out)@ =~= old(out)@ + dec_u64(n as nat));
        }
    } else {
        push_u64(out, n / 10);
        out.push(48 + ((n % 10) as u8));
        proof {
            assert(final(out)@ =~= old(out)@ + dec_u64(n as nat));
        }
    }
}

/// Appends the decimal digits of `n`.
pub fn push_usize(out: &mut Vec<u8>, n: usize)
    ensures
        final(out)@ == old(out)@ + dec_u64(n as nat),
{
    push_u64(out, n as u64);
}

/// Appends exactly `k` decimal digits of `m`, zero padded.
pub fn push_padded(out: &mut Vec<u8>, m: u64, k: u64)
    ensures
        final(out)@ == old(out)@ + dec_padded(m as nat, k as nat),
    decreases k,
{
    if k == 0 {
        proof {
            assert(final(out)@ =~= old(out)@ + dec_padded(m as nat, 0));
        }
    } else {
        push_padded(out, m / 10, k - 1);
        out.push(48 + ((m % 10) as u8));
        proof {
            assert(final(out)@ =~= old(out)@ + dec_padded(m as nat, k as nat));
        }
    }
}

/// Appends the canonical decimal rendering of the fixed-point value `v`.
pub fn push_fixed(out: &mut Vec<u8>, v: i64)
    requires
        i64::MIN < v,
    ensures
        final(out)@ == old(out)@ + dec_fixed(v as int),
{
    let m: u64 = if v < 0 {
        out.push(45);
        (-v) as u64
    } else {
        v as u64
    };
    push_u64(out, m / 1000000);
    out.push(46);
    push_padded(out, m % 1000000, 6);
    proof {
        assert(final(out)@ =~= old(out)@ + dec_fixed(v as int));
    }
}

/// Appends the UTF-8 bytes of an ASCII string slice.
pub fn push_str_bytes(out: &mut Vec<u8>, s: &str)
    ensures
        final(out)@ == old(out)@ + s.spec_bytes(),
{
    let bytes = s.as_bytes();
    let count = bytes.len();
    for i in 0..count
        invariant
            count == bytes@.len(),
            bytes@ == s.spec_bytes(),
            out@ == old(out)@ + bytes@.take(i as int),
    {
        out.push(bytes[i]);
        proof {
            assert(out@ =~= old(out)@ + bytes@.take(i + 1));
        }
    }
    proof {
        assert(bytes@.take(count as int) =~= bytes@);
    }
}

} // verus!
