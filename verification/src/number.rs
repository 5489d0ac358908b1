//! Numbers: IEEE-754 double-precision values held as bit patterns.

use vstd::prelude::*;

verus! {

/// The bit of the sign.
pub const SIGN: u64 = 0x8000_0000_0000_0000;

/// The bits of exponent and fraction.
pub const MAGNITUDE: u64 = 0x7fff_ffff_ffff_ffff;

/// The magnitude of positive infinity; every larger magnitude is a NaN.
pub const INFINITY: u64 = 0x7ff0_0000_0000_0000;

/// A double-precision number, held as the 64 bits of its IEEE-754 encoding.
///
/// Comparison and negation are decided on the bits here. Arithmetic and the
/// decimal form of a number are the embedding program's work.
#[derive(Clone, Copy, Debug)]
pub struct Number {
    pub bits: u64,
}

/// The significand bit that a pattern leaves out: two to the 52nd.
pub const IMPLICIT: u64 = 0x0010_0000_0000_0000;

/// The place of the highest one among the low `k + 1` bits of `a`, where
/// there is one; 0 where there is none.
pub open spec fn top_from(a: u64, k: u32) -> u32
    decreases k,
{
    if k == 0 || k >= 64 || (a >> k) != 0 {
        k
    } else {
        top_from(a, (k - 1) as u32)
    }
}

/// The place of the highest one of `a`.
pub open spec fn top(a: u64) -> u32 {
    top_from(a, 63)
}

/// The 53 highest bits of `a`, whose highest one is at place `k`, as a
/// significand: `a` moved so that its highest one comes to place 52. Where
/// bits are lost, the significand is rounded to the nearest, and to the even
/// one of two that are equally near; so it can be two to the 53rd.
pub open spec fn significand(a: u64, k: u32) -> u64 {
    if k <= 52 {
        a << ((52 - k) as u32)
    } else {
        let lost = (k - 52) as u32;
        let kept = a >> lost;
        let rest = a & (((1u64 << lost) - 1) as u64);
        let half = 1u64 << ((lost - 1) as u32);
        if rest > half || (rest == half && (kept & 1) == 1) {
            (kept + 1) as u64
        } else {
            kept
        }
    }
}

/// The pattern of the double nearest to the integer `a`: exponent and
/// fraction, the sign bit clear.
pub open spec fn magnitude_bits(a: u64) -> u64 {
    if a == 0 {
        0
    } else {
        ((((1023 + top(a)) as u64) << 52) + (significand(a, top(a)) - IMPLICIT)) as u64
    }
}

/// The pattern of the double nearest to the integer `x`.
pub open spec fn integer_bits(x: i64) -> u64 {
    if x < 0 {
        magnitude_bits((-x) as u64) | SIGN
    } else {
        magnitude_bits(x as u64)
    }
}

/// Whether the pattern encodes a NaN.
pub open spec fn is_nan(bits: u64) -> bool {
    (bits & MAGNITUDE) > INFINITY
}

/// The place of a non-NaN pattern on the number line: patterns are ordered as
/// the numbers they encode, and both zeros share place 0.
pub open spec fn rank(bits: u64) -> int {
    if (bits & SIGN) == 0 {
        (bits & MAGNITUDE) as int
    } else {
        -((bits & MAGNITUDE) as int)
    }
}

/// Numeric equality: false when either side is a NaN, true across the two
/// zeros.
pub open spec fn number_eq(a: u64, b: u64) -> bool {
    !is_nan(a) && !is_nan(b) && rank(a) == rank(b)
}

/// Numeric "less than": false when either side is a NaN.
pub open spec fn number_lt(a: u64, b: u64) -> bool {
    !is_nan(a) && !is_nan(b) && rank(a) < rank(b)
}

/// The pattern of the negated number: the sign bit flipped.
pub open spec fn number_neg(a: u64) -> u64 {
    a ^ SIGN
}

impl Number {
    /// The number with the given encoding.
    pub fn from_bits(bits: u64) -> (r: Number)
        ensures
            r.bits == bits,
    {
        Number { bits }
    }

    /// The double nearest to the integer `x`; of two that are equally near,
    /// the one with the even significand.
    pub fn from_integer(x: i64) -> (r: Number)
        ensures
            r.bits == integer_bits(x),
    {
        if x < 0 {
            let wide: i128 = x as i128;
            let a: u64 = (-wide) as u64;
            Number { bits: Number::magnitude(a) | SIGN }
        } else {
            Number { bits: Number::magnitude(x as u64) }
        }
    }

    fn magnitude(a: u64) -> (r: u64)
        ensures
            r == magnitude_bits(a),
    {
        if a == 0 {
            return 0;
        }
        let mut k: u32 = 63;
        while k > 0 && (a >> k) == 0
            invariant
                k < 64,
                a != 0,
                top_from(a, k) == top(a),
                k == 63 || (a >> ((k + 1) as u32)) == 0,
            decreases k,
        {
            k -= 1;
        }
        assert((a >> k) == 1) by (bit_vector)
            requires
                k < 64,
                a != 0,
                k == 0 || (a >> k) != 0,
                k == 63 || (a >> ((k + 1) as u32)) == 0,
        ;
        let m: u64 = if k <= 52 {
            let by: u32 = 52 - k;
            assert(0x0010_0000_0000_0000 <= (a << by) < 0x0020_0000_0000_0000) by (bit_vector)
                requires
                    k <= 52,
                    by == 52 - k,
                    (a >> k) == 1,
            ;
            a << by
        } else {
            let lost: u32 = k - 52;
            assert(0x0010_0000_0000_0000 <= (a >> lost) < 0x0020_0000_0000_0000) by (bit_vector)
                requires
                    52 < k < 64,
                    lost == k - 52,
                    (a >> k) == 1,
            ;
            assert((1u64 << lost) >= 1) by (bit_vector)
                requires
                    lost < 64,
            ;
            let kept: u64 = a >> lost;
            let rest: u64 = a & ((1u64 << lost) - 1);
            let half: u64 = 1u64 << (lost - 1);
            if rest > half || (rest == half && (kept & 1) == 1) {
                kept + 1
            } else {
                kept
            }
        };
        let exponent: u64 = 1023 + (k as u64);
        assert((exponent << 52) <= 0x43e0_0000_0000_0000) by (bit_vector)
            requires
                exponent <= 1086,
        ;
        (exponent << 52) + (m - IMPLICIT)
    }

    /// The encoding of this number.
    pub fn to_bits(&self) -> (r: u64)
        ensures
            r == self.bits,
    {
        self.bits
    }

    /// Whether this is a NaN.
    pub fn is_nan(&self) -> (r: bool)
        ensures
            r == is_nan(self.bits),
    {
        (self.bits & MAGNITUDE) > INFINITY
    }

    fn rank(&self) -> (r: i128)
        ensures
            r == rank(self.bits),
    {
        let magnitude: u64 = self.bits & MAGNITUDE;
        if (self.bits & SIGN) == 0 {
            magnitude as i128
        } else {
            -(magnitude as i128)
        }
    }

    /// Numeric equality.
    pub fn equals(&self, other: &Number) -> (r: bool)
        ensures
            r == number_eq(self.bits, other.bits),
    {
        !self.is_nan() && !other.is_nan() && self.rank() == other.rank()
    }

    /// Numeric "less than".
    pub fn less(&self, other: &Number) -> (r: bool)
        ensures
            r == number_lt(self.bits, other.bits),
    {
        !self.is_nan() && !other.is_nan() && self.rank() < other.rank()
    }

    /// The negated number.
    pub fn negated(&self) -> (r: Number)
        ensures
            r.bits == number_neg(self.bits),
    {
        Number { bits: self.bits ^ SIGN }
    }
}

} // verus!
