use vstd::prelude::*;

verus! {

/// Bit pattern of a positive `f32` with the largest exponent and a zero mantissa
/// (infinity); any larger magnitude is a NaN.
pub const INFINITY_BITS: u32 = 0x7f80_0000;

/// The sign bit of an `f32` bit pattern.
pub const SIGN_BIT: u32 = 0x8000_0000;

/// The magnitude part (everything but the sign bit) of an `f32` bit pattern.
pub open spec fn magnitude(bits: u32) -> int {
    (bits % SIGN_BIT) as int
}

/// An integer key that orders non-NaN `f32` values exactly as the floats
/// themselves compare: `a < b` as floats iff `key(a) < key(b)`, and `a == b`
/// iff the keys are equal (so `-0.0` and `0.0` share the key `0`).
/// NaN has no key.
pub open spec fn order_key(bits: u32) -> Option<i64> {
    if magnitude(bits) > INFINITY_BITS as int {
        None
    } else if bits >= SIGN_BIT {
        Some((-magnitude(bits)) as i64)
    } else {
        Some(magnitude(bits) as i64)
    }
}

/// A distance reported by a distance query, held as the bit pattern of the
/// `f32` it was reported as.
#[derive(Clone, Copy, Debug, PartialEq, Eq, Structural)]
pub struct Distance {
    pub bits: u32,
}

impl Distance {
    pub open spec fn key_spec(self) -> Option<i64> {
        order_key(self.bits)
    }

    /// The comparison key of this distance, `None` for NaN.
    pub fn key(&self) -> (r: Option<i64>)
        ensures
            r == self.key_spec(),
            r matches Some(k) ==> -(INFINITY_BITS as int) <= k <= INFINITY_BITS as int,
    {
        let m: u32 = self.bits % SIGN_BIT;
        if m > INFINITY_BITS {
            None
        } else if self.bits >= SIGN_BIT {
            Some(-(m as i64))
        } else {
            Some(m as i64)
        }
    }
}

} // verus!
