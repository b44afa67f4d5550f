//! Decimal magnitudes of numeric tokens.
//!
//! A numeric token such as `12.9` or `100` carries its magnitude as a plain
//! decimal: a mantissa together with the number of fractional digits, so the
//! value is `mantissa / 10^frac_digits`.  Values are kept normalized (no
//! trailing zero fractional digit), so equal magnitudes written with a
//! different number of trailing zeros compare equal structurally.

use vstd::prelude::*;

verus! {

/// The magnitude of a numeric token: `mantissa / 10^frac_digits`.
#[derive(Debug, Clone, Copy, PartialEq, Eq)]
pub struct Num {
    pub mantissa: u64,
    pub frac_digits: u64,
}

/// Remove trailing zero fractional digits from a (mantissa, fractional
/// digit count) pair without changing the magnitude it denotes.
pub open spec fn spec_norm(m: u64, f: u64) -> (u64, u64)
    decreases f,
{
    if f > 0 && m % 10 == 0 {
        spec_norm(m / 10, (f - 1) as u64)
    } else {
        (m, f)
    }
}

impl Num {
    /// Normalized: a fractional part never ends in a zero digit.
    pub open spec fn wf(self) -> bool {
        self.frac_digits > 0 ==> self.mantissa % 10 != 0
    }

    /// The normalized form of `mantissa / 10^frac_digits`.
    pub open spec fn spec_new(mantissa: u64, frac_digits: u64) -> Num {
        Num {
            mantissa: spec_norm(mantissa, frac_digits).0,
            frac_digits: spec_norm(mantissa, frac_digits).1,
        }
    }

    /// Build the normalized magnitude `mantissa / 10^frac_digits`.
    pub fn new(mantissa: u64, frac_digits: u64) -> (r: Num)
        ensures
            r == Num::spec_new(mantissa, frac_digits),
            r.wf(),
    {
        let mut m = mantissa;
        let mut f = frac_digits;
        while f > 0 && m % 10 == 0
            invariant
                spec_norm(m, f) == spec_norm(mantissa, frac_digits),
            decreases f,
        {
            m = m / 10;
            f = f - 1;
        }
        Num { mantissa: m, frac_digits: f }
    }
}

} // verus!
