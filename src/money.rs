use vstd::prelude::*;

verus! {

/// Number of amount units in one krona: amounts are held in millionths of a krona.
pub const UNITS_PER_SEK: i128 = 1_000_000;

/// The largest magnitude, in units, of an amount that the tariff arithmetic accepts.
pub const AMOUNT_LIMIT: i128 = 1_000_000_000_000_000_000_000_000_000_000_000_000;

/// An exact amount of Swedish kronor, held as a whole number of millionths of a krona.
#[derive(Clone, Copy, Debug, PartialEq, Eq, Structural)]
pub struct Amount {
    pub units: i128,
}

/// Integer division rounding towards negative infinity.
pub open spec fn floor_div(n: int, d: int) -> int
    recommends
        d > 0,
{
    n / d
}

/// `n / d` rounded half up (ties go towards positive infinity).
pub open spec fn round_half_up(n: int, d: int) -> int
    recommends
        d > 0,
{
    floor_div(2 * n + d, 2 * d)
}

/// Floor division on machine integers, with the result of the spec's `int` division.
pub fn div_floor(n: i128, d: i128) -> (r: i128)
    requires
        d > 0,
        n > i128::MIN,
    ensures
        r == floor_div(n as int, d as int),
{
    if n >= 0 {
        n / d
    } else {
        let q: i128 = (-n) / d;
        let m: i128 = (-n) % d;
        proof {
            let ni = n as int;
            let di = d as int;
            assert(-ni == q * di + m) by (nonlinear_arith)
                requires
                    q == (-ni) / di,
                    m == (-ni) % di,
                    di > 0,
            {
                vstd::arithmetic::div_mod::lemma_fundamental_div_mod(-ni, di);
            }
            if m == 0 {
                assert(ni == (-q) * di) by (nonlinear_arith)
                    requires
                        -ni == q * di + m,
                        m == 0,
                ;
                vstd::arithmetic::div_mod::lemma_div_multiples_vanish(-q as int, di);
            } else {
                assert(ni == (-q - 1) * di + (di - m)) by (nonlinear_arith)
                    requires
                        -ni == q * di + m,
                ;
                vstd::arithmetic::div_mod::lemma_fundamental_div_mod_converse(
                    ni,
                    di,
                    -q - 1,
                    di - m,
                );
            }
        }
        if m == 0 {
            -q
        } else {
            -q - 1
        }
    }
}

impl Amount {
    /// An amount of `minor` öre (hundredths of a krona).
    pub open spec fn spec_from_minor(minor: int) -> int {
        minor * 10_000
    }

    /// The amount of `minor` öre.
    pub fn from_minor(minor: i64) -> (r: Amount)
        ensures
            r.units == Amount::spec_from_minor(minor as int),
    {
        Amount { units: minor as i128 * 10_000 }
    }

    /// Whether the amount lies within the range that the tariff arithmetic accepts.
    pub open spec fn in_range(self) -> bool {
        -AMOUNT_LIMIT <= self.units <= AMOUNT_LIMIT
    }
}

} // verus!
