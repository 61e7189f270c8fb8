//! Exact quotients, and how they compare with bounds in millionths.

use crate::text::number::{fixed, format_fixed, round_div, rounded};
use vstd::prelude::*;

verus! {

/// The quotient of two whole numbers.
#[derive(Debug, Clone, Copy, PartialEq, Eq, Structural)]
pub struct Ratio {
    pub num: u128,
    pub den: u128,
}

impl View for Ratio {
    type V = Ratio;

    open spec fn view(&self) -> Ratio {
        *self
    }
}

impl Ratio {
    /// The denominator is not zero, and both numbers leave room for scaling.
    pub open spec fn wf(self) -> bool {
        &&& 0 < self.den <= 0x0040_0000_0000_0000_0000_0000_0000
        &&& self.num <= 0x0400_0000_0000_0000_0000_0000_0000
    }

    /// The quotient is at least `bound` millionths.
    pub open spec fn reaches(self, bound: int) -> bool {
        self.num * 1_000_000 >= bound * self.den
    }

    /// The quotient is greater than another one.
    pub open spec fn exceeds(self, other: Ratio) -> bool {
        self.num * other.den > other.num * self.den
    }

    /// The quotient in whole millionths, held to what an `i64` can take.
    pub open spec fn micros(self) -> i64 {
        capped_micros(rounded(self.num * 1_000_000, self.den as int))
    }

    /// The quotient with the given number of places after the point.
    pub open spec fn text(self, places: int) -> Seq<char> {
        fixed(self.num as int, self.den as int, places)
    }
}

pub open spec fn capped_micros(m: int) -> i64 {
    if m <= i64::MAX {
        m as i64
    } else {
        i64::MAX
    }
}

pub fn is_reached(r: Ratio, bound: i64) -> (b: bool)
    requires
        r.wf(),
    ensures
        b == r.reaches(bound as int),
{
    if bound <= 0 {
        proof {
            let x = bound as int;
            let d = r.den as int;
            assert(x * d <= 0) by (nonlinear_arith)
                requires
                    x <= 0,
                    d > 0,
            ;
        }
        return true;
    }
    proof {
        let x = bound as int;
        let d = r.den as int;
        assert(x * d >= 0) by (nonlinear_arith)
            requires
                x > 0,
                d > 0,
        ;
    }
    match (bound as u128).checked_mul(r.den) {
        Some(p) => r.num * 1_000_000 >= p,
        None => false,
    }
}

pub fn to_micros(r: Ratio) -> (m: i64)
    requires
        r.wf(),
    ensures
        m == r.micros(),
        m >= 0,
{
    let q = round_div(r.num * 1_000_000, r.den);
    proof {
        let a = r.num * 1_000_000;
        let d = r.den as int;
        assert(a / d >= 0) by (nonlinear_arith)
            requires
                a >= 0,
                d > 0,
        ;
    }
    if q <= i64::MAX as u128 {
        q as i64
    } else {
        i64::MAX
    }
}

pub fn format_ratio(r: Ratio, places: u32) -> (s: String)
    requires
        r.wf(),
        places <= 2,
    ensures
        s@ == r.text(places as int),
{
    format_fixed(r.num, r.den, places)
}

/// A part of a whole in percent.
pub open spec fn percentage(used: u64, total: u64) -> Ratio {
    Ratio { num: (used * 100) as u128, den: total as u128 }
}

pub fn percent(used: u64, total: u64) -> (r: Ratio)
    requires
        total > 0,
    ensures
        r == percentage(used, total),
        r.wf(),
{
    Ratio { num: used as u128 * 100, den: total as u128 }
}

/// A count over a span of nanoseconds as a number per second.
pub open spec fn rate(count: u64, nanos: u64) -> Ratio {
    Ratio { num: (count * 1_000_000_000) as u128, den: nanos as u128 }
}

pub fn per_second(count: u64, nanos: u64) -> (r: Ratio)
    requires
        nanos > 0,
    ensures
        r == rate(count, nanos),
        r.wf(),
{
    Ratio { num: count as u128 * 1_000_000_000, den: nanos as u128 }
}

/// Bytes over a span of nanoseconds as MiB per second.
pub open spec fn mib_rate(bytes: int, nanos: u64) -> Ratio {
    Ratio { num: (bytes * 1_000_000_000) as u128, den: (nanos * 1_048_576) as u128 }
}

pub fn mib_per_second(bytes: u128, nanos: u64) -> (r: Ratio)
    requires
        nanos > 0,
        bytes <= 2 * u64::MAX,
    ensures
        r == mib_rate(bytes as int, nanos),
        r.wf(),
{
    Ratio { num: bytes * 1_000_000_000, den: nanos as u128 * 1_048_576 }
}

/// Whether the first of two parts is the greater one in percent.
pub fn is_greater_share(used: u64, total: u64, other_used: u64, other_total: u64) -> (r: bool)
    ensures
        r == percentage(used, total).exceeds(percentage(other_used, other_total)),
{
    proof {
        let (a, b, c, d) = (used as int, total as int, other_used as int, other_total as int);
        assert(0 <= a * d <= 0xffff_ffff_ffff_ffff * 0xffff_ffff_ffff_ffff) by (nonlinear_arith)
            requires
                0 <= a <= 0xffff_ffff_ffff_ffff,
                0 <= d <= 0xffff_ffff_ffff_ffff,
        ;
        assert(0 <= c * b <= 0xffff_ffff_ffff_ffff * 0xffff_ffff_ffff_ffff) by (nonlinear_arith)
            requires
                0 <= c <= 0xffff_ffff_ffff_ffff,
                0 <= b <= 0xffff_ffff_ffff_ffff,
        ;
        assert((a * 100) * d == 100 * (a * d)) by (nonlinear_arith);
        assert((c * 100) * b == 100 * (c * b)) by (nonlinear_arith);
    }
    used as u128 * other_total as u128 > other_used as u128 * total as u128
}

/// A count in millionths, held to what an `i64` can take.
pub open spec fn count_micros(n: int) -> i64 {
    capped_micros(n * 1_000_000)
}

pub fn micros_of_count(n: u64) -> (m: i64)
    ensures
        m == count_micros(n as int),
        m >= 0,
{
    let wide: u128 = n as u128 * 1_000_000;
    if wide <= i64::MAX as u128 {
        wide as i64
    } else {
        i64::MAX
    }
}

} // verus!
