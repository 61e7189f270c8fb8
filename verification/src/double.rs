//! Quotients as a double-precision number holds them: rounded to fifty-three binary digits.

use crate::text::number::{fixed, format_fixed, round_div, rounded};
use vstd::prelude::*;
use vstd::string::StringExecFns;

verus! {

/// Two to the given power.
pub open spec fn pow2(n: int) -> int
    decreases n,
{
    if n <= 0 {
        1
    } else {
        2 * pow2(n - 1)
    }
}

/// How often the numerator is doubled until the quotient has fifty-three binary digits.
pub open spec fn binary_scale(num: int, den: int) -> int
    decreases 0x20_0000_0000_0000 * den - num,
{
    if num <= 0 || den <= 0 || num >= 0x10_0000_0000_0000 * den {
        0
    } else {
        1 + binary_scale(2 * num, den)
    }
}

/// The fifty-three binary digits of a quotient, rounded to the nearest; a tie goes to the even
/// one.
pub open spec fn mantissa(num: int, den: int) -> int {
    rounded(num * pow2(binary_scale(num, den)), den)
}

/// What the mantissa is to be divided by.
pub open spec fn unit(num: int, den: int) -> int {
    pow2(binary_scale(num, den))
}

/// A number that is not negative: a mantissa, divided by a power of two.
#[derive(Debug, Clone, Copy, PartialEq, Eq, Structural)]
pub struct Double {
    pub mantissa: u128,
    pub unit: u128,
}

proof fn lemma_doubled(num: int, den: int, n: int)
    requires
        0 < num,
        0 < den,
        n >= 0,
        n == 0 || num * pow2(n - 1) < 0x10_0000_0000_0000 * den,
        num * pow2(n) >= 0x10_0000_0000_0000 * den,
    ensures
        binary_scale(num, den) == n,
    decreases n,
{
    if n > 0 {
        let p = pow2(n - 1);
        lemma_pow2_positive(n - 1);
        assert(num * (2 * p) == (2 * num) * p) by (nonlinear_arith);
        if n > 1 {
            let q = pow2(n - 2);
            assert(num * (2 * q) == (2 * num) * q) by (nonlinear_arith);
        }
        assert(num <= num * p) by (nonlinear_arith)
            requires
                num > 0,
                p >= 1,
        ;
        lemma_doubled(2 * num, den, n - 1);
    }
}

proof fn lemma_pow2_positive(n: int)
    ensures
        pow2(n) >= 1,
    decreases n,
{
    if n > 0 {
        lemma_pow2_positive(n - 1);
    }
}

/// Rounds a quotient to fifty-three binary digits.
pub fn to_double(num: u128, den: u128) -> (r: Double)
    requires
        0 < den <= 0x1_0000_0000,
        num <= 0x20_0000_0000_0000 * den,
    ensures
        r.mantissa == mantissa(num as int, den as int),
        r.unit == unit(num as int, den as int),
        r.mantissa <= 0x20_0000_0000_0000,
        num > 0 ==> r.mantissa >= 0x10_0000_0000_0000,
        1 <= r.unit,
        num > 0 ==> r.unit * num <= 0x20_0000_0000_0000 * den,
        num == 0 ==> r.unit == 1 && r.mantissa == 0,
{
    let d: u128 = den;
    if num == 0 {
        proof {
            assert(0int % (d as int) == 0 && 0int / (d as int) == 0) by (nonlinear_arith)
                requires
                    d > 0,
            ;
        }
        return Double { mantissa: 0, unit: 1 };
    }
    let least: u128 = 0x10_0000_0000_0000 * den;
    let mut n: u128 = num;
    let mut u: u128 = 1;
    let ghost mut s: int = 0;
    proof {
        assert(num * pow2(0) == num) by (nonlinear_arith)
            requires
                pow2(0) == 1,
        ;
    }
    while n < least
        invariant
            0 < num <= 2 * least,
            0 < den <= 0x1_0000_0000,
            least == 0x10_0000_0000_0000 * den,
            s >= 0,
            n == num * pow2(s),
            u == pow2(s),
            num <= n <= 2 * least,
            u <= n,
            s == 0 || num * pow2(s - 1) < least,
        decreases 2 * least - n,
    {
        proof {
            let (a, p) = (num as int, pow2(s));
            assert(a * (2 * p) == 2 * (a * p)) by (nonlinear_arith);
            s = s + 1;
        }
        n = n * 2;
        u = u * 2;
    }
    let m = round_div(n, den);
    proof {
        lemma_doubled(num as int, den as int, s);
        let (x, y) = (n as int, den as int);
        assert(x / y >= 0x10_0000_0000_0000) by (nonlinear_arith)
            requires
                x >= 0x10_0000_0000_0000 * y,
                y > 0,
        ;
        assert(x / y <= 0x20_0000_0000_0000 && (x / y == 0x20_0000_0000_0000 ==> x % y == 0))
            by (nonlinear_arith)
            requires
                0 <= x <= 0x20_0000_0000_0000 * y,
                y > 0,
        ;
        assert(u * num == num * pow2(s)) by (nonlinear_arith)
            requires
                u == pow2(s),
        ;
    }
    Double { mantissa: m, unit: u }
}

/// The mantissa of a number of millionths that is divided by a count; both the number and the
/// quotient are rounded.
pub open spec fn share_mantissa(m: int, n: int) -> int {
    mantissa(mantissa(m, 1_000_000), n)
}

/// What that mantissa is to be divided by.
pub open spec fn share_unit(m: int, n: int) -> int {
    unit(m, 1_000_000) * unit(mantissa(m, 1_000_000), n)
}

/// Rounds a number of millionths, divides it by a count and rounds again.
pub fn to_share(m: u64, n: u32) -> (r: Double)
    requires
        n > 0,
        m <= 0x8000_0000_0000_0000,
    ensures
        r.mantissa == share_mantissa(m as int, n as int),
        r.unit == share_unit(m as int, n as int),
        r.mantissa <= 0x20_0000_0000_0000,
        1 <= r.unit <= 0x10_0000_0000_0000_0000_0000_0000_0000,
        m == 0 <==> r.mantissa == 0,
{
    let a = to_double(m as u128, 1_000_000);
    let b = to_double(a.mantissa, n as u128);
    proof {
        let (x, y) = (a.unit as int, b.unit as int);
        if m > 0 {
            assert(x <= 0x20_0000_0000_0000 * 1_000_000) by (nonlinear_arith)
                requires
                    x * m <= 0x20_0000_0000_0000 * 1_000_000,
                    m >= 1,
                    x >= 0,
            ;
            assert(y <= 0x2_0000_0000) by (nonlinear_arith)
                requires
                    y * (a.mantissa as int) <= 0x20_0000_0000_0000 * (n as int),
                    a.mantissa >= 0x10_0000_0000_0000,
                    n <= 0xffff_ffff,
                    y >= 0,
            ;
        }
        assert(1 <= x * y <= 0x20_0000_0000_0000 * 1_000_000 * 0x2_0000_0000) by (nonlinear_arith)
            requires
                1 <= x <= 0x20_0000_0000_0000 * 1_000_000,
                1 <= y <= 0x2_0000_0000,
        ;
    }
    Double { mantissa: b.mantissa, unit: a.unit * b.unit }
}

pub open spec fn absolute(m: int) -> int {
    if m < 0 {
        -m
    } else {
        m
    }
}

/// A number of millionths that is divided by a count, with the given number of places after the
/// point.
pub open spec fn share_text(m: int, n: int, places: int) -> Seq<char> {
    let a = absolute(m);
    let size = fixed(share_mantissa(a, n), share_unit(a, n), places);
    if m < 0 {
        "-"@ + size
    } else {
        size
    }
}

pub fn format_share(m: i64, n: u32, places: u32) -> (r: String)
    requires
        n > 0,
        places <= 2,
    ensures
        r@ == share_text(m as int, n as int, places as int),
{
    let d = to_share(size_of(m), n);
    let size = format_fixed(d.mantissa, d.unit, places);
    if m < 0 {
        let mut s = "-".to_string();
        s.append(size.as_str());
        s
    } else {
        size
    }
}

fn size_of(m: i64) -> (r: u64)
    ensures
        r == absolute(m as int),
        r <= 0x8000_0000_0000_0000,
{
    if m < 0 {
        (-(m as i128)) as u64
    } else {
        m as u64
    }
}

/// A number of millionths that is divided by a count, in whole millionths.
pub open spec fn share_micros(m: int, n: int) -> int {
    let a = absolute(m);
    let size = rounded(share_mantissa(a, n) * 1_000_000, share_unit(a, n));
    let held = if size <= i64::MAX {
        size
    } else {
        i64::MAX as int
    };
    if m < 0 {
        -held
    } else {
        held
    }
}

pub fn share_of(m: i64, n: u32) -> (r: i64)
    requires
        n > 0,
    ensures
        r == share_micros(m as int, n as int),
{
    let d = to_share(size_of(m), n);
    let size = round_div(d.mantissa * 1_000_000, d.unit);
    let held: i64 = if size <= i64::MAX as u128 {
        size as i64
    } else {
        i64::MAX
    };
    if m < 0 {
        -held
    } else {
        held
    }
}

/// The magnitude of a share is at least that of a bound in millionths.
pub open spec fn share_covers(m: int, n: int, bound: int) -> bool {
    share_mantissa(m, n) * unit(bound, 1_000_000) >= mantissa(bound, 1_000_000) * share_unit(m, n)
}

/// The magnitude of a share is no more than that of a bound in millionths.
pub open spec fn share_fits(m: int, n: int, bound: int) -> bool {
    share_mantissa(m, n) * unit(bound, 1_000_000) <= mantissa(bound, 1_000_000) * share_unit(m, n)
}

/// A number of millionths that is divided by a count is at least a bound in millionths.
pub open spec fn share_reaches(m: int, n: int, bound: int) -> bool {
    if m >= 0 {
        bound <= 0 || share_covers(m, n, bound)
    } else {
        bound < 0 && share_fits(-m, n, -bound)
    }
}

pub fn is_share_reached(m: i64, n: u32, bound: i64) -> (r: bool)
    requires
        n > 0,
    ensures
        r == share_reaches(m as int, n as int, bound as int),
{
    if m >= 0 && bound <= 0 {
        return true;
    }
    if m < 0 && bound >= 0 {
        return false;
    }
    let a = to_share(size_of(m), n);
    let b = to_double(size_of(bound) as u128, 1_000_000);
    proof {
        let (x, y, z) = (a.mantissa as int, b.unit as int, b.mantissa as int);
        let w = a.unit as int;
        let t = absolute(bound as int);
        assert(y <= 0x20_0000_0000_0000 * 1_000_000) by (nonlinear_arith)
            requires
                y * t <= 0x20_0000_0000_0000 * 1_000_000,
                t >= 1,
                y >= 0,
        ;
        assert(0 <= x * y <= 0x20_0000_0000_0000 * (0x20_0000_0000_0000 * 1_000_000))
            by (nonlinear_arith)
            requires
                0 <= x <= 0x20_0000_0000_0000,
                0 <= y <= 0x20_0000_0000_0000 * 1_000_000,
        ;
        assert(z * w >= 0) by (nonlinear_arith)
            requires
                z >= 0,
                w >= 0,
        ;
    }
    let lhs: u128 = a.mantissa * b.unit;
    match b.mantissa.checked_mul(a.unit) {
        Some(rhs) => if m >= 0 {
            lhs >= rhs
        } else {
            lhs <= rhs
        },
        None => m < 0,
    }
}

} // verus!
