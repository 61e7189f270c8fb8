//! Dates of the Gregorian calendar as numbers of days since 1970-01-01.

use crate::text::number::{
    digits, format_padded, format_u64, lemma_zero_padded_len, lemma_zero_padded_order, pow10,
    zero_padded,
};
use crate::text::order::{before, lemma_before_joined};
use vstd::prelude::*;
use vstd::string::StringExecFns;

verus! {

pub open spec fn leap(y: int) -> bool {
    y % 4 == 0 && (y % 100 != 0 || y % 400 == 0)
}

pub open spec fn month_days(y: int, m: int) -> int {
    if m == 2 {
        if leap(y) {
            29
        } else {
            28
        }
    } else if m == 4 || m == 6 || m == 9 || m == 11 {
        30
    } else {
        31
    }
}

/// The days of a year before its month `m`.
pub open spec fn before_month(y: int, m: int) -> int
    decreases m,
{
    if m <= 1 {
        0
    } else {
        before_month(y, m - 1) + month_days(y, m - 1)
    }
}

/// The days from 0001-01-01 to the start of year `y`: 365 for every year, and one more for
/// every leap year.
pub open spec fn before_year(y: int) -> int {
    365 * (y - 1) + (y - 1) / 4 - (y - 1) / 100 + (y - 1) / 400
}

pub open spec fn valid_date(y: int, m: int, d: int) -> bool {
    1 <= y && 1 <= m <= 12 && 1 <= d <= month_days(y, m)
}

/// The days from 1970-01-01 to a date.
pub open spec fn day_number(y: int, m: int, d: int) -> int {
    before_year(y) + before_month(y, m) + d - 1 - 719_162
}

pub open spec fn year_days(y: int) -> int {
    if leap(y) {
        366
    } else {
        365
    }
}

/// A year ends where the next one starts.
proof fn lemma_next_year(y: int)
    requires
        y >= 1,
    ensures
        before_year(y + 1) == before_year(y) + year_days(y),
{
}

proof fn lemma_before_month_table(y: int)
    ensures
        before_month(y, 1) == 0,
        before_month(y, 2) == 31,
        before_month(y, 3) == 31 + month_days(y, 2),
        before_month(y, 4) == 62 + month_days(y, 2),
        before_month(y, 5) == 92 + month_days(y, 2),
        before_month(y, 6) == 123 + month_days(y, 2),
        before_month(y, 7) == 153 + month_days(y, 2),
        before_month(y, 8) == 184 + month_days(y, 2),
        before_month(y, 9) == 215 + month_days(y, 2),
        before_month(y, 10) == 245 + month_days(y, 2),
        before_month(y, 11) == 276 + month_days(y, 2),
        before_month(y, 12) == 306 + month_days(y, 2),
        before_month(y, 13) == 337 + month_days(y, 2),
        before_month(y, 13) == year_days(y),
{
    reveal_with_fuel(before_month, 14);
}

proof fn lemma_years_apart(a: int, b: int)
    requires
        1 <= a < b,
    ensures
        before_year(a) + year_days(a) <= before_year(b),
    decreases b - a,
{
    lemma_next_year(a);
    if a + 1 < b {
        lemma_years_apart(a + 1, b);
    }
}

/// The month and the day within a year fix the day of the year, and the other way round.
proof fn lemma_day_of_year_unique(y: int, m1: int, d1: int, m2: int, d2: int)
    requires
        valid_date(y, m1, d1),
        valid_date(y, m2, d2),
        before_month(y, m1) + d1 == before_month(y, m2) + d2,
    ensures
        m1 == m2,
        d1 == d2,
{
    lemma_before_month_table(y);
}

/// No two dates have the same day number.
pub proof fn law_day_number_unique(y1: int, m1: int, d1: int, y2: int, m2: int, d2: int)
    requires
        valid_date(y1, m1, d1),
        valid_date(y2, m2, d2),
        day_number(y1, m1, d1) == day_number(y2, m2, d2),
    ensures
        y1 == y2,
        m1 == m2,
        d1 == d2,
{
    lemma_before_month_table(y1);
    lemma_before_month_table(y2);
    if y1 < y2 {
        lemma_years_apart(y1, y2);
    } else if y2 < y1 {
        lemma_years_apart(y2, y1);
    } else {
        lemma_day_of_year_unique(y1, m1, d1, m2, d2);
    }
}

/// The date with that day number.
pub open spec fn date_of(days: int) -> (int, int, int) {
    choose|t: (int, int, int)|
        valid_date(t.0, t.1, t.2) && #[trigger] day_number(t.0, t.1, t.2) == days
}

/// Going from a date to its day number and back gives the date again.
pub proof fn law_date_of_day_number(y: int, m: int, d: int)
    requires
        valid_date(y, m, d),
    ensures
        date_of(day_number(y, m, d)) == (y, m, d),
{
    let t = (y, m, d);
    assert(valid_date(t.0, t.1, t.2) && day_number(t.0, t.1, t.2) == day_number(y, m, d));
    let u = date_of(day_number(y, m, d));
    law_day_number_unique(y, m, d, u.0, u.1, u.2);
}

/// Every day from 1970-01-01 on has a date.
pub proof fn law_every_day_has_a_date(days: int)
    requires
        0 <= days,
    ensures
        valid_date(date_of(days).0, date_of(days).1, date_of(days).2),
        day_number(date_of(days).0, date_of(days).1, date_of(days).2) == days,
    decreases days,
{
    if days == 0 {
        let t = (1970int, 1int, 1int);
        lemma_before_month_table(1970);
        assert(valid_date(t.0, t.1, t.2) && day_number(t.0, t.1, t.2) == 0);
    } else {
        law_every_day_has_a_date(days - 1);
        let u = date_of(days - 1);
        lemma_before_month_table(u.0);
        lemma_before_month_table(u.0 + 1);
        lemma_next_year(u.0);
        let t = if u.2 < month_days(u.0, u.1) {
            (u.0, u.1, u.2 + 1)
        } else if u.1 < 12 {
            (u.0, u.1 + 1, 1int)
        } else {
            (u.0 + 1, 1int, 1int)
        };
        if u.2 >= month_days(u.0, u.1) && u.1 < 12 {
            assert(before_month(u.0, u.1 + 1) == before_month(u.0, u.1) + month_days(u.0, u.1));
        }
        assert(valid_date(t.0, t.1, t.2) && day_number(t.0, t.1, t.2) == days);
    }
}

/// The first date stands before the second.
pub open spec fn earlier(a: (int, int, int), b: (int, int, int)) -> bool {
    a.0 < b.0 || (a.0 == b.0 && (a.1 < b.1 || (a.1 == b.1 && a.2 < b.2)))
}

/// The order of dates is that of their day numbers.
pub proof fn law_day_number_keeps_order(a: (int, int, int), b: (int, int, int))
    requires
        valid_date(a.0, a.1, a.2),
        valid_date(b.0, b.1, b.2),
    ensures
        earlier(a, b) <==> day_number(a.0, a.1, a.2) < day_number(b.0, b.1, b.2),
{
    lemma_before_month_table(a.0);
    lemma_before_month_table(b.0);
    if a.0 < b.0 {
        lemma_years_apart(a.0, b.0);
    } else if b.0 < a.0 {
        lemma_years_apart(b.0, a.0);
    }
}

pub fn is_leap(y: u64) -> (r: bool)
    ensures
        r == leap(y as int),
{
    y % 4 == 0 && (y % 100 != 0 || y % 400 == 0)
}

pub fn days_in_month(y: u64, m: u32) -> (r: u32)
    requires
        1 <= m <= 12,
    ensures
        r == month_days(y as int, m as int),
        28 <= r <= 31,
{
    if m == 2 {
        if is_leap(y) {
            29
        } else {
            28
        }
    } else if m == 4 || m == 6 || m == 9 || m == 11 {
        30
    } else {
        31
    }
}

/// The day number of a date.
pub fn days_from_date(y: u16, m: u32, d: u32) -> (r: i64)
    requires
        valid_date(y as int, m as int, d as int),
    ensures
        r == day_number(y as int, m as int, d as int),
        -719_162 <= r <= 23_220_000,
{
    let mut before: i64 = 0;
    let mut i: u32 = 1;
    while i < m
        invariant
            1 <= i <= m <= 12,
            0 <= before <= 31 * i,
            before == before_month(y as int, i as int),
        decreases m - i,
    {
        before = before + days_in_month(y as u64, i) as i64;
        i = i + 1;
    }
    let p: i64 = y as i64 - 1;
    365 * p + p / 4 - p / 100 + p / 400 + before + d as i64 - 1 - 719_162
}

/// The date with a given day number, which is not before 1970-01-01.
pub fn civil_from_days(z: u64) -> (r: (u64, u32, u32))
    requires
        z <= 0x0fff_ffff_ffff_ffff,
    ensures
        valid_date(r.0 as int, r.1 as int, r.2 as int),
        day_number(r.0 as int, r.1 as int, r.2 as int) == z,
        r.0 <= z + 1970,
{
    let n: u64 = z + 719_162;
    let n400: u64 = n / 146_097;
    let r400: u64 = n % 146_097;
    let n100: u64 = if r400 / 36_524 < 4 {
        r400 / 36_524
    } else {
        3
    };
    let r100: u64 = r400 - n100 * 36_524;
    let n4: u64 = r100 / 1_461;
    let r4: u64 = r100 % 1_461;
    let n1: u64 = if r4 / 365 < 4 {
        r4 / 365
    } else {
        3
    };
    let doy: u64 = r4 - n1 * 365;
    let y: u64 = 400 * n400 + 100 * n100 + 4 * n4 + n1 + 1;
    proof {
        assert(n4 <= 24);
        assert((y - 1) / 4 == 100 * n400 + 25 * n100 + n4);
        assert((y - 1) / 100 == 4 * n400 + n100);
        assert((y - 1) / 400 == n400);
        assert(before_year(y as int) + doy == n);
        // The last day of a leap year is the only 366th day.
        assert(doy < year_days(y as int));
        lemma_before_month_table(y as int);
    }
    let mut m: u32 = 1;
    let mut rest: u64 = doy;
    while m < 12 && rest >= days_in_month(y, m) as u64
        invariant
            1 <= m <= 12,
            doy == rest + before_month(y as int, m as int),
            doy < year_days(y as int),
            before_month(y as int, 13) == year_days(y as int),
        decreases 12 - m,
    {
        rest = rest - days_in_month(y, m) as u64;
        m = m + 1;
    }
    proof {
        assert(rest < month_days(y as int, m as int)) by {
            if m == 12 {
                assert(before_month(y as int, 13) == before_month(y as int, 12) + month_days(
                    y as int,
                    12,
                ));
            }
        }
    }
    (y, m, rest as u32 + 1)
}

/// The year in at least four digits.
pub open spec fn year_text(y: int) -> Seq<char> {
    if y < 10_000 {
        zero_padded(y, 4)
    } else {
        digits(y)
    }
}

/// A date and a second of its day as `YYYY-MM-DD HH:MM:SSZ`.
pub open spec fn utc_text(y: int, m: int, d: int, second: int) -> Seq<char> {
    year_text(y) + "-"@ + zero_padded(m, 2) + "-"@ + zero_padded(d, 2) + " "@ + zero_padded(
        second / 3600,
        2,
    ) + ":"@ + zero_padded(second % 3600 / 60, 2) + ":"@ + zero_padded(second % 60, 2) + "Z"@
}

/// The timestamp as a date and a time of day in UTC.
pub open spec fn utc(ts: int) -> Seq<char> {
    let date = date_of(ts / 86_400);
    utc_text(date.0, date.1, date.2, ts % 86_400)
}

/// Adding a part in a fixed number of digits to two texts of one length.
proof fn lemma_part_order(p: Seq<char>, q: Seq<char>, v: int, w: int, n: int)
    requires
        p.len() == q.len(),
        0 <= v < pow10(n),
        0 <= w < pow10(n),
        0 <= n,
    ensures
        (p + zero_padded(v, n)).len() == (q + zero_padded(w, n)).len(),
        before(p, q) ==> before(p + zero_padded(v, n), q + zero_padded(w, n)),
        p == q && v < w ==> before(p + zero_padded(v, n), q + zero_padded(w, n)),
        p == q && v == w ==> p + zero_padded(v, n) == q + zero_padded(w, n),
{
    lemma_zero_padded_len(v, n);
    lemma_zero_padded_len(w, n);
    if v < w {
        lemma_zero_padded_order(v, w, n);
    }
    lemma_before_joined(p, q, zero_padded(v, n), zero_padded(w, n));
}

proof fn lemma_small_powers()
    ensures
        pow10(2) == 100,
        pow10(4) == 10_000,
{
    reveal_with_fuel(pow10, 5);
}

spec fn date_part(x: (int, int, int)) -> Seq<char> {
    year_text(x.0) + "-"@ + zero_padded(x.1, 2) + "-"@ + zero_padded(x.2, 2)
}

proof fn lemma_date_order(x: (int, int, int), y: (int, int, int))
    requires
        valid_date(x.0, x.1, x.2),
        valid_date(y.0, y.1, y.2),
        x.0 < 10_000,
        y.0 < 10_000,
    ensures
        date_part(x).len() == date_part(y).len(),
        earlier(x, y) ==> before(date_part(x), date_part(y)),
{
    lemma_small_powers();
    let e = Seq::<char>::empty();
    lemma_part_order(e, e, x.0, y.0, 4);
    let (p0, q0) = (e + zero_padded(x.0, 4), e + zero_padded(y.0, 4));
    assert(p0 == year_text(x.0) && q0 == year_text(y.0));
    lemma_before_joined(p0, q0, "-"@, "-"@);
    let (p1, q1) = (p0 + "-"@, q0 + "-"@);
    lemma_part_order(p1, q1, x.1, y.1, 2);
    let (p2, q2) = (p1 + zero_padded(x.1, 2), q1 + zero_padded(y.1, 2));
    lemma_before_joined(p2, q2, "-"@, "-"@);
    let (p3, q3) = (p2 + "-"@, q2 + "-"@);
    lemma_part_order(p3, q3, x.2, y.2, 2);
}

spec fn with_time(p: Seq<char>, s: int) -> Seq<char> {
    p + " "@ + zero_padded(s / 3600, 2) + ":"@ + zero_padded(s % 3600 / 60, 2) + ":"@ + zero_padded(
        s % 60,
        2,
    ) + "Z"@
}

proof fn lemma_time_order(p: Seq<char>, q: Seq<char>, s: int, t: int)
    requires
        p.len() == q.len(),
        0 <= s < 86_400,
        0 <= t < 86_400,
        before(p, q) || (p == q && s < t),
    ensures
        before(with_time(p, s), with_time(q, t)),
{
    lemma_small_powers();
    lemma_before_joined(p, q, " "@, " "@);
    let (p5, q5) = (p + " "@, q + " "@);
    lemma_part_order(p5, q5, s / 3600, t / 3600, 2);
    let (p6, q6) = (p5 + zero_padded(s / 3600, 2), q5 + zero_padded(t / 3600, 2));
    lemma_before_joined(p6, q6, ":"@, ":"@);
    let (p7, q7) = (p6 + ":"@, q6 + ":"@);
    lemma_part_order(p7, q7, s % 3600 / 60, t % 3600 / 60, 2);
    let (p8, q8) = (p7 + zero_padded(s % 3600 / 60, 2), q7 + zero_padded(t % 3600 / 60, 2));
    lemma_before_joined(p8, q8, ":"@, ":"@);
    let (p9, q9) = (p8 + ":"@, q8 + ":"@);
    lemma_part_order(p9, q9, s % 60, t % 60, 2);
    let (p10, q10) = (p9 + zero_padded(s % 60, 2), q9 + zero_padded(t % 60, 2));
    assert(before(p10, q10));
    lemma_before_joined(p10, q10, "Z"@, "Z"@);
}

/// Of two moments up to the end of the year 9999, the earlier one has the lesser text.
pub proof fn law_utc_keeps_order(a: int, b: int)
    requires
        0 <= a < b < 253_402_300_800,
    ensures
        before(utc(a), utc(b)),
{
    let x = date_of(a / 86_400);
    let y = date_of(b / 86_400);
    law_every_day_has_a_date(a / 86_400);
    law_every_day_has_a_date(b / 86_400);
    law_day_number_keeps_order(x, y);
    law_day_number_keeps_order(y, x);
    lemma_below_ten_thousand(x, a / 86_400);
    lemma_below_ten_thousand(y, b / 86_400);
    lemma_date_order(x, y);
    assert(x == y || earlier(x, y));
    lemma_time_order(date_part(x), date_part(y), a % 86_400, b % 86_400);
    assert(utc(a) == with_time(date_part(x), a % 86_400));
    assert(utc(b) == with_time(date_part(y), b % 86_400));
}

proof fn lemma_below_ten_thousand(x: (int, int, int), days: int)
    requires
        valid_date(x.0, x.1, x.2),
        day_number(x.0, x.1, x.2) == days,
        days < 2_932_897,
    ensures
        x.0 < 10_000,
{
    lemma_before_month_table(10_000);
    law_day_number_keeps_order(x, (10_000, 1, 1));
}

/// Formats a unix timestamp as `YYYY-MM-DD HH:MM:SSZ` (UTC), without a date crate.
pub fn fmt_utc(ts: u64) -> (r: String)
    ensures
        r@ == utc(ts as int),
{
    let days: u64 = ts / 86_400;
    let sod: u64 = ts % 86_400;
    let (y, m, d) = civil_from_days(days);
    proof {
        law_date_of_day_number(y as int, m as int, d as int);
    }
    let mut s = if y < 10_000 {
        format_padded(y, 4)
    } else {
        format_u64(y)
    };
    s.append("-");
    s.append(format_padded(m as u64, 2).as_str());
    s.append("-");
    s.append(format_padded(d as u64, 2).as_str());
    s.append(" ");
    s.append(format_padded(sod / 3600, 2).as_str());
    s.append(":");
    s.append(format_padded(sod % 3600 / 60, 2).as_str());
    s.append(":");
    s.append(format_padded(sod % 60, 2).as_str());
    s.append("Z");
    s
}

} // verus!
