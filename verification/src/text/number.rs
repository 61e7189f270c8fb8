//! Reading and writing numbers as text.
//!
//! Quantities with a fraction are held as whole millionths, so `1.5` is `1_500_000`.

use super::order::{before, lemma_before_joined};
use super::search::{find_char, index_of};
use super::split::{lemma_run_ends_at, run};
use crate::double::{format_share, share_text};
use vstd::prelude::*;
use vstd::slice::slice_subrange;
use vstd::string::StringExecFns;

verus! {

/// One whole unit, in millionths.
pub const UNIT: i64 = 1_000_000;

/// The value of a digit in the given radix.
pub open spec fn digit_in(c: char, radix: int) -> Option<int> {
    let v = if '0' <= c <= '9' {
        c as int - '0' as int
    } else if 'a' <= c <= 'z' {
        c as int - 'a' as int + 10
    } else if 'A' <= c <= 'Z' {
        c as int - 'A' as int + 10
    } else {
        radix
    };
    if v < radix {
        Some(v)
    } else {
        None
    }
}

pub fn digit_value(c: char, radix: u32) -> (r: Option<u32>)
    requires
        2 <= radix <= 36,
    ensures
        match r {
            Some(v) => digit_in(c, radix as int) == Some(v as int) && v < radix,
            None => digit_in(c, radix as int).is_none(),
        },
{
    let v: u32 = if '0' <= c && c <= '9' {
        c as u32 - '0' as u32
    } else if 'a' <= c && c <= 'z' {
        c as u32 - 'a' as u32 + 10
    } else if 'A' <= c && c <= 'Z' {
        c as u32 - 'A' as u32 + 10
    } else {
        radix
    };
    if v < radix {
        Some(v)
    } else {
        None
    }
}

/// All characters are digits of the radix.
pub open spec fn all_digits(s: Seq<char>, radix: int) -> bool {
    forall|i: int| 0 <= i < s.len() ==> digit_in(#[trigger] s[i], radix).is_some()
}

/// The number that the digits spell.
pub open spec fn value(s: Seq<char>, radix: int) -> int
    decreases s.len(),
{
    if s.len() == 0 {
        0
    } else {
        value(s.drop_last(), radix) * radix + match digit_in(s.last(), radix) {
            Some(d) => d,
            None => 0,
        }
    }
}

/// The text without one plus sign at its start.
pub open spec fn strip_plus(s: Seq<char>) -> Seq<char> {
    if s.len() > 0 && s[0] == '+' {
        s.skip(1)
    } else {
        s
    }
}

/// The unsigned number that a text spells, if it is one and does not exceed `max`.
pub open spec fn unsigned(s: Seq<char>, radix: int, max: int) -> Option<int> {
    let d = strip_plus(s);
    if d.len() > 0 && all_digits(d, radix) && value(d, radix) <= max {
        Some(value(d, radix))
    } else {
        None
    }
}

proof fn lemma_value_nonneg(s: Seq<char>, radix: int)
    requires
        radix >= 2,
    ensures
        value(s, radix) >= 0,
    decreases s.len(),
{
    if s.len() > 0 {
        lemma_value_nonneg(s.drop_last(), radix);
        let v = value(s.drop_last(), radix);
        assert(v * radix >= 0) by (nonlinear_arith)
            requires
                v >= 0,
                radix >= 2,
        ;
    }
}

/// A longer run of digits never spells a smaller number.
proof fn lemma_value_grows(s: Seq<char>, radix: int, i: int)
    requires
        radix >= 2,
        0 <= i <= s.len(),
    ensures
        value(s.take(i), radix) <= value(s, radix),
    decreases s.len(),
{
    lemma_value_nonneg(s.take(i), radix);
    if i < s.len() {
        lemma_value_nonneg(s.drop_last(), radix);
        lemma_value_grows(s.drop_last(), radix, i);
        assert(s.drop_last().take(i) == s.take(i));
        let v = value(s.drop_last(), radix);
        assert(v * radix >= v) by (nonlinear_arith)
            requires
                v >= 0,
                radix >= 2,
        ;
    } else {
        assert(s.take(i) == s);
    }
}

fn without_plus<'a>(s: &'a [char]) -> (r: &'a [char])
    ensures
        r@ == strip_plus(s@),
{
    if s.len() > 0 && s[0] == '+' {
        let r = slice_subrange(s, 1, s.len());
        proof {
            assert(r@ == s@.skip(1));
        }
        r
    } else {
        s
    }
}

/// Reads an unsigned number up to `max`.
pub fn parse_unsigned(s: &[char], radix: u32, max: u64) -> (r: Option<u64>)
    requires
        2 <= radix <= 36,
    ensures
        match r {
            Some(n) => unsigned(s@, radix as int, max as int) == Some(n as int) && n <= max,
            None => unsigned(s@, radix as int, max as int).is_none(),
        },
{
    let d = without_plus(s);
    if d.len() == 0 {
        return None;
    }
    let mut n: u64 = 0;
    let mut i: usize = 0;
    while i < d.len()
        invariant
            2 <= radix <= 36,
            d@ == strip_plus(s@),
            i <= d@.len(),
            n == value(d@.take(i as int), radix as int),
            n <= max,
            forall|j: int| 0 <= j < i ==> digit_in(#[trigger] d@[j], radix as int).is_some(),
        decreases d@.len() - i,
    {
        proof {
            assert(d@.take(i + 1).drop_last() == d@.take(i as int));
            lemma_value_grows(d@, radix as int, i + 1);
        }
        match digit_value(d[i], radix) {
            None => {
                return None;
            },
            Some(v) => {
                proof {
                    assert(n * radix <= u64::MAX * 36) by (nonlinear_arith)
                        requires
                            n <= u64::MAX,
                            radix <= 36,
                    ;
                }
                let wide: u128 = n as u128 * radix as u128 + v as u128;
                if wide > max as u128 {
                    return None;
                }
                n = wide as u64;
            },
        }
        i = i + 1;
    }
    proof {
        assert(d@.take(i as int) == d@);
    }
    Some(n)
}

pub open spec fn as_u64(s: Seq<char>) -> Option<int> {
    unsigned(s, 10, u64::MAX as int)
}

pub open spec fn as_u32(s: Seq<char>) -> Option<int> {
    unsigned(s, 10, u32::MAX as int)
}

pub open spec fn as_u16(s: Seq<char>) -> Option<int> {
    unsigned(s, 10, u16::MAX as int)
}

pub open spec fn as_u8(s: Seq<char>) -> Option<int> {
    unsigned(s, 10, u8::MAX as int)
}

pub open spec fn u64_of(s: Seq<char>) -> Option<u64> {
    match as_u64(s) {
        Some(n) => Some(n as u64),
        None => None,
    }
}

pub open spec fn u32_of(s: Seq<char>) -> Option<u32> {
    match as_u32(s) {
        Some(n) => Some(n as u32),
        None => None,
    }
}

pub open spec fn u16_of(s: Seq<char>) -> Option<u16> {
    match as_u16(s) {
        Some(n) => Some(n as u16),
        None => None,
    }
}

pub open spec fn u8_of(s: Seq<char>) -> Option<u8> {
    match as_u8(s) {
        Some(n) => Some(n as u8),
        None => None,
    }
}

pub open spec fn hex_of(s: Seq<char>) -> Option<u64> {
    match unsigned(s, 16, u64::MAX as int) {
        Some(n) => Some(n as u64),
        None => None,
    }
}

pub open spec fn octal_of(s: Seq<char>) -> Option<u32> {
    match unsigned(s, 8, u32::MAX as int) {
        Some(n) => Some(n as u32),
        None => None,
    }
}

pub fn parse_u64(s: &[char]) -> (r: Option<u64>)
    ensures
        r == u64_of(s@),
{
    parse_unsigned(s, 10, u64::MAX)
}

pub fn parse_u32(s: &[char]) -> (r: Option<u32>)
    ensures
        r == u32_of(s@),
{
    match parse_unsigned(s, 10, u32::MAX as u64) {
        Some(n) => Some(n as u32),
        None => None,
    }
}

pub fn parse_u16(s: &[char]) -> (r: Option<u16>)
    ensures
        r == u16_of(s@),
{
    match parse_unsigned(s, 10, u16::MAX as u64) {
        Some(n) => Some(n as u16),
        None => None,
    }
}

pub fn parse_u8(s: &[char]) -> (r: Option<u8>)
    ensures
        r == u8_of(s@),
{
    match parse_unsigned(s, 10, u8::MAX as u64) {
        Some(n) => Some(n as u8),
        None => None,
    }
}

pub fn parse_hex(s: &[char]) -> (r: Option<u64>)
    ensures
        r == hex_of(s@),
{
    parse_unsigned(s, 16, u64::MAX)
}

pub fn parse_octal(s: &[char]) -> (r: Option<u32>)
    ensures
        r == octal_of(s@),
{
    match parse_unsigned(s, 8, u32::MAX as u64) {
        Some(n) => Some(n as u32),
        None => None,
    }
}

/// Ten to the given power.
pub open spec fn pow10(n: int) -> int
    decreases n,
{
    if n <= 0 {
        1
    } else {
        10 * pow10(n - 1)
    }
}

/// A character that does not lead an exponent.
pub open spec fn no_mark() -> spec_fn(char) -> bool {
    |c: char| c != 'e' && c != 'E'
}

/// The exponent that a text spells: digits, which a sign may lead.
pub open spec fn exponent(s: Seq<char>) -> Option<int> {
    let minus = s.len() > 0 && s[0] == '-';
    let d = if minus {
        s.skip(1)
    } else {
        strip_plus(s)
    };
    if d.len() == 0 || !all_digits(d, 10) {
        None
    } else if minus {
        Some(-value(d, 10))
    } else {
        Some(value(d, 10))
    }
}

/// A whole number times a power of ten, rounded to the nearest whole number; a tie goes to the
/// even one.
pub open spec fn scaled(d: int, shift: int) -> int {
    if shift >= 0 {
        d * pow10(shift)
    } else {
        rounded(d, pow10(-shift))
    }
}

/// Held to what an `i64` can take.
pub open spec fn held_to_i64(m: int) -> int {
    if m <= i64::MAX {
        m
    } else {
        i64::MAX as int
    }
}

/// The digits before and behind the point.
pub open spec fn halves(s: Seq<char>) -> (Seq<char>, Seq<char>) {
    let i = index_of(s, '.');
    if 0 <= i < s.len() {
        (s.take(i), s.skip(i + 1))
    } else {
        (s, Seq::empty())
    }
}

/// The magnitude of a decimal number, which may have an exponent, rounded to millionths and
/// held to what an `i64` can take.
pub open spec fn magnitude(s: Seq<char>) -> Option<int> {
    let k = run(s, no_mark());
    let (a, b) = halves(s.take(k));
    let e = if k < s.len() {
        exponent(s.skip(k + 1))
    } else {
        Some(0int)
    };
    if a.len() + b.len() > 0 && all_digits(a, 10) && all_digits(b, 10) {
        match e {
            Some(x) => Some(held_to_i64(scaled(value(a + b, 10), 6 + x - b.len()))),
            None => None,
        }
    } else {
        None
    }
}

/// A decimal number such as `0.15`, `-3`, `.5` or `1.5e-3`, in millionths.
pub open spec fn decimal(s: Seq<char>) -> Option<int> {
    if s.len() > 0 && s[0] == '-' {
        match magnitude(s.skip(1)) {
            Some(m) => Some(-m),
            None => None,
        }
    } else {
        magnitude(strip_plus(s))
    }
}

pub open spec fn decimal_of(s: Seq<char>) -> Option<i64> {
    match decimal(s) {
        Some(m) => Some(m as i64),
        None => None,
    }
}

proof fn lemma_value_bound(s: Seq<char>)
    ensures
        0 <= value(s, 10) < pow10(s.len() as int),
    decreases s.len(),
{
    if s.len() > 0 {
        lemma_value_bound(s.drop_last());
    }
}

proof fn lemma_pow10_grows(m: int, n: int)
    requires
        0 <= m <= n,
    ensures
        1 <= pow10(m) <= pow10(n),
    decreases n,
{
    if m < n {
        lemma_pow10_grows(m, n - 1);
    } else if 0 < m {
        lemma_pow10_grows(m - 1, n - 1);
    }
}

/// Taking digits off the front: what is left counts as the rest of a division.
proof fn lemma_value_split(s: Seq<char>, i: int)
    requires
        0 <= i <= s.len(),
    ensures
        value(s, 10) == value(s.take(i), 10) * pow10(s.len() - i) + value(s.skip(i), 10),
    decreases s.len(),
{
    if i == s.len() {
        assert(s.take(i) == s);
        assert(s.skip(i) == Seq::<char>::empty());
    } else {
        let front = s.drop_last();
        lemma_value_split(front, i);
        assert(front.take(i) == s.take(i));
        assert(s.skip(i).drop_last() == front.skip(i));
        assert(s.skip(i).last() == s.last());
        let (v, p) = (value(s.take(i), 10), pow10(front.len() - i));
        assert(v * (10 * p) == (v * p) * 10) by (nonlinear_arith);
    }
}

proof fn lemma_scaled_zero(shift: int)
    ensures
        scaled(0, shift) == 0,
{
    if shift < 0 {
        lemma_pow10_grows(0, -shift);
        let d = pow10(-shift);
        assert(0int / d == 0 && 0int % d == 0) by (nonlinear_arith)
            requires
                d >= 1,
        ;
    } else {
        let p = pow10(shift);
        assert(0 * p == 0) by (nonlinear_arith);
    }
}

/// Nineteen more places are more than an `i64` can take.
proof fn lemma_scaled_large(d: int, shift: int)
    requires
        d >= 1,
        shift >= 19,
    ensures
        scaled(d, shift) > i64::MAX,
{
    lemma_pow10_grows(19, shift);
    reveal_with_fuel(pow10, 20);
    let p = pow10(shift);
    assert(d * p >= p) by (nonlinear_arith)
        requires
            d >= 1,
            p >= 1,
    ;
}

/// Digits that all stand far behind the last place round to nothing.
proof fn lemma_scaled_small(d: int, n: int, shift: int)
    requires
        0 <= d < pow10(n),
        0 <= n,
        shift < -n,
    ensures
        scaled(d, shift) == 0,
{
    lemma_pow10_grows(n, -shift - 1);
    let p = pow10(-shift);
    assert(p == 10 * pow10(-shift - 1));
    assert(d / p == 0 && d % p == d) by (nonlinear_arith)
        requires
            0 <= d < p,
    ;
}

/// Rounding a number by its digits: what is kept, and whether the rest rounds up.
proof fn lemma_rounded_digits(s: Seq<char>, i: int)
    requires
        0 <= i < s.len(),
        all_digits(s, 10),
    ensures
        ({
            let q = value(s.take(i), 10);
            let first = digit_in(s[i], 10)->0;
            let rest = value(s.skip(i + 1), 10);
            rounded(value(s, 10), pow10(s.len() - i)) == if first > 5 || (first == 5 && (rest > 0
                || q % 2 == 1)) {
                q + 1
            } else {
                q
            }
        }),
{
    let q = value(s.take(i), 10);
    let tail = s.skip(i);
    let r = value(tail, 10);
    let d = pow10(s.len() - i);
    lemma_value_split(s, i);
    lemma_value_bound(tail);
    lemma_value_bound(s.take(i));
    lemma_value_split(tail, 1);
    assert(tail.skip(1) == s.skip(i + 1));
    assert(tail.take(1).drop_last() == Seq::<char>::empty());
    assert(tail.take(1).last() == s[i]);
    assert(digit_in(s[i], 10) is Some);
    let first = digit_in(s[i], 10)->0;
    let h = pow10(s.len() - i - 1);
    let rest = value(s.skip(i + 1), 10);
    lemma_value_bound(s.skip(i + 1));
    assert(value(tail.take(1), 10) == first) by {
        assert(value(Seq::<char>::empty(), 10) == 0);
    }
    assert(d == 10 * h);
    assert(r == first * h + rest);
    assert((q * d + r) / d == q && (q * d + r) % d == r) by {
        vstd::arithmetic::div_mod::lemma_fundamental_div_mod_converse(q * d + r, d, q, r);
    }
    if first > 5 {
        assert(first * h >= 6 * h) by (nonlinear_arith)
            requires
                first >= 6,
                h >= 1,
        ;
    } else if first == 5 {
        assert(first * h == 5 * h);
    } else {
        assert(first * h <= 4 * h) by (nonlinear_arith)
            requires
                first <= 4,
                h >= 1,
        ;
    }
}

/// Reads digits, counting no further than a hundred million million millions.
fn parse_capped(s: &[char]) -> (r: u128)
    requires
        all_digits(s@, 10),
    ensures
        r == if value(s@, 10) <= 100_000_000_000_000_000_000 {
            value(s@, 10)
        } else {
            100_000_000_000_000_000_000
        },
{
    let cap: u128 = 100_000_000_000_000_000_000;
    let mut n: u128 = 0;
    let mut i: usize = 0;
    while i < s.len()
        invariant
            cap == 100_000_000_000_000_000_000,
            i <= s@.len(),
            all_digits(s@, 10),
            n == if value(s@.take(i as int), 10) <= cap {
                value(s@.take(i as int), 10)
            } else {
                cap as int
            },
        decreases s@.len() - i,
    {
        proof {
            assert(s@.take(i + 1).drop_last() == s@.take(i as int));
            lemma_value_nonneg(s@.take(i as int), 10);
            assert(digit_in(s@[i as int], 10) is Some);
        }
        let v: u32 = match digit_value(s[i], 10) {
            Some(v) => v,
            None => 0,
        };
        let next: u128 = n * 10 + v as u128;
        n = if next <= cap {
            next
        } else {
            cap
        };
        i = i + 1;
    }
    proof {
        assert(s@.take(i as int) == s@);
    }
    n
}

fn is_digits(s: &[char]) -> (r: bool)
    ensures
        r == all_digits(s@, 10),
{
    let mut i: usize = 0;
    while i < s.len()
        invariant
            i <= s@.len(),
            forall|j: int| 0 <= j < i ==> digit_in(#[trigger] s@[j], 10).is_some(),
        decreases s@.len() - i,
    {
        if digit_value(s[i], 10).is_none() {
            proof {
                assert(digit_in(s@[i as int], 10).is_none());
            }
            return false;
        }
        i = i + 1;
    }
    true
}

/// A bound that no count of digits reaches.
spec fn far() -> int {
    100_000_000_000_000_000_000
}

/// Reads an exponent, counting no further than a hundred million million millions either way.
fn parse_exponent(s: &[char]) -> (r: Option<i128>)
    ensures
        match r {
            Some(x) => exponent(s@) matches Some(e) && (x == e || (e >= far() && x == far()) || (e
                <= -far() && x == -far())) && -far() <= x <= far(),
            None => exponent(s@) is None,
        },
{
    let minus = s.len() > 0 && s[0] == '-';
    let d = if minus {
        slice_subrange(s, 1, s.len())
    } else {
        without_plus(s)
    };
    proof {
        if minus {
            assert(d@ == s@.skip(1));
        }
    }
    if d.len() == 0 || !is_digits(d) {
        return None;
    }
    let n = parse_capped(d);
    proof {
        lemma_value_nonneg(d@, 10);
    }
    if minus {
        Some(-(n as i128))
    } else {
        Some(n as i128)
    }
}

/// Scales the number that digits spell by a power of ten.
fn scale_digits(s: &[char], shift: i128) -> (r: i64)
    requires
        all_digits(s@, 10),
        -0x1_0000_0000_0000_0000_0000 <= shift <= 0x1_0000_0000_0000_0000_0000,
    ensures
        r == held_to_i64(scaled(value(s@, 10), shift as int)),
        r >= 0,
{
    let n: usize = s.len();
    let ghost d = value(s@, 10);
    proof {
        lemma_value_bound(s@);
    }
    if shift >= 0 {
        return grow(parse_capped(s), shift, Ghost(d));
    }
    let keep: i128 = n as i128 + shift;
    if keep < 0 {
        proof {
            lemma_scaled_small(d, n as int, shift as int);
        }
        return 0;
    }
    let i: usize = keep as usize;
    let head = slice_subrange(s, 0, i);
    let tail = slice_subrange(s, i + 1, n);
    proof {
        lemma_rounded_digits(s@, i as int);
        assert(head@ == s@.take(i as int));
        assert(tail@ == s@.skip(i + 1));
        assert(forall|j: int| 0 <= j < head@.len() ==> head@[j] == s@[j]);
        assert(forall|j: int| 0 <= j < tail@.len() ==> tail@[j] == s@[i + 1 + j]);
        lemma_value_bound(head@);
        lemma_value_bound(tail@);
        assert(digit_in(s@[i as int], 10) is Some);
    }
    let q = parse_capped(head);
    let rest = parse_capped(tail);
    let first: u32 = match digit_value(s[i], 10) {
        Some(v) => v,
        None => 0,
    };
    let up = first > 5 || (first == 5 && (rest > 0 || q % 2 == 1));
    if q >= i64::MAX as u128 {
        i64::MAX
    } else if up {
        (q + 1) as i64
    } else {
        q as i64
    }
}

/// Multiplies by a power of ten, up to what an `i64` can take.
fn grow(start: u128, shift: i128, Ghost(d): Ghost<int>) -> (r: i64)
    requires
        0 <= shift,
        0 <= d,
        start == if d <= 100_000_000_000_000_000_000 {
            d
        } else {
            100_000_000_000_000_000_000
        },
    ensures
        r == held_to_i64(scaled(d, shift as int)),
        r >= 0,
{
    if start == 0 {
        proof {
            lemma_scaled_zero(shift as int);
        }
        return 0;
    }
    if shift >= 19 {
        proof {
            lemma_scaled_large(d, shift as int);
        }
        return i64::MAX;
    }
    let mut n: u128 = start;
    let mut j: i128 = 0;
    proof {
        reveal_with_fuel(pow10, 20);
        lemma_pow10_grows(0, shift as int);
        let p = pow10(shift as int);
        assert(d * p >= d) by (nonlinear_arith)
            requires
                d >= 0,
                p >= 1,
        ;
        assert(start * pow10(0) == start) by (nonlinear_arith)
            requires
                pow10(0) == 1,
        ;
    }
    while j < shift
        invariant
            0 <= j <= shift < 19,
            n == start * pow10(j as int),
            start <= 100_000_000_000_000_000_000,
            n <= 100_000_000_000_000_000_000 * pow10(j as int),
            pow10(j as int) <= pow10(18) == 1_000_000_000_000_000_000,
        decreases shift - j,
    {
        proof {
            lemma_pow10_grows(j + 1, 18);
            let p = pow10(j as int);
            assert(start * (10 * p) == (start * p) * 10) by (nonlinear_arith);
            assert(100_000_000_000_000_000_000 * (10 * p) == (100_000_000_000_000_000_000 * p) * 10)
                by (nonlinear_arith);
        }
        n = n * 10;
        j = j + 1;
    }
    if n <= i64::MAX as u128 {
        n as i64
    } else {
        i64::MAX
    }
}

fn parse_magnitude(s: &[char]) -> (r: Option<i64>)
    ensures
        match r {
            Some(n) => magnitude(s@) == Some(n as int) && n >= 0,
            None => magnitude(s@).is_none(),
        },
{
    let mut k: usize = 0;
    while k < s.len() && s[k] != 'e' && s[k] != 'E'
        invariant
            k <= s@.len(),
            forall|j: int| 0 <= j < k ==> no_mark()(#[trigger] s@[j]),
        decreases s@.len() - k,
    {
        k = k + 1;
    }
    let len: usize = s.len();
    let base = slice_subrange(s, 0, k);
    proof {
        lemma_run_ends_at(s@, no_mark(), k as int);
        assert(base@ == s@.take(k as int));
    }
    let i = find_char(base, '.');
    let a = slice_subrange(base, 0, i);
    let b = if i < k {
        slice_subrange(base, i + 1, k)
    } else {
        slice_subrange(base, k, k)
    };
    proof {
        if i < k {
            assert(a@ == base@.take(i as int));
            assert(b@ == base@.skip(i + 1));
        } else {
            assert(a@ == base@);
            assert(b@ == Seq::<char>::empty());
        }
        assert(halves(base@) == (a@, b@));
    }
    if (a.len() == 0 && b.len() == 0) || !is_digits(a) || !is_digits(b) {
        return None;
    }
    let x: i128 = if k < len {
        let behind = slice_subrange(s, k + 1, len);
        proof {
            assert(behind@ == s@.skip(k + 1));
        }
        match parse_exponent(behind) {
            Some(x) => x,
            None => {
                return None;
            },
        }
    } else {
        0
    };
    let all = append_chars(a, b);
    let ghost d = value(a@ + b@, 10);
    let shift: i128 = 6 + x - b.len() as i128;
    proof {
        lemma_value_bound(a@ + b@);
        let e: int = if k < len {
            exponent(s@.skip(k + 1))->0
        } else {
            0
        };
        let exact = 6 + e - b@.len();
        if e != x {
            if d == 0 {
                lemma_scaled_zero(exact);
                lemma_scaled_zero(shift as int);
            } else if e > x {
                lemma_scaled_large(d, exact);
                lemma_scaled_large(d, shift as int);
            } else {
                lemma_scaled_small(d, (a@ + b@).len() as int, exact);
                lemma_scaled_small(d, (a@ + b@).len() as int, shift as int);
            }
        }
    }
    Some(scale_digits(all.as_slice(), shift))
}

fn append_chars(a: &[char], b: &[char]) -> (r: Vec<char>)
    ensures
        r@ == a@ + b@,
{
    let mut r: Vec<char> = Vec::new();
    let mut i: usize = 0;
    while i < a.len()
        invariant
            i <= a@.len(),
            r@ == a@.take(i as int),
        decreases a@.len() - i,
    {
        r.push(a[i]);
        i = i + 1;
        proof {
            assert(r@ =~= a@.take(i as int));
        }
    }
    let mut j: usize = 0;
    proof {
        assert(r@ =~= a@ + b@.take(0));
    }
    while j < b.len()
        invariant
            j <= b@.len(),
            r@ == a@ + b@.take(j as int),
        decreases b@.len() - j,
    {
        r.push(b[j]);
        j = j + 1;
        proof {
            assert(r@ =~= a@ + b@.take(j as int));
        }
    }
    proof {
        assert(b@.take(j as int) =~= b@);
    }
    r
}

/// Reads a decimal number in millionths.
pub fn parse_decimal(s: &[char]) -> (r: Option<i64>)
    ensures
        r == decimal_of(s@),
{
    if s.len() > 0 && s[0] == '-' {
        let rest = slice_subrange(s, 1, s.len());
        proof {
            assert(rest@ == s@.skip(1));
        }
        match parse_magnitude(rest) {
            Some(m) => Some(-m),
            None => None,
        }
    } else {
        parse_magnitude(without_plus(s))
    }
}

/// The character of a decimal digit.
pub open spec fn digit_char(d: int) -> char {
    ('0' as int + d) as u8 as char
}

/// The decimal digits of a number.
pub open spec fn digits(n: int) -> Seq<char>
    decreases n,
{
    if n < 10 {
        seq![digit_char(n)]
    } else {
        digits(n / 10).push(digit_char(n % 10))
    }
}

/// The digits of a number are digits, and there is one at least.
pub proof fn lemma_digits_shape(n: int)
    requires
        0 <= n,
    ensures
        digits(n).len() > 0,
        forall|i: int| 0 <= i < digits(n).len() ==> '0' <= #[trigger] digits(n)[i] <= '9',
    decreases n,
{
    if n >= 10 {
        lemma_digits_shape(n / 10);
    }
}

/// The digits of a number are read as that number.
pub proof fn lemma_digits_value(n: u64)
    ensures
        u64_of(digits(n as int)) == Some(n),
{
    lemma_digits_are_read(n as int);
    lemma_digits_shape(n as int);
    assert(strip_plus(digits(n as int)) == digits(n as int));
}

pub proof fn lemma_digits_are_read(n: int)
    requires
        0 <= n,
    ensures
        all_digits(digits(n), 10),
        value(digits(n), 10) == n,
    decreases n,
{
    if n >= 10 {
        lemma_digits_are_read(n / 10);
        assert(digits(n).drop_last() =~= digits(n / 10));
        assert forall|i: int| 0 <= i < digits(n).len() implies digit_in(
            #[trigger] digits(n)[i],
            10,
        ).is_some() by {
            if i < digits(n / 10).len() {
                assert(digits(n)[i] == digits(n / 10)[i]);
            }
        }
    } else {
        assert(digits(n).drop_last() =~= Seq::<char>::empty());
        assert(value(Seq::<char>::empty(), 10) == 0);
    }
}

fn push_digit(s: &mut String, d: u8)
    requires
        d < 10,
    ensures
        final(s)@ == old(s)@.push(digit_char(d as int)),
{
    s.push((48 + d) as char);
}

/// Writes a number in decimal.
pub fn format_u128(n: u128) -> (r: String)
    ensures
        r@ == digits(n as int),
    decreases n,
{
    if n < 10 {
        let mut s = String::new();
        push_digit(&mut s, n as u8);
        proof {
            assert(s@ == digits(n as int));
        }
        s
    } else {
        let mut s = format_u128(n / 10);
        push_digit(&mut s, (n % 10) as u8);
        s
    }
}

pub fn format_u64(n: u64) -> (r: String)
    ensures
        r@ == digits(n as int),
{
    format_u128(n as u128)
}

pub fn format_usize(n: usize) -> (r: String)
    ensures
        r@ == digits(n as int),
{
    format_u128(n as u128)
}

/// A number with its sign, in decimal.
pub open spec fn signed_digits(n: int) -> Seq<char> {
    if n < 0 {
        "-"@ + digits(-n)
    } else {
        digits(n)
    }
}

pub fn format_i64(n: i64) -> (r: String)
    ensures
        r@ == signed_digits(n as int),
{
    if n < 0 {
        let mut s = "-".to_string();
        let m = format_u128((-(n as i128)) as u128);
        s.append(m.as_str());
        s
    } else {
        format_u128(n as u128)
    }
}

/// The quotient, rounded to the nearest whole number; a tie goes to the even one.
pub open spec fn rounded(a: int, d: int) -> int {
    let q = a / d;
    let r = a % d;
    if 2 * r < d || (2 * r == d && q % 2 == 0) {
        q
    } else {
        q + 1
    }
}

pub fn round_div(a: u128, d: u128) -> (r: u128)
    requires
        0 < d <= 0x4000_0000_0000_0000_0000_0000_0000_0000,
        a < u128::MAX,
    ensures
        r == rounded(a as int, d as int),
        r <= a + 1,
{
    let q: u128 = a / d;
    let rem: u128 = a % d;
    proof {
        assert(a as int / d as int <= a as int) by (nonlinear_arith)
            requires
                a >= 0,
                d >= 1,
        ;
    }
    if 2 * rem < d || (2 * rem == d && q % 2 == 0) {
        q
    } else {
        q + 1
    }
}

/// A digit string of exactly `n` places, with leading zeros.
pub open spec fn zero_padded(v: int, n: int) -> Seq<char>
    decreases n,
{
    if n <= 0 {
        Seq::empty()
    } else {
        zero_padded(v / 10, n - 1).push(digit_char(v % 10))
    }
}

/// Numbers that fit into `n` digits are in the order of their padded texts.
pub proof fn lemma_zero_padded_order(v: int, w: int, n: int)
    requires
        0 <= v < w < pow10(n),
        0 <= n,
    ensures
        before(zero_padded(v, n), zero_padded(w, n)),
    decreases n,
{
    if n > 0 {
        let p = zero_padded(v / 10, n - 1);
        let q = zero_padded(w / 10, n - 1);
        let x = seq![digit_char(v % 10)];
        let y = seq![digit_char(w % 10)];
        lemma_zero_padded_len(v / 10, n - 1);
        lemma_zero_padded_len(w / 10, n - 1);
        assert(zero_padded(v, n) == p + x);
        assert(zero_padded(w, n) == q + y);
        if v / 10 < w / 10 {
            lemma_zero_padded_order(v / 10, w / 10, n - 1);
        } else {
            assert(v % 10 < w % 10);
            assert(x[0] < y[0]);
            assert(before(x, y));
        }
        lemma_before_joined(p, q, x, y);
    }
}

pub proof fn lemma_zero_padded_len(v: int, n: int)
    requires
        0 <= n,
    ensures
        zero_padded(v, n).len() == n,
    decreases n,
{
    if n > 0 {
        lemma_zero_padded_len(v / 10, n - 1);
    }
}

pub fn format_padded(v: u64, n: u32) -> (r: String)
    ensures
        r@ == zero_padded(v as int, n as int),
    decreases n,
{
    if n == 0 {
        String::new()
    } else {
        let mut s = format_padded(v / 10, n - 1);
        push_digit(&mut s, (v % 10) as u8);
        s
    }
}

/// The quotient with the given number of places after the point.
pub open spec fn fixed(num: int, den: int, places: int) -> Seq<char> {
    let q = rounded(num * pow10(places), den);
    if places <= 0 {
        digits(q)
    } else {
        digits(q / pow10(places)) + "."@ + zero_padded(q % pow10(places), places)
    }
}

/// Writes a quotient with no, one or two places after the point.
pub fn format_fixed(num: u128, den: u128, places: u32) -> (r: String)
    requires
        0 < den <= 0x4000_0000_0000_0000_0000_0000_0000_0000,
        num <= 0x0100_0000_0000_0000_0000_0000_0000_0000,
        places <= 2,
    ensures
        r@ == fixed(num as int, den as int, places as int),
{
    proof {
        reveal_with_fuel(pow10, 4);
    }
    let scale: u128 = if places == 0 {
        1
    } else if places == 1 {
        10
    } else {
        100
    };
    assert(scale == pow10(places as int));
    let q = round_div(num * scale, den);
    if places == 0 {
        format_u128(q)
    } else {
        let mut s = format_u128(q / scale);
        s.append(".");
        let tail = format_padded((q % scale) as u64, places);
        s.append(tail.as_str());
        s
    }
}

/// A quantity in millionths, with the given number of places after the point. It is rounded as
/// a double-precision number holds it.
pub open spec fn micros_text(m: int, places: int) -> Seq<char> {
    share_text(m, 1, places)
}

pub fn format_micros(m: i64, places: u32) -> (r: String)
    requires
        places <= 2,
    ensures
        r@ == micros_text(m as int, places as int),
{
    format_share(m, 1, places)
}

} // verus!
