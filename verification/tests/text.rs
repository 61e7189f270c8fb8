//! Text helpers, held against the standard library.

use linux_audit_mcp::calendar::{civil_from_days, days_from_date, days_in_month, is_leap};
use linux_audit_mcp::text::chars::{
    chars_of, is_ascii_alphanumeric, is_digit, is_white, lowercase_of, text_of, to_lower,
};
use linux_audit_mcp::text::compose::{align_left, align_right, join_texts};
use linux_audit_mcp::text::number::{
    format_fixed, format_i64, format_micros, format_padded, format_u128, format_u64, parse_decimal,
    parse_hex, parse_octal, parse_u16, parse_u32, parse_u64, parse_u8, round_div,
};
use linux_audit_mcp::text::order::{sort_texts, text_before};
use linux_audit_mcp::text::search::{contains_text, find_text, starts_with_chars};
use linux_audit_mcp::text::split::{
    split_at_char, split_char, split_lines, split_words, text_after_last, trimmed,
};

const SAMPLES: [&str; 14] = [
    "",
    " ",
    "a",
    "a b",
    "  a\tb \n",
    "a\nb",
    "a\r\nb\r\n",
    "\n\n",
    "a:b::c:",
    ":",
    "\u{a0}x\u{3000}y\u{85}",
    "key = value = more",
    "Ünïcödé ß",
    "\r",
];

fn owned(parts: &[&[char]]) -> Vec<String> {
    parts.iter().map(|p| p.iter().collect()).collect()
}

#[test]
fn characters_are_classified_as_std_does() {
    for code in 0..=0x10ffff {
        if let Some(c) = char::from_u32(code) {
            assert_eq!(is_white(c), c.is_whitespace(), "{c:?}");
            assert_eq!(is_digit(c), c.is_ascii_digit(), "{c:?}");
            assert_eq!(is_ascii_alphanumeric(c), c.is_ascii_alphanumeric(), "{c:?}");
            assert_eq!(to_lower(c), c.to_ascii_lowercase(), "{c:?}");
        }
    }
}

#[test]
fn texts_are_split_as_std_does() {
    for s in SAMPLES {
        let c = chars_of(s);
        assert_eq!(text_of(&c), s);
        assert_eq!(owned(&split_lines(&c)), s.lines().collect::<Vec<_>>(), "{s:?}");
        assert_eq!(owned(&split_words(&c)), s.split_whitespace().collect::<Vec<_>>(), "{s:?}");
        assert_eq!(owned(&split_char(&c, ':')), s.split(':').collect::<Vec<_>>(), "{s:?}");
        assert_eq!(text_of(trimmed(&c)), s.trim(), "{s:?}");
        let cut = split_at_char(&c, '=').map(|(a, b)| (text_of(a), text_of(b)));
        let std = s.split_once('=').map(|(a, b)| (a.to_string(), b.to_string()));
        assert_eq!(cut, std, "{s:?}");
        assert_eq!(text_of(text_after_last(&c, ':')), s.rsplit(':').next().unwrap(), "{s:?}");
        assert_eq!(text_of(&lowercase_of(&c)), s.to_ascii_lowercase(), "{s:?}");
    }
}

#[test]
fn texts_are_searched_as_std_does() {
    for s in SAMPLES {
        let c = chars_of(s);
        for p in SAMPLES {
            assert_eq!(contains_text(&c, p), s.contains(p), "{s:?} {p:?}");
            let at = find_text(&c, p).map(|i| c[..i].iter().collect::<String>().len());
            assert_eq!(at, s.find(p), "{s:?} {p:?}");
            assert_eq!(starts_with_chars(&c, &chars_of(p)), s.starts_with(p), "{s:?} {p:?}");
            assert_eq!(text_before(s, p), s < p, "{s:?} {p:?}");
        }
    }
    let mut sorted: Vec<&str> = SAMPLES.to_vec();
    sorted.sort();
    let own = SAMPLES.iter().map(|s| s.to_string()).collect();
    assert_eq!(sort_texts(own), sorted);
}

#[test]
fn whole_numbers_are_read_as_std_does() {
    for s in [
        "", "0", "7", "+7", "-7", "007", "255", "256", "65535", "65536", "4294967295",
        "4294967296", "18446744073709551615", "18446744073709551616", "1_000", " 1", "1 ", "+", "x",
    ] {
        let c = chars_of(s);
        assert_eq!(parse_u8(&c), s.parse::<u8>().ok(), "{s:?}");
        assert_eq!(parse_u16(&c), s.parse::<u16>().ok(), "{s:?}");
        assert_eq!(parse_u32(&c), s.parse::<u32>().ok(), "{s:?}");
        assert_eq!(parse_u64(&c), s.parse::<u64>().ok(), "{s:?}");
        assert_eq!(parse_hex(&c), u64::from_str_radix(s, 16).ok(), "{s:?}");
        assert_eq!(parse_octal(&c), u32::from_str_radix(s, 8).ok(), "{s:?}");
    }
    assert_eq!(parse_hex(&chars_of("dEadBEEF")), Some(0xdead_beef));
}

#[test]
fn decimals_are_read_in_millionths() {
    for s in ["0", "1", "12.5", "0.000001", ".5", "5.", "-3.25", "+1.5", "", ".", "x", "1.2.3", "-"] {
        let std = s.parse::<f64>().ok().map(|x| (x * 1e6).round() as i64);
        assert_eq!(parse_decimal(&chars_of(s)), std, "{s:?}");
    }
    // Exponents, and places behind the sixth, which are rounded.
    for s in [
        "1e3", "1E3", "1e+3", "25e-1", "-1.5e2", ".5e1", "5.e-1", "12.5E-3", "1e-7", "6e-7", "0e99",
        "0.0000004", "0.0000006", "1.9999999", "123456.7890126", "1e", "1e+", "e1", ".e1", "1e1.5",
        "1e1e1", "1e 1", "00012.50", "1e-400", "9e12", "0.1e00002",
    ] {
        let std = s.parse::<f64>().ok().map(|x| (x * 1e6).round() as i64);
        assert_eq!(parse_decimal(&chars_of(s)), std, "{s:?}");
    }
    // A tie goes to the even neighbour, and what is too large is held.
    assert_eq!(parse_decimal(&chars_of("0.0000005")), Some(0));
    assert_eq!(parse_decimal(&chars_of("0.0000015")), Some(2));
    assert_eq!(parse_decimal(&chars_of("0.00000050001")), Some(1));
    assert_eq!(parse_decimal(&chars_of("1e13")), Some(i64::MAX));
    assert_eq!(parse_decimal(&chars_of("-1e99999999999999999999999")), Some(-i64::MAX));
    assert_eq!(parse_decimal(&chars_of("7e-99999999999999999999999")), Some(0));
    assert_eq!(parse_decimal(&chars_of("9223372036854.775807")), Some(i64::MAX));
    assert_eq!(parse_decimal(&chars_of("9223372036854.775806")), Some(i64::MAX - 1));
}

#[test]
fn numbers_are_written_as_std_does() {
    for n in [0, 1, 9, 10, 99, 100, 12_345, u64::MAX] {
        assert_eq!(format_u64(n), n.to_string());
        assert_eq!(format_u128(n as u128), n.to_string());
        assert_eq!(format_padded(n % 10_000, 4), format!("{:04}", n % 10_000));
    }
    for n in [0, -1, 1, i64::MIN, i64::MAX] {
        assert_eq!(format_i64(n), n.to_string());
    }
    assert_eq!(format_u128(u128::MAX), u128::MAX.to_string());
    // Values with a finite binary expansion are rounded alike, ties included.
    for (num, den) in [(0, 1), (1, 2), (3, 2), (1, 4), (3, 8), (5, 8), (1, 8), (123_456, 64)] {
        for places in 0..3 {
            let x = num as f64 / den as f64;
            let std = format!("{x:.*}", places as usize);
            assert_eq!(format_fixed(num, den, places), std, "{num}/{den}");
        }
    }
    for (m, places, text) in [
        (500_000, 2, "0.50"),
        (-1_250_000, 1, "-1.2"),
        (-1_350_000, 1, "-1.4"),
        (1_999_999, 0, "2"),
        (12_345_678, 2, "12.35"),
    ] {
        assert_eq!(format_micros(m, places), text);
    }
    assert_eq!(round_div(5, 2), 2);
    assert_eq!(round_div(7, 2), 4);
    assert_eq!(round_div(8, 3), 3);
}

#[test]
fn texts_are_put_together_as_std_does() {
    for s in SAMPLES {
        assert_eq!(align_left(s, 5), format!("{s:<5}"));
        assert_eq!(align_right(s, 5), format!("{s:>5}"));
    }
    let parts = vec!["a".to_string(), String::new(), "b".to_string()];
    assert_eq!(join_texts(&parts, ", "), parts.join(", "));
    assert_eq!(join_texts(&Vec::new(), ", "), "");
}

#[test]
fn days_and_dates_undo_each_other() {
    let mut day = 0;
    for y in 1970..2200 {
        for m in 1..=12 {
            for d in 1..=days_in_month(y, m) {
                assert_eq!(civil_from_days(day), (y, m, d));
                assert_eq!(days_from_date(y as u16, m, d), day as i64);
                day += 1;
            }
        }
    }
    assert!(is_leap(2000) && is_leap(2024) && !is_leap(1900) && !is_leap(2023));
    assert_eq!(days_from_date(1969, 12, 31), -1);
}
