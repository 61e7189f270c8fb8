//! Quotients, held against the machine's double-precision numbers.

use linux_audit_mcp::double::{format_share, is_share_reached, share_of, to_double};
use linux_audit_mcp::text::number::format_micros;

#[test]
fn a_load_per_core_is_printed_as_a_double_is() {
    for hundredths in (0i64..1_200).chain([9_999, 123_457]) {
        let load: f64 = format!("{}.{:02}", hundredths / 100, hundredths % 100).parse().unwrap();
        let m = hundredths * 10_000;
        for cores in (1u32..=33).chain([48, 64, 96, 128]) {
            let want = load / cores as f64;
            assert_eq!(format_share(m, cores, 2), format!("{want:.2}"), "{load} / {cores}");
            let off = share_of(m, cores) as f64 - want * 1e6;
            assert!(off.abs() <= 0.500_001, "{load} / {cores}");
        }
    }
    assert_eq!(format_share(10_000, 2, 2), "0.01");
    assert_eq!(format_share(350_000, 2, 2), "0.17");
}

#[test]
fn a_load_per_core_meets_its_bounds_as_a_double_does() {
    for hundredths in (0i64..400).chain([1_000, 9_999]) {
        let load = hundredths as f64 / 100.0;
        for cores in [1u32, 2, 3, 5, 6, 7, 8, 12, 24] {
            for bound in [-1_000_000i64, 0, 100_000, 333_333, 700_000, 1_000_000, 1_500_000] {
                let (value, limit) = (load / cores as f64, bound as f64 / 1e6);
                assert_eq!(
                    is_share_reached(hundredths * 10_000, cores, bound),
                    value >= limit,
                    "{load} / {cores} >= {limit}"
                );
                if hundredths > 0 {
                    assert_eq!(
                        is_share_reached(-hundredths * 10_000, cores, bound),
                        -value >= limit,
                        "-{load} / {cores} >= {limit}"
                    );
                }
            }
        }
    }
    // A third of 0.3 falls short of 0.1.
    assert!(!is_share_reached(300_000, 3, 100_000));
}

#[test]
fn readings_are_printed_as_doubles_are() {
    for m in (0i64..4_000).map(|i| i * 2_500 + 5_000).chain([1, 999_999, 5_000, 15_000, 25_000]) {
        let x = m as f64 / 1e6;
        for places in 0u32..3 {
            let want = format!("{x:.*}", places as usize);
            assert_eq!(format_micros(m, places), want, "{x} {places}");
        }
    }
}

#[test]
fn a_double_has_fifty_three_digits() {
    for (num, den) in [(1u128, 3u128), (2, 3), (10, 7), (355, 113), (1, 1_000_000), (1 << 53, 1)] {
        let d = to_double(num, den);
        assert_eq!(d.mantissa as f64 / d.unit as f64, num as f64 / den as f64);
        assert!((1 << 52..=1 << 53).contains(&d.mantissa));
    }
    assert_eq!(to_double(0, 5).mantissa, 0);
}
