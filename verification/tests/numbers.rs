use polymarket_bot::number::binary64::Binary64;

fn num(x: f64) -> Binary64 {
    Binary64::from_bits(x.to_bits())
}

fn val(x: Binary64) -> f64 {
    f64::from_bits(x.to_bits())
}

fn next(seed: &mut u64) -> u64 {
    *seed ^= *seed << 13;
    *seed ^= *seed >> 7;
    *seed ^= *seed << 17;
    *seed
}

fn same(ours: Binary64, hardware: f64) {
    if hardware.is_nan() {
        assert!(val(ours).is_nan());
    } else {
        assert_eq!(ours.to_bits(), hardware.to_bits());
    }
}

fn samples() -> Vec<f64> {
    let mut out = vec![
        0.0, -0.0, 1.0, -1.0, 0.5, 2.0, 0.1, 0.2, 0.3, 10_000.0, 1e-300, 1e300, 5e-324, -5e-324,
        2.2250738585072014e-308, 2.225073858507201e-308, 1.7976931348623157e308, f64::INFINITY,
        f64::NEG_INFINITY, f64::NAN, 9007199254740993.0, 4503599627370497.5, 0.01, 0.02, 0.55,
        0.92, 3.0, 7.0, 1.0 / 3.0,
    ];
    let mut seed = 0x9E37_79B9_7F4A_7C15u64;
    for _ in 0..150 {
        out.push(f64::from_bits(next(&mut seed)));
        let r = next(&mut seed);
        out.push((r >> 11) as f64 / 9007199254740992.0);
        out.push((r % 2_000_000) as f64 / 10_000.0 - 100.0);
    }
    out
}

#[test]
fn arithmetic_matches_the_hardware() {
    let xs = samples();
    for &a in &xs {
        for &b in &xs {
            same(num(a).plus(num(b)), a + b);
            same(num(a).minus(num(b)), a - b);
            same(num(a).times(num(b)), a * b);
            same(num(a).over(num(b)), a / b);
            assert_eq!(num(a).is_below(num(b)), a < b);
            assert_eq!(num(a).is_above(num(b)), a > b);
            assert_eq!(num(a).is_at_most(num(b)), a <= b);
        }
        same(num(a).abs(), a.abs());
        same(num(a).negate(), -a);
        assert_eq!(num(a).is_nan(), a.is_nan());
    }
}

#[test]
fn nearby_exponents_round_like_the_hardware() {
    let mut seed = 42u64;
    for _ in 0..20_000 {
        let a = f64::from_bits(next(&mut seed));
        let gap = next(&mut seed) % 140;
        let b = f64::from_bits((a.to_bits() & 0xFFF0_0000_0000_0000).wrapping_sub(gap << 52)
            | (next(&mut seed) >> 12));
        same(num(a).plus(num(b)), a + b);
        same(num(a).minus(num(b)), a - b);
    }
}

#[test]
fn ratios_are_the_literals() {
    same(Binary64::ratio(55, 100), 0.55);
    same(Binary64::ratio(92, 100), 0.92);
    same(Binary64::ratio(1, 100), 0.01);
    same(Binary64::ratio(2, 100), 0.02);
    same(Binary64::ratio(5, 100), 0.05);
    same(Binary64::ratio(1, 10), 0.1);
    same(Binary64::ratio(1, 2), 0.5);
    same(Binary64::ratio(25, 1), 25.0);
    same(Binary64::ratio(0, 7), 0.0);
    same(Binary64::zero(), 0.0);
    let mut seed = 7u64;
    for _ in 0..5_000 {
        let n = next(&mut seed);
        same(Binary64::from_u64(n), n as f64);
        same(Binary64::from_u64(n >> 40), (n >> 40) as f64);
    }
}

fn check_text(text: &str) {
    match (Binary64::parse(text), text.parse::<f64>()) {
        (Some(ours), Ok(theirs)) => same(ours, theirs),
        (None, Err(_)) => {}
        (ours, theirs) => panic!("{text}: {ours:?} {theirs:?}"),
    }
}

#[test]
fn decimals_are_read_as_the_language_reads_them() {
    for text in [
        "0", "-0", "1", "+1", "0.5", ".5", "5.", ".", "", "+", "-", "e5", "1e", "1e+", "1e5",
        "1E-5", "-1.5e+3", "inf", "INF", "-Infinity", "infinit", "nan", "-NaN", "1_000", " 1",
        "1 ", "0x10", "1.2.3", "1e5.0", "--1", "0.1", "0.3", "97000.5", "0.92",
        "123456789012345678901234567890", "0.000000000000000000000000000000000001",
        "1e400", "1e-400", "0e999999999999999999999999999999999999999", "1e99999999999999999999",
        "1e-99999999999999999999999999999999999999999999", "4.9e-324", "2.4703282292062327e-324",
        "2.4703282292062328e-324", "1.7976931348623157e308", "1.7976931348623158e308",
        "1.7976931348623159e308", "179769313486231580793728971405301e276",
        "9007199254740993", "9007199254740992.999999999999999999999999999999999999",
        "2.2250738585072011e-308", "18446744073709551616", "18446744073709551615",
        "0.00000000000000000001", "12345678901234567890e-19", "12345678901234567890e-20",
    ] {
        check_text(text);
    }
}

#[test]
fn printed_doubles_are_read_back() {
    let mut seed = 99u64;
    for _ in 0..400 {
        let x = f64::from_bits(next(&mut seed));
        check_text(&format!("{x}"));
        check_text(&format!("{x:e}"));
        let y = (next(&mut seed) % 100_000_000) as f64 / 1000.0;
        check_text(&format!("{y}"));
    }
}

#[test]
fn equality_is_that_of_values() {
    let numbers = [0.0, -0.0, 1.0, -1.0, f64::MIN_POSITIVE, f64::INFINITY, f64::NEG_INFINITY, f64::NAN, -f64::NAN];
    for a in numbers {
        for b in numbers {
            assert_eq!(Binary64::from_bits(a.to_bits()) == Binary64::from_bits(b.to_bits()), a == b, "{} {}", a, b);
        }
    }
}
