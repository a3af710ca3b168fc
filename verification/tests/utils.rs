use chrono::{DateTime, Utc};
use polymarket_bot::number::binary64::Binary64;
use polymarket_bot::utils::clock::{signed, utc_now, Timestamp, FIRST_SECOND, LAST_SECOND};
use polymarket_bot::utils::name_map::NameMap;
use polymarket_bot::utils::text::{contains_text, decimal_text, read_whole_number, same_text};

#[test]
fn the_calendar_is_that_of_chrono() {
    assert_eq!(DateTime::<Utc>::MIN_UTC.timestamp(), FIRST_SECOND);
    assert_eq!(DateTime::<Utc>::MAX_UTC.timestamp(), LAST_SECOND);
    assert!(Timestamp::from_secs(LAST_SECOND).is_some());
    assert!(Timestamp::from_secs(LAST_SECOND + 1).is_none());
    assert!(Timestamp::from_secs(FIRST_SECOND).is_some());
    assert!(Timestamp::from_secs(FIRST_SECOND - 1).is_none());
    assert!(Timestamp::from_millis(LAST_SECOND * 1000 + 999).is_some());
    assert!(Timestamp::from_millis(LAST_SECOND * 1000 + 1000).is_none());
    assert!(Timestamp::from_millis(FIRST_SECOND * 1000).is_some());
    assert!(Timestamp::from_millis(FIRST_SECOND * 1000 - 1).is_none());
}

#[test]
fn differences_are_those_of_chrono() {
    let points = [(0, 0), (0, 999_999_999), (1, 0), (-1, 1), (-1, 500_000_000), (7, 250_000_000)];
    for (s1, n1) in points {
        for (s2, n2) in points {
            let (a, b) = (Timestamp::from_parts(s1, n1).unwrap(), Timestamp::from_parts(s2, n2).unwrap());
            let (x, y) = (
                DateTime::<Utc>::from_timestamp(s1, n1).unwrap(),
                DateTime::<Utc>::from_timestamp(s2, n2).unwrap(),
            );
            assert_eq!(a.secs_since(b), (x - y).num_seconds());
            assert_eq!(a.millis_since(b), (x - y).num_milliseconds());
            assert_eq!(a.is_before(b), x < y);
            assert_eq!(a.elapsed_secs(b), (x - y).num_seconds().max(0) as u64);
        }
    }
    let t = Timestamp::from_parts(10, 5).unwrap();
    assert_eq!(t.plus_secs(-3).timestamp(), 7);
    assert_eq!(t.minus_secs(-3).timestamp(), 13);
    assert_eq!(t.subsec_nanos(), 5);
    assert!(Timestamp::from_parts(0, 1_000_000_000).is_none());
}

#[test]
fn the_clock_runs() {
    let before = Utc::now().timestamp();
    let now = utc_now().timestamp();
    assert!(before <= now && now <= Utc::now().timestamp());
}

#[test]
fn days_change_at_midnight() {
    let at = |secs: i64| Timestamp::from_parts(secs, 0).unwrap();
    assert!(!at(86_399).is_on_later_day(at(0)));
    assert!(at(86_400).is_on_later_day(at(86_399)));
    assert!(!at(0).is_on_later_day(at(86_400)));
    assert!(at(0).is_on_later_day(at(-1)));
    assert!(!at(-1).is_on_later_day(at(-86_400)));
    assert!(at(LAST_SECOND).is_on_later_day(at(FIRST_SECOND)));
    assert_eq!(Timestamp::from_parts(2, 5).unwrap().nanos_since(at(1)), 1_000_000_005);
}

#[test]
fn counts_are_read_as_signed() {
    for n in [0, 1, i64::MAX as u64, i64::MAX as u64 + 1, u64::MAX] {
        assert_eq!(signed(n), n as i64);
    }
}

#[test]
fn names_have_one_value_each() {
    let mut map = NameMap::new();
    assert!(map.get("a").is_none());
    map.insert("a".to_string(), 1);
    map.insert("b".to_string(), 2);
    map.insert("a".to_string(), 3);
    assert_eq!(map.get("a"), Some(&3));
    assert_eq!(map.len(), 2);
    assert_eq!(map.name(0), "a");
    assert_eq!(*map.value(1), 2);
    *map.get_mut("b").unwrap() = 5;
    *map.value_mut(0) += 1;
    assert_eq!((map.get("a"), map.get("b")), (Some(&4), Some(&5)));
    assert!(map.get_mut("c").is_none());
    assert!(map.contains_key("b"));
    map.clear();
    assert_eq!(map.len(), 0);
}

#[test]
fn names_can_be_removed() {
    let mut map = NameMap::new();
    for (name, value) in [("a", 1), ("b", 2), ("c", 3)] {
        map.insert(name.to_string(), value);
    }
    map.remove("b");
    map.remove("x");
    assert_eq!((map.len(), map.get("a"), map.get("b"), map.get("c")), (2, Some(&1), None, Some(&3)));
    assert_eq!((map.name(0).as_str(), map.name(1).as_str()), ("a", "c"));
}

#[test]
fn texts_are_searched_and_read() {
    assert!(contains_text("abcabd", "abd"));
    assert!(contains_text("", ""));
    assert!(!contains_text("ab", "abc"));
    assert!(same_text("\u{e9}", "\u{e9}"));
    assert!(!same_text("a", "A"));
    assert_eq!(decimal_text(u64::MAX), u64::MAX.to_string());
    for s in ["0", "007", "+5", "18446744073709551615", "18446744073709551616", "", "+", "-1", " 1", "1_0"] {
        assert_eq!(read_whole_number(s), s.parse::<u64>().ok(), "{}", s);
    }
}

#[test]
fn doubles_are_written_as_std_writes_them() {
    let mut values = vec![
        0.0, -0.0, 1.0, -1.5, 0.03125, 0.09375, 0.15625, 0.00005, 0.00004999, 0.99995, 0.99994999, 1e-320, 5e-324,
        123456.789, 9007199254740992.0, 9007199254740993.0, 4503599627370496.5, 1e22, 1e23, 1.7976931348623157e308,
        -2.5e17, f64::INFINITY, f64::NEG_INFINITY, f64::NAN, -f64::NAN, 1.0 / 3.0, 2.0 / 3.0,
    ];
    let mut seed: u64 = 0x9E37_79B9_7F4A_7C15;
    for _ in 0..2000 {
        seed ^= seed << 13;
        seed ^= seed >> 7;
        seed ^= seed << 17;
        values.push(f64::from_bits(seed));
        values.push((seed >> 11) as f64 / 1e13);
        values.push((seed >> 40) as f64 / 32.0);
    }
    for x in values {
        assert_eq!(Binary64::from_bits(x.to_bits()).to_fixed(), format!("{:.4}", x), "{:e}", x);
    }
}
