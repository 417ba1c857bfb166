use ci_tracer::order::is_before;
use ci_tracer::strmap::StrMap;
use ci_tracer::text::{contains_text, decimal_text, is_white, lower_text, same_text, six_digits, trim_slashes, trim_text};
use ci_tracer::time::{millis_between, Timestamp, MAX_SECS, MIN_SECS};

#[test]
fn white_space_is_that_of_every_character() {
    for c in (0..=0x10ffffu32).filter_map(char::from_u32) {
        assert_eq!(is_white(c), c.is_whitespace(), "{c:?}");
    }
}

const SAMPLES: [&str; 8] = ["", " ", "a", " a\t", "\u{3000}x y\u{85}", "\u{200b}z\u{200b}", "//", "AbC\u{c9}/"];

#[test]
fn texts_are_trimmed_and_lowered() {
    for s in SAMPLES {
        assert_eq!(trim_text(s), s.trim());
        assert_eq!(lower_text(s), s.to_ascii_lowercase());
        assert_eq!(trim_slashes(s), s.trim_end_matches('/'));
    }
}

#[test]
fn texts_are_compared_and_searched() {
    for a in SAMPLES {
        for b in SAMPLES {
            assert_eq!(same_text(a, b), a == b);
            assert_eq!(contains_text(a, b), a.contains(b));
            assert_eq!(is_before(a, b), a < b);
        }
    }
    assert!(contains_text("aab", "ab"));
    assert!(!contains_text("aba", "abab"));
}

#[test]
fn numbers_are_written_in_decimal() {
    for n in [0, 9, 10, 99, 100, 65_535, 1_000_000, u64::MAX] {
        assert_eq!(decimal_text(n), n.to_string());
        assert_eq!(six_digits(n), format!("{n:06}"));
    }
}

#[test]
fn maps_keep_their_keys_in_order() {
    let mut m: StrMap<u8> = StrMap::new();
    assert!(m.is_empty());
    for (k, v) in [("b", 1), ("a", 2), ("\u{e9}", 3), ("B", 4), ("b", 5)] {
        m.insert(k.to_string(), v);
    }
    assert_eq!(m.len(), 4);
    let entries: Vec<(&str, u8)> = (0..m.len()).map(|i| (m.entry(i).0.as_str(), *m.entry(i).1)).collect();
    assert_eq!(entries, vec![("B", 4), ("a", 2), ("b", 5), ("\u{e9}", 3)]);
    assert_eq!((m.get("b"), m.get("c")), (Some(&5), None));
    assert!(m == m.clone());
}

#[test]
fn instants_are_written_with_milliseconds() {
    let t = |s, n| Timestamp::new(s, n).unwrap();
    assert_eq!(t(0, 0).to_millis_text(), "1970-01-01T00:00:00.000Z");
    assert_eq!(t(1_775_055_600, 123_999_999).to_millis_text(), "2026-04-01T15:00:00.123Z");
    assert_eq!(t(-1, 0).to_millis_text(), "1969-12-31T23:59:59.000Z");
    assert_eq!(t(1_775_055_600, 0).to_text(), "2026-04-01T15:00:00+00:00");
    assert_eq!(t(1_775_055_600, 1).to_text(), "2026-04-01T15:00:00.000000001+00:00");
}

#[test]
fn the_calendar_has_two_ends() {
    assert!(Timestamp::new(MIN_SECS, 0).is_some());
    assert!(Timestamp::new(MAX_SECS, 999_999_999).is_some());
    assert!(Timestamp::new(MIN_SECS - 1, 0).is_none());
    assert!(Timestamp::new(MAX_SECS + 1, 0).is_none());
    assert!(Timestamp::new(0, 1_000_000_000).is_none());
    assert_eq!(Timestamp::new(MIN_SECS, 0).unwrap().to_millis_text(), "-262143-01-01T00:00:00.000Z");
    assert_eq!(Timestamp::new(MAX_SECS, 999_999_999).unwrap().to_millis_text(), "+262142-12-31T23:59:59.999Z");
}

#[test]
fn durations_are_whole_milliseconds_and_never_negative() {
    let t = |s, n| Timestamp::new(s, n).unwrap();
    assert_eq!(millis_between(&t(10, 0), &t(10, 999_999)), 0);
    assert_eq!(millis_between(&t(10, 0), &t(10, 1_000_000)), 1);
    assert_eq!(millis_between(&t(10, 999_000_000), &t(12, 0)), 1001);
    assert_eq!(millis_between(&t(12, 0), &t(10, 0)), 0);
    assert_eq!(millis_between(&t(MIN_SECS, 0), &t(MAX_SECS, 999_999_999)), ((MAX_SECS - MIN_SECS) as u64) * 1000 + 999);
}

#[test]
fn the_clock_gives_instants_of_this_age() {
    let now = Timestamp::now();
    assert!(millis_between(&Timestamp::new(1_700_000_000, 0).unwrap(), &now) > 0);
}
