//! Texts, numbers, paths and points in time.

use blackbox::decimal::{decimal_text, parse_u64, parse_uint, signed_decimal_text, IntError};
use blackbox::path_order::{is_path_before, sort_paths};
use blackbox::paths::{is_same_path, join_path, starts_with_path};
use blackbox::path_set::PathSet;
use blackbox::text::{cut, join, lines, pad, split, trim, white_space};
use blackbox::time::{Span, Timestamp};
use std::path::Path;

fn chrono_time(t: Timestamp) -> chrono::DateTime<chrono::Utc> {
    chrono::DateTime::from_timestamp(t.secs, t.nanos).unwrap()
}

const PATHS: [&str; 16] = [
    "", "/", ".", "a", "./a", "a/", "a//b", "a/./b", "a/b", "/a", "//a", "/a/b", "/a/../b", "/ab",
    "..", "/a/b/.",
];

#[test]
fn paths_are_compared_by_components() {
    for a in PATHS {
        for b in PATHS {
            let (pa, pb) = (Path::new(a), Path::new(b));
            assert_eq!(is_same_path(a, b), pa == pb, "{a:?} {b:?}");
            assert_eq!(starts_with_path(a, b), pa.starts_with(pb), "{a:?} {b:?}");
            assert_eq!(is_path_before(a, b), pa < pb, "{a:?} {b:?}");
            assert_eq!(join_path(a, b), pa.join(pb).to_str().unwrap(), "{a:?} {b:?}");
        }
    }
}

#[test]
fn paths_are_sorted() {
    let mut expected: Vec<&Path> = PATHS.iter().map(|p| Path::new(*p)).collect();
    expected.sort();
    let sorted = sort_paths(&PATHS.iter().map(|p| p.to_string()).collect());
    for (a, b) in sorted.iter().zip(expected.iter()) {
        assert!(is_same_path(a, b.to_str().unwrap()));
    }
}

#[test]
fn texts_are_trimmed_split_and_joined() {
    for s in ["", " ", "\u{3000}a b\u{85}\n", "a", "\t\r\na\u{a0}"] {
        assert_eq!(trim(s), s.trim());
    }
    for s in ["", "a", "a\n", "a\r\n\r\nb", "\n\n", "a\rb\n", "a\n\r"] {
        let expected: Vec<String> = s.lines().map(String::from).collect();
        assert_eq!(lines(s), expected, "{s:?}");
        let expected: Vec<String> = s.split('\n').map(String::from).collect();
        assert_eq!(split(s, '\n'), expected, "{s:?}");
    }
    let parts: Vec<String> = vec!["a".into(), "b c".into(), "d".into()];
    assert_eq!(join(&parts, ", "), "a, b c, d");
    assert_eq!(lines(&join(&parts, "\n")), parts);
    assert_eq!(join(&vec![], ", "), "");
}

#[test]
fn white_space_is_that_of_unicode() {
    for code in 0..=0x10ffff {
        if let Some(c) = char::from_u32(code) {
            assert_eq!(white_space(c), c.is_whitespace(), "{code:x}");
        }
    }
}

#[test]
fn sorted_members_do_not_depend_on_how_the_set_came_about() {
    let mut a = PathSet::new();
    let mut b = PathSet::new();
    for p in ["/z", "/a/b", "/a", "/m"] {
        a.insert(p);
    }
    for p in ["/m", "/gone", "/a", "/z", "/a/b"] {
        b.insert(p);
    }
    b.remove("/gone");
    assert_eq!(a.sorted(), b.sorted());
    assert_eq!(a.sorted(), vec!["/a", "/a/b", "/m", "/z"]);
    b.clear();
    assert_eq!(b.len(), 0);
}

#[test]
fn texts_are_padded_and_cut() {
    for s in ["", "abc", "\u{e9}\u{e9}", "exactly14chars", "longer than 14 chars"] {
        assert_eq!(pad(s, 14), format!("{s:<14}"));
    }
    assert_eq!(cut("abcdef", 3), "abc\u{2026}");
    assert_eq!(cut("abc", 3), "abc");
}

#[test]
fn numbers_are_written_and_read() {
    for n in [0, 9, 10, 123, u64::MAX] {
        assert_eq!(decimal_text(n), n.to_string());
        assert_eq!(parse_u64(&decimal_text(n)), Some(n));
    }
    for n in [i64::MIN, -1, 0, 7, i64::MAX] {
        assert_eq!(signed_decimal_text(n), n.to_string());
    }
    for s in ["", "+", "-", "+5", "-5", "5 ", "18446744073709551616", "00", "a1", "1a"] {
        assert_eq!(parse_u64(s), s.parse::<u64>().ok(), "{s:?}");
    }
    assert_eq!(parse_uint("256", 255), Err(IntError::PosOverflow));
    assert_eq!(parse_uint("", 255), Err(IntError::Empty));
    assert_eq!(parse_uint("x", 255), Err(IntError::InvalidDigit));
}

#[test]
fn differences_agree_with_the_calendar() {
    let times = [
        Timestamp { secs: 0, nanos: 0 },
        Timestamp { secs: -1, nanos: 999_999_999 },
        Timestamp { secs: 1_700_000_000, nanos: 1 },
        // Leap seconds at the end of a minute.
        Timestamp { secs: 1_483_228_799, nanos: 1_500_000_000 },
        Timestamp { secs: 59, nanos: 1_000_000_000 },
        Timestamp { secs: 1_483_228_800, nanos: 0 },
        Timestamp { secs: -62_000_000_000, nanos: 5 },
    ];
    for a in times {
        for b in times {
            let d = chrono_time(a) - chrono_time(b);
            assert_eq!(a.secs_from(&b), d.num_seconds(), "{a:?} {b:?}");
            if let Some(n) = d.num_nanoseconds() {
                assert_eq!(a.nanos_from(&b), n as i128, "{a:?} {b:?}");
            }
            assert_eq!(a.is_before(&b), chrono_time(a) < chrono_time(b));
        }
        let earlier = a.earlier_by(28800);
        assert_eq!(chrono_time(earlier), chrono_time(a) - chrono::Duration::hours(8), "{a:?}");
    }
}

#[test]
fn spans_agree_with_the_calendar() {
    for (secs, nanos) in [(0, 0), (59, 999_999_999), (60, 0), (-60, 1), (-61, 0), (-1, 5)] {
        let span = Span { secs, nanos };
        let d = chrono::TimeDelta::new(secs, nanos).unwrap();
        assert_eq!(span.num_minutes(), d.num_minutes(), "{secs} {nanos}");
        assert_eq!(span.nanos_number(), d.num_nanoseconds().unwrap() as i128);
    }
}

#[test]
fn only_times_of_the_calendar_are_valid() {
    let min = chrono::DateTime::<chrono::Utc>::MIN_UTC.timestamp();
    let max = chrono::DateTime::<chrono::Utc>::MAX_UTC.timestamp();
    for secs in [i64::MIN, min - 1, min, -1, 0, 59, 60, 119, max, max + 1, i64::MAX] {
        for nanos in [0, 999_999_999, 1_000_000_000, 1_999_999_999, 2_000_000_000] {
            let known = chrono::DateTime::from_timestamp(secs, nanos).is_some();
            assert_eq!(Timestamp { secs, nanos }.is_valid(), known, "{secs} {nanos}");
        }
    }
    assert!(Span { secs: -60, nanos: 999_999_999 }.is_valid());
    assert!(!Span { secs: 0, nanos: 1_000_000_000 }.is_valid());
    assert!(!Span { secs: i64::MAX, nanos: 0 }.is_valid());
}

#[test]
fn times_are_written_as_by_the_calendar() {
    let t = Timestamp { secs: 1_700_000_000, nanos: 5 };
    assert_eq!(t.to_rfc3339(), chrono_time(t).to_rfc3339());
    assert_eq!(t.to_rfc3339(), "2023-11-14T22:13:20.000000005+00:00");
    let leap = Timestamp { secs: 1_483_228_799, nanos: 1_500_000_000 };
    assert_eq!(leap.to_rfc3339(), "2016-12-31T23:59:60.500+00:00");
}
