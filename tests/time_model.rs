use altaz::civil::{civil_time_at, CalendarDate, CivilTime, NANOS_PER_DAY};
use altaz::instant::{Instant, Span};
use altaz::sampling::{sample_window, SampleWindow};
use chrono::{TimeZone, Utc};

fn at(secs: i64, nanos: u32) -> Instant {
    Instant::new(secs, nanos).unwrap()
}

fn known_instant() -> Instant {
    let dt = Utc.with_ymd_and_hms(2025, 8, 7, 15, 18, 18).unwrap();
    at(dt.timestamp(), dt.timestamp_subsec_nanos())
}

#[test]
fn instant_new_keeps_plain_values() {
    assert_eq!(Instant::new(5, 7), Some(Instant { secs: 5, nanos: 7 }));
    assert_eq!(Instant::new(-3, 999_999_999), Some(Instant { secs: -3, nanos: 999_999_999 }));
}

#[test]
fn instant_new_carries_leap_second() {
    assert_eq!(Instant::new(59, 1_500_000_000), Some(Instant { secs: 60, nanos: 500_000_000 }));
    assert_eq!(Instant::new(i64::MAX, 1_000_000_000), None);
    assert_eq!(Instant::new(0, 2_000_000_000), None);
}

#[test]
fn span_constructors() {
    assert_eq!(Span::new(1, 1_000_000_000), None);
    assert_eq!(Span::from_millis(1000), Span { secs: 1, nanos: 0 });
    assert_eq!(Span::from_millis(-1), Span { secs: -1, nanos: 999_000_000 });
    assert_eq!(Span::from_nanos(-1_500_000_000), Span { secs: -2, nanos: 500_000_000 });
    assert_eq!(Span::from_nanos(i64::MIN), Span { secs: -9_223_372_037, nanos: 145_224_192 });
    assert!(Span::from_millis(0).is_zero());
    assert!(!Span::from_nanos(1).is_zero());
}

#[test]
fn span_half_rounds_down() {
    assert_eq!(Span::from_millis(1000).half(), Span { secs: 0, nanos: 500_000_000 });
    assert_eq!(Span::new(3, 1).unwrap().half(), Span { secs: 1, nanos: 500_000_000 });
    assert_eq!(Span::from_nanos(-3).half(), Span::from_nanos(-2));
    assert_eq!(Span::from_nanos(-3_000_000_001).half(), Span::from_nanos(-1_500_000_001));
}

#[test]
fn instant_shift_by_span() {
    let t = at(10, 900_000_000);
    let d = Span::from_millis(250);
    assert_eq!(t.checked_add(&d), Some(at(11, 150_000_000)));
    assert_eq!(t.checked_sub(&d), Some(at(10, 650_000_000)));
    assert_eq!(t.checked_sub(&Span::from_millis(11_000)), Some(at(-1, 900_000_000)));
    assert_eq!(at(i64::MAX, 999_999_999).checked_add(&Span::from_nanos(1)), None);
    assert_eq!(at(i64::MIN, 0).checked_sub(&Span::from_nanos(1)), None);
}

#[test]
fn civil_time_of_known_instant() {
    let c = civil_time_at(&known_instant()).unwrap();
    assert_eq!(
        c,
        CivilTime {
            date: CalendarDate { year: 2025, month: 8, day: 7 },
            hour: 15,
            minute: 18,
            second: 18,
            nanosecond: 0,
        }
    );
    assert_eq!(c.nanos_of_day(), 55_098_000_000_000);
}

#[test]
fn civil_time_before_epoch() {
    let c = civil_time_at(&at(-1, 250)).unwrap();
    assert_eq!(c.date, CalendarDate { year: 1969, month: 12, day: 31 });
    assert_eq!((c.hour, c.minute, c.second, c.nanosecond), (23, 59, 59, 250));
    assert_eq!(c.nanos_of_day(), NANOS_PER_DAY - 1_000_000_000 + 250);
}

#[test]
fn civil_time_leap_day() {
    let dt = Utc.with_ymd_and_hms(2024, 2, 29, 0, 0, 1).unwrap();
    let c = civil_time_at(&at(dt.timestamp(), 0)).unwrap();
    assert_eq!(c.date, CalendarDate { year: 2024, month: 2, day: 29 });
    assert_eq!(c.nanos_of_day(), 1_000_000_000);
}

#[test]
fn civil_time_range_ends() {
    let last_day: i64 = 95_026_236;
    let first_day: i64 = -96_465_292;
    let c = civil_time_at(&at(last_day * 86_400 + 86_399, 0)).unwrap();
    assert_eq!(c.date, CalendarDate { year: 262_142, month: 12, day: 31 });
    assert_eq!(civil_time_at(&at((last_day + 1) * 86_400, 0)), None);
    let c = civil_time_at(&at(first_day * 86_400, 0)).unwrap();
    assert_eq!(c.date, CalendarDate { year: -262_143, month: 1, day: 1 });
    assert_eq!(civil_time_at(&at(first_day * 86_400 - 1, 0)), None);
    assert_eq!(civil_time_at(&at(i64::MAX, 0)), None);
}

#[test]
fn later_instant_has_later_civil_time() {
    let a = civil_time_at(&at(86_399, 999_999_999)).unwrap();
    let b = civil_time_at(&at(86_400, 0)).unwrap();
    assert!(a.date.day < b.date.day);
    assert!(a.nanos_of_day() > b.nanos_of_day());
    assert_eq!(b.nanos_of_day() + NANOS_PER_DAY - a.nanos_of_day(), 1);
}

#[test]
fn sample_window_of_one_second() {
    let t = known_instant();
    let w = sample_window(&t, &Span::from_millis(1000)).unwrap();
    assert_eq!(w.before, at(t.secs - 1, 500_000_000));
    assert_eq!(w.after, at(t.secs, 500_000_000));
}

#[test]
fn sample_window_of_odd_nanoseconds() {
    let t = at(0, 0);
    let w = sample_window(&t, &Span::from_nanos(3)).unwrap();
    assert_eq!(w.before, at(-1, 999_999_999));
    assert_eq!(w.after, at(0, 1));
}

#[test]
fn sample_window_of_empty_span() {
    let t = known_instant();
    let w = sample_window(&t, &Span::from_nanos(0)).unwrap();
    assert_eq!(w, SampleWindow { before: t, after: t });
    let edge = at(i64::MAX, 999_999_999);
    assert_eq!(sample_window(&edge, &Span::from_millis(0)), Some(SampleWindow { before: edge, after: edge }));
}

#[test]
fn sample_window_out_of_range() {
    assert_eq!(sample_window(&at(i64::MAX, 0), &Span::from_millis(4000)), None);
    assert_eq!(sample_window(&at(i64::MIN, 0), &Span::from_millis(4000)), None);
}
