use vstd::prelude::*;
use chrono::Datelike;
use crate::instant::{floor_div_rem, Instant, NANOS_PER_SEC};

verus! {

/// Seconds in one civil day of UTC (leap seconds are carried into the next second).
pub const SECS_PER_DAY: i64 = 86_400;

/// Nanoseconds in one civil day.
pub const NANOS_PER_DAY: u64 = 86_400_000_000_000;

/// The earliest year of the calendar range that dates are resolved in.
pub const MIN_YEAR: i32 = -262_143;

/// The latest year of the calendar range that dates are resolved in.
pub const MAX_YEAR: i32 = 262_142;

/// Leap years of the proleptic Gregorian calendar.
pub open spec fn is_leap_year(y: int) -> bool {
    y % 4 == 0 && (y % 100 != 0 || y % 400 == 0)
}

pub open spec fn days_in_month(y: int, m: int) -> int {
    if m == 2 {
        if is_leap_year(y) { 29 } else { 28 }
    } else if m == 4 || m == 6 || m == 9 || m == 11 {
        30
    } else {
        31
    }
}

/// Days of year `y` that come before the first of month `m`.
pub open spec fn days_before_month(y: int, m: int) -> int {
    let common: int = if m <= 1 { 0 }
        else if m == 2 { 31 }
        else if m == 3 { 59 }
        else if m == 4 { 90 }
        else if m == 5 { 120 }
        else if m == 6 { 151 }
        else if m == 7 { 181 }
        else if m == 8 { 212 }
        else if m == 9 { 243 }
        else if m == 10 { 273 }
        else if m == 11 { 304 }
        else { 334 };
    if m > 2 && is_leap_year(y) { common + 1 } else { common }
}

/// Days from 0001-01-01 to the first of January of year `y` (negative before year 1).
pub open spec fn days_before_year(y: int) -> int {
    let p = y - 1;
    365 * p + p / 4 - p / 100 + p / 400
}

/// The day number of a date of the proleptic Gregorian calendar, 1970-01-01 being day 0.
pub open spec fn days_from_epoch(y: int, m: int, d: int) -> int {
    days_before_year(y) - days_before_year(1970) + days_before_month(y, m) + d - 1
}

pub open spec fn is_valid_date(y: int, m: int, d: int) -> bool {
    1 <= m <= 12 && 1 <= d <= days_in_month(y, m)
}

/// Day number of the first day of the calendar range.
pub open spec fn first_day() -> int {
    days_from_epoch(MIN_YEAR as int, 1, 1)
}

/// Day number of the last day of the calendar range.
pub open spec fn last_day() -> int {
    days_from_epoch(MAX_YEAR as int, 12, 31)
}

/// A date of the proleptic Gregorian calendar.
#[derive(Clone, Copy, Debug, PartialEq, Eq, Structural)]
pub struct CalendarDate {
    pub year: i32,
    /// Month of the year, from 1.
    pub month: u32,
    /// Day of the month, from 1.
    pub day: u32,
}

/// Relies on chrono's `NaiveDate::from_epoch_days`: the proleptic Gregorian date `days` days
/// after 1970-01-01, or `None` when its year lies outside `MIN_YEAR..=MAX_YEAR`.
#[verifier::external_body]
fn date_from_epoch_days(days: i32) -> (r: Option<CalendarDate>)
    ensures
        r is Some <==> first_day() <= days <= last_day(),
        r matches Some(c) ==> is_valid_date(c.year as int, c.month as int, c.day as int)
            && days_from_epoch(c.year as int, c.month as int, c.day as int) == days,
{
    match chrono::NaiveDate::from_epoch_days(days) {
        Some(d) => Some(CalendarDate { year: d.year(), month: d.month(), day: d.day() }),
        None => None,
    }
}

/// An instant of UTC written as a civil date and a time of day.
#[derive(Clone, Copy, Debug, PartialEq, Eq, Structural)]
pub struct CivilTime {
    pub date: CalendarDate,
    pub hour: u32,
    pub minute: u32,
    pub second: u32,
    pub nanosecond: u32,
}

impl CivilTime {
    pub open spec fn wf(self) -> bool {
        &&& is_valid_date(self.date.year as int, self.date.month as int, self.date.day as int)
        &&& self.hour < 24
        &&& self.minute < 60
        &&& self.second < 60
        &&& self.nanosecond < NANOS_PER_SEC
    }

    /// The day number of the date, 1970-01-01 being day 0.
    pub open spec fn day_number(self) -> int {
        days_from_epoch(self.date.year as int, self.date.month as int, self.date.day as int)
    }

    /// Nanoseconds since midnight.
    pub open spec fn time_of_day(self) -> int {
        ((self.hour * 60 + self.minute) * 60 + self.second) * (NANOS_PER_SEC as int) + self.nanosecond
    }

    /// Nanoseconds since the epoch.
    pub open spec fn position(self) -> int {
        self.day_number() * (NANOS_PER_DAY as int) + self.time_of_day()
    }

    /// Nanoseconds since midnight: with `NANOS_PER_DAY` it gives the fraction of the day
    /// that has passed.
    pub fn nanos_of_day(&self) -> (r: u64)
        requires
            self.wf(),
        ensures
            r == self.time_of_day(),
            r < NANOS_PER_DAY,
    {
        let secs: u64 = ((self.hour as u64) * 60 + self.minute as u64) * 60 + self.second as u64;
        secs * 1_000_000_000 + self.nanosecond as u64
    }
}

/// The civil date and time of day of an instant, or `None` when its date lies outside the
/// calendar range (years `MIN_YEAR..=MAX_YEAR`).
#[verifier::rlimit(40)]
pub fn civil_time_at(at: &Instant) -> (r: Option<CivilTime>)
    requires
        at.wf(),
    ensures
        r is Some <==> first_day() <= (at.secs as int) / (SECS_PER_DAY as int) <= last_day(),
        r matches Some(c) ==> c.wf() && c.position() == at@,
{
    let (days, sod) = floor_div_rem(at.secs, SECS_PER_DAY);
    assert(first_day() == -96_465_292);
    assert(last_day() == 95_026_236);
    if days < i32::MIN as i64 || days > i32::MAX as i64 {
        return None;
    }
    match date_from_epoch_days(days as i32) {
        None => None,
        Some(date) => {
            let hour: u32 = (sod / 3600) as u32;
            let minute: u32 = ((sod % 3600) / 60) as u32;
            let second: u32 = (sod % 60) as u32;
            let c = CivilTime { date, hour, minute, second, nanosecond: at.nanos };
            assert(sod == (hour * 60 + minute) * 60 + second);
            assert(at@ == (days * 86_400 + sod) * 1_000_000_000 + at.nanos) by (nonlinear_arith)
                requires
                    at@ == at.secs * 1_000_000_000 + at.nanos,
                    at.secs == days * 86_400 + sod,
            ;
            Some(c)
        },
    }
}

/// The civil date and time of day of an instant advance exactly with the time line: of two
/// instants the later one has the later date, or the same date and a later time of day, and
/// their civil positions differ by the time between them. So the day count from which
/// sidereal time is computed grows with the instant, one day per `SECS_PER_DAY` seconds.
pub proof fn lemma_civil_time_follows_instant(a: Instant, b: Instant, ca: CivilTime, cb: CivilTime)
    requires
        a.wf(),
        b.wf(),
        ca.wf(),
        cb.wf(),
        ca.position() == a@,
        cb.position() == b@,
    ensures
        cb.position() - ca.position() == b@ - a@,
        a@ < b@ <==> (ca.day_number() < cb.day_number() || (ca.day_number() == cb.day_number()
            && ca.time_of_day() < cb.time_of_day())),
{
    lemma_time_of_day_bounded(ca);
    lemma_time_of_day_bounded(cb);
    let nd = NANOS_PER_DAY as int;
    let (da, db, ta, tb) = (ca.day_number(), cb.day_number(), ca.time_of_day(), cb.time_of_day());
    assert((da * nd + ta < db * nd + tb) <==> (da < db || (da == db && ta < tb))) by (nonlinear_arith)
        requires
            nd > 0,
            0 <= ta < nd,
            0 <= tb < nd,
    {
        if da < db {
            assert(da * nd + nd <= db * nd);
        } else if da > db {
            assert(db * nd + nd <= da * nd);
        }
    };
}

/// Days in year `y`.
#[verifier::rlimit(40)]
proof fn lemma_year_length(y: int)
    ensures
        days_before_year(y + 1) - days_before_year(y) == if is_leap_year(y) { 366int } else { 365int },
{
    lemma_floor_step(y, 4);
    lemma_floor_step(y, 100);
    lemma_floor_step(y, 400);
}

/// `y / k` exceeds `(y - 1) / k` by one exactly when `k` divides `y`.
proof fn lemma_floor_step(y: int, k: int)
    requires
        k > 0,
    ensures
        y / k - (y - 1) / k == if y % k == 0 { 1int } else { 0int },
        y % k == 0 <==> (y - 1) % k == k - 1,
{
    vstd::arithmetic::div_mod::lemma_fundamental_div_mod(y, k);
    vstd::arithmetic::div_mod::lemma_fundamental_div_mod(y - 1, k);
    let (q1, r1, q0, r0) = (y / k, y % k, (y - 1) / k, (y - 1) % k);
    assert(q1 - q0 == if r1 == 0 { 1int } else { 0int } && (r1 == 0 <==> r0 == k - 1)) by (nonlinear_arith)
        requires
            k > 0,
            y == k * q1 + r1,
            0 <= r1 < k,
            y - 1 == k * q0 + r0,
            0 <= r0 < k,
    {
        if q1 - q0 >= 2 {
            assert(k * (q1 - q0) >= 2 * k);
        } else if q1 - q0 <= -1 {
            assert(k * (q1 - q0) <= -k);
        } else if q1 - q0 == 1 {
            assert(k * (q1 - q0) == k);
        } else {
            assert(k * (q1 - q0) == 0);
        }
    };
}

/// Of two years, the later one starts no earlier.
#[verifier::rlimit(40)]
proof fn lemma_years_ordered(a: int, b: int)
    requires
        a <= b,
    ensures
        days_before_year(a) <= days_before_year(b),
{
    let (p, q) = (a - 1, b - 1);
    assert(365 * p + p / 4 - p / 100 + p / 400 <= 365 * q + q / 4 - q / 100 + q / 400) by (nonlinear_arith)
        requires
            p <= q,
            4 * (p / 4) <= p < 4 * (p / 4) + 4,
            4 * (q / 4) <= q < 4 * (q / 4) + 4,
            100 * (p / 100) <= p < 100 * (p / 100) + 100,
            100 * (q / 100) <= q < 100 * (q / 100) + 100,
            400 * (p / 400) <= p < 400 * (p / 400) + 400,
            400 * (q / 400) <= q < 400 * (q / 400) + 400,
    ;
}

/// A valid date lies within its year, and later dates of one year have larger day numbers.
#[verifier::rlimit(40)]
proof fn lemma_day_of_year(y: int, m1: int, d1: int, m2: int, d2: int)
    requires
        is_valid_date(y, m1, d1),
        is_valid_date(y, m2, d2),
    ensures
        0 <= days_before_month(y, m1) + d1 - 1 < days_before_year(y + 1) - days_before_year(y),
        (m1 < m2 || (m1 == m2 && d1 < d2)) ==> days_before_month(y, m1) + d1 < days_before_month(y, m2) + d2,
{
    lemma_year_length(y);
}

/// Distinct valid dates have distinct day numbers.
#[verifier::rlimit(40)]
pub proof fn lemma_day_number_injective(y1: int, m1: int, d1: int, y2: int, m2: int, d2: int)
    requires
        is_valid_date(y1, m1, d1),
        is_valid_date(y2, m2, d2),
        days_from_epoch(y1, m1, d1) == days_from_epoch(y2, m2, d2),
    ensures
        y1 == y2 && m1 == m2 && d1 == d2,
{
    lemma_day_of_year(y1, m1, d1, m1, d1);
    lemma_day_of_year(y2, m2, d2, m2, d2);
    if y1 < y2 {
        lemma_years_ordered(y1 + 1, y2);
    } else if y2 < y1 {
        lemma_years_ordered(y2 + 1, y1);
    } else {
        lemma_day_of_year(y1, m1, d1, m2, d2);
        lemma_day_of_year(y1, m2, d2, m1, d1);
    }
}

/// `q * n + r` with `0 <= r < n` determines `q` and `r`.
proof fn lemma_mixed_radix_unique(q1: int, r1: int, q2: int, r2: int, n: int)
    requires
        n > 0,
        0 <= r1 < n,
        0 <= r2 < n,
        q1 * n + r1 == q2 * n + r2,
    ensures
        q1 == q2 && r1 == r2,
{
    if q1 < q2 {
        assert(q1 * n + n <= q2 * n) by (nonlinear_arith)
            requires
                q1 < q2,
                n > 0,
        ;
    } else if q2 < q1 {
        assert(q2 * n + n <= q1 * n) by (nonlinear_arith)
            requires
                q2 < q1,
                n > 0,
        ;
    }
}

/// A well-formed civil time is determined by the point of the time line that it names, so
/// the civil time of an instant is unique.
#[verifier::rlimit(40)]
pub proof fn lemma_civil_time_unique(a: CivilTime, b: CivilTime)
    requires
        a.wf(),
        b.wf(),
        a.position() == b.position(),
    ensures
        a == b,
{
    lemma_time_of_day_bounded(a);
    lemma_time_of_day_bounded(b);
    lemma_mixed_radix_unique(a.day_number(), a.time_of_day(), b.day_number(), b.time_of_day(), NANOS_PER_DAY as int);
    lemma_day_number_injective(
        a.date.year as int, a.date.month as int, a.date.day as int,
        b.date.year as int, b.date.month as int, b.date.day as int,
    );
    let (sa, sb) = ((a.hour * 60 + a.minute) * 60 + a.second, (b.hour * 60 + b.minute) * 60 + b.second);
    lemma_mixed_radix_unique(sa, a.nanosecond as int, sb, b.nanosecond as int, NANOS_PER_SEC as int);
    lemma_mixed_radix_unique(a.hour * 60 + a.minute, a.second as int, b.hour * 60 + b.minute, b.second as int, 60);
    lemma_mixed_radix_unique(a.hour as int, a.minute as int, b.hour as int, b.minute as int, 60);
}

proof fn lemma_time_of_day_bounded(c: CivilTime)
    requires
        c.wf(),
    ensures
        0 <= c.time_of_day() < NANOS_PER_DAY,
{
    let s = (c.hour * 60 + c.minute) * 60 + c.second;
    assert(0 <= s < 86_400);
    assert(0 <= s * 1_000_000_000 + c.nanosecond < 86_400_000_000_000) by (nonlinear_arith)
        requires
            0 <= s < 86_400,
            0 <= c.nanosecond < 1_000_000_000,
    ;
}

} // verus!
