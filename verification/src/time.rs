//! Calendar dates, times of day, signed durations and date-times, with the
//! arithmetic the calendar performs on them.
//!
//! Date-times are wall-clock (local) times; the calendar compares and
//! shifts them as such.

use crate::config::Config;
use crate::error::SaturnError;
use chrono::{Datelike, Timelike};
use vstd::prelude::*;

verus! {

/// Nanoseconds in one second.
pub const NANOS_PER_SEC: u64 = 1_000_000_000u64;

/// Nanoseconds in one (non-leap) day.
pub const NANOS_PER_DAY: u64 = 86_400_000_000_000u64;

/// The largest magnitude of a duration in nanoseconds: `i64::MAX` milliseconds.
pub const MAX_DURATION_NANOS: i128 = 9_223_372_036_854_775_807_000_000i128;

/// The earliest representable year.
pub const MIN_YEAR: i32 = -262143i32;

/// The latest representable year.
pub const MAX_YEAR: i32 = 262142i32;

// ------------------------------------------------------------------------
// Dates
// ------------------------------------------------------------------------

/// Whether `y` is a leap year in the proleptic Gregorian calendar.
pub open spec fn is_leap_year(y: int) -> bool {
    (y % 4 == 0 && y % 100 != 0) || y % 400 == 0
}

/// The number of days of month `m` in year `y`.
pub open spec fn days_in_month(y: int, m: int) -> int {
    if m == 2 {
        if is_leap_year(y) { 29 } else { 28 }
    } else if m == 4 || m == 6 || m == 9 || m == 11 {
        30
    } else {
        31
    }
}

/// Whether `year-month-day` names a day of the representable calendar.
pub open spec fn valid_ymd(y: int, m: int, d: int) -> bool {
    &&& MIN_YEAR <= y <= MAX_YEAR
    &&& 1 <= m <= 12
    &&& 1 <= d <= days_in_month(y, m)
}

/// A calendar date.
#[derive(Clone, Copy, Debug, PartialEq, Eq, Hash)]
pub struct Date {
    pub year: i32,
    pub month: u32,
    pub day: u32,
}

impl Date {
    /// Whether this date names a day of the representable calendar.
    pub open spec fn valid(self) -> bool {
        valid_ymd(self.year as int, self.month as int, self.day as int)
    }

    /// Whether this date is strictly before `other` in calendar order.
    pub open spec fn before(self, other: Date) -> bool {
        ||| self.year < other.year
        ||| (self.year == other.year && self.month < other.month)
        ||| (self.year == other.year && self.month == other.month && self.day < other.day)
    }

    /// Whether this date is the first representable day.
    pub open spec fn is_min(self) -> bool {
        self.year == MIN_YEAR && self.month == 1 && self.day == 1
    }

    /// Whether this date is the last representable day.
    pub open spec fn is_max(self) -> bool {
        self.year == MAX_YEAR && self.month == 12 && self.day == 31
    }

    /// The following day.
    pub open spec fn next_day(self) -> Date {
        if (self.day as int) < days_in_month(self.year as int, self.month as int) {
            Date { day: (self.day + 1) as u32, ..self }
        } else if self.month < 12 {
            Date { month: (self.month + 1) as u32, day: 1, ..self }
        } else {
            Date { year: (self.year + 1) as i32, month: 1, day: 1 }
        }
    }

    /// The preceding day.
    pub open spec fn prev_day(self) -> Date {
        if self.day > 1 {
            Date { day: (self.day - 1) as u32, ..self }
        } else if self.month > 1 {
            Date {
                month: (self.month - 1) as u32,
                day: days_in_month(self.year as int, self.month - 1) as u32,
                ..self
            }
        } else {
            Date { year: (self.year - 1) as i32, month: 12, day: 31 }
        }
    }

    /// The date `n` days after this one (before it, for negative `n`).
    pub open spec fn plus_days(self, n: int) -> Date
        decreases (if n >= 0 { n } else { -n }),
    {
        if n == 0 {
            self
        } else if n > 0 {
            self.next_day().plus_days(n - 1)
        } else {
            self.prev_day().plus_days(n + 1)
        }
    }

    /// The date `year-month-day`, when it names a representable day.
    pub fn from_ymd_opt(year: i32, month: u32, day: u32) -> (res: Option<Date>)
        ensures
            res is Some <==> valid_ymd(year as int, month as int, day as int),
            res matches Some(d) ==> d == (Date { year, month, day }),
    {
        if MIN_YEAR <= year && year <= MAX_YEAR && 1 <= month && month <= 12 && 1 <= day
            && day <= month_length(year, month) {
            Some(Date { year, month, day })
        } else {
            None
        }
    }

    /// Whether this date names a representable calendar day.
    pub fn is_valid(&self) -> (res: bool)
        ensures
            res == self.valid(),
    {
        Date::from_ymd_opt(self.year, self.month, self.day).is_some()
    }

    /// Whether this date is strictly before `other`.
    pub fn is_before(&self, other: &Date) -> (res: bool)
        ensures
            res == self.before(*other),
    {
        self.year < other.year || (self.year == other.year && self.month < other.month) || (
        self.year == other.year && self.month == other.month && self.day < other.day)
    }

    /// Whether this date is the same day as `other`.
    pub fn same_day(&self, other: &Date) -> (res: bool)
        ensures
            res == (*self == *other),
    {
        self.year == other.year && self.month == other.month && self.day == other.day
    }

    /// The following day.
    pub fn succ(&self) -> (res: Date)
        requires
            self.valid(),
            !self.is_max(),
        ensures
            res == self.next_day(),
            res.valid(),
    {
        let len = month_length(self.year, self.month);
        if self.day < len {
            Date { day: self.day + 1, ..*self }
        } else if self.month < 12 {
            Date { month: self.month + 1, day: 1, ..*self }
        } else {
            Date { year: self.year + 1, month: 1, day: 1 }
        }
    }

    /// The preceding day.
    pub fn pred(&self) -> (res: Date)
        requires
            self.valid(),
            !self.is_min(),
        ensures
            res == self.prev_day(),
            res.valid(),
    {
        if self.day > 1 {
            Date { day: self.day - 1, ..*self }
        } else if self.month > 1 {
            Date { month: self.month - 1, day: month_length(self.year, self.month - 1), ..*self }
        } else {
            Date { year: self.year - 1, month: 12, day: 31 }
        }
    }
}

/// The number of days in month `month` of `year`.
#[verifier::spinoff_prover]
pub fn month_length(year: i32, month: u32) -> (res: u32)
    ensures
        res == days_in_month(year as int, month as int),
{
    if month == 2 {
        if (year % 4 == 0 && year % 100 != 0) || year % 400 == 0 {
            29
        } else {
            28
        }
    } else if month == 4 || month == 6 || month == 9 || month == 11 {
        30
    } else {
        31
    }
}

// ------------------------------------------------------------------------
// Durations
// ------------------------------------------------------------------------

/// Whether `n` nanoseconds is a representable duration.
pub open spec fn duration_in_range(n: int) -> bool {
    -MAX_DURATION_NANOS <= n <= MAX_DURATION_NANOS
}

/// Integer division of `a` by a positive `b`, rounding toward zero.
pub open spec fn trunc_div(a: int, b: int) -> int {
    if a >= 0 {
        a / b
    } else {
        -((-a) / b)
    }
}

/// A signed duration with nanosecond precision, of magnitude at most
/// `i64::MAX` milliseconds.
#[derive(Clone, Copy, Debug, PartialEq, Eq, Hash)]
pub struct Duration {
    nanos: i128,
}

impl View for Duration {
    type V = int;

    /// The length in nanoseconds.
    closed spec fn view(&self) -> int {
        self.nanos as int
    }
}

impl Duration {
    #[verifier::type_invariant]
    spec fn inv(self) -> bool {
        duration_in_range(self.nanos as int)
    }

    /// The duration of `n` nanoseconds, when representable.
    pub fn from_nanos(n: i128) -> (res: Option<Duration>)
        ensures
            res is Some <==> duration_in_range(n as int),
            res matches Some(d) ==> d@ == n,
    {
        if -MAX_DURATION_NANOS <= n && n <= MAX_DURATION_NANOS {
            Some(Duration { nanos: n })
        } else {
            None
        }
    }

    /// The empty duration.
    pub fn zero() -> (res: Duration)
        ensures
            res@ == 0,
    {
        Duration { nanos: 0 }
    }

    /// The length in nanoseconds.
    pub fn nanos(&self) -> (res: i128)
        ensures
            res == self@,
            duration_in_range(res as int),
    {
        proof {
            use_type_invariant(self);
        }
        self.nanos
    }

    /// `count` units of `unit_secs` seconds each, when representable.
    fn try_units(count: i64, unit_secs: i64) -> (res: Option<Duration>)
        requires
            0 < unit_secs <= 604_800,
        ensures
            res is Some <==> duration_in_range(count * unit_secs * NANOS_PER_SEC),
            res matches Some(d) ==> d@ == count * unit_secs * NANOS_PER_SEC,
    {
        let c = count as i128;
        let u = unit_secs as i128;
        assert(-9_223_372_036_854_775_808 * 604_800 <= c * u <= 9_223_372_036_854_775_807 * 604_800)
            by (nonlinear_arith)
            requires
                0 < u <= 604_800,
                i64::MIN <= c <= i64::MAX,
        ;
        let cu: i128 = c * u;
        let n: i128 = cu * (NANOS_PER_SEC as i128);
        Duration::from_nanos(n)
    }

    /// `secs` seconds, when representable.
    pub fn try_seconds(secs: i64) -> (res: Option<Duration>)
        ensures
            res is Some <==> duration_in_range(secs * NANOS_PER_SEC),
            res matches Some(d) ==> d@ == secs * NANOS_PER_SEC,
    {
        Duration::try_units(secs, 1)
    }

    /// `mins` minutes, when representable.
    pub fn try_minutes(mins: i64) -> (res: Option<Duration>)
        ensures
            res is Some <==> duration_in_range(mins * 60 * NANOS_PER_SEC),
            res matches Some(d) ==> d@ == mins * 60 * NANOS_PER_SEC,
    {
        Duration::try_units(mins, 60)
    }

    /// `hours` hours, when representable.
    pub fn try_hours(hours: i64) -> (res: Option<Duration>)
        ensures
            res is Some <==> duration_in_range(hours * 3600 * NANOS_PER_SEC),
            res matches Some(d) ==> d@ == hours * 3600 * NANOS_PER_SEC,
    {
        Duration::try_units(hours, 3600)
    }

    /// `days` days, when representable.
    pub fn try_days(days: i64) -> (res: Option<Duration>)
        ensures
            res is Some <==> duration_in_range(days * 86400 * NANOS_PER_SEC),
            res matches Some(d) ==> d@ == days * 86400 * NANOS_PER_SEC,
    {
        Duration::try_units(days, 86400)
    }

    /// `weeks` weeks, when representable.
    pub fn try_weeks(weeks: i64) -> (res: Option<Duration>)
        ensures
            res is Some <==> duration_in_range(weeks * 604800 * NANOS_PER_SEC),
            res matches Some(d) ==> d@ == weeks * 604800 * NANOS_PER_SEC,
    {
        Duration::try_units(weeks, 604800)
    }

    /// The sum of two durations, when representable.
    pub fn checked_add(&self, other: &Duration) -> (res: Option<Duration>)
        ensures
            res is Some <==> duration_in_range(self@ + other@),
            res matches Some(d) ==> d@ == self@ + other@,
    {
        proof {
            use_type_invariant(self);
            use_type_invariant(other);
        }
        Duration::from_nanos(self.nanos + other.nanos)
    }

    /// The difference of two durations, when representable.
    pub fn checked_sub(&self, other: &Duration) -> (res: Option<Duration>)
        ensures
            res is Some <==> duration_in_range(self@ - other@),
            res matches Some(d) ==> d@ == self@ - other@,
    {
        proof {
            use_type_invariant(self);
            use_type_invariant(other);
        }
        Duration::from_nanos(self.nanos - other.nanos)
    }

    /// This duration taken `k` times, when representable.
    pub fn checked_mul(&self, k: i32) -> (res: Option<Duration>)
        ensures
            res is Some <==> duration_in_range(self@ * k),
            res matches Some(d) ==> d@ == self@ * k,
    {
        proof {
            use_type_invariant(self);
        }
        let n = self.nanos;
        if k == 0 {
            assert(self@ * k == 0) by (nonlinear_arith)
                requires
                    k == 0,
            ;
            return Some(Duration { nanos: 0 });
        }
        let a: i128 = if n >= 0 { n } else { -n };
        let b: i128 = if k >= 0 { k as i128 } else { -(k as i128) };
        // |n * k| <= MAX exactly when |n| <= MAX / |k|
        let lim: i128 = MAX_DURATION_NANOS / b;
        if a <= lim {
            assert(a * b <= MAX_DURATION_NANOS) by (nonlinear_arith)
                requires
                    a <= lim,
                    lim == MAX_DURATION_NANOS / b,
                    b > 0,
                    a >= 0,
            ;
            assert((self@ * k) == if (n >= 0) == (k >= 0) { a * b } else { -(a * b) })
                by (nonlinear_arith)
                requires
                    self@ == n,
                    a == if n >= 0 { n as int } else { -n },
                    b == if k >= 0 { k as int } else { -k },
            ;
            let p: i128 = a * b;
            let r: i128 = if (n >= 0) == (k >= 0) { p } else { -p };
            Some(Duration { nanos: r })
        } else {
            assert(a * b > MAX_DURATION_NANOS) by (nonlinear_arith)
                requires
                    a > lim,
                    lim == MAX_DURATION_NANOS / b,
                    b > 0,
            ;
            assert(!duration_in_range(self@ * k)) by (nonlinear_arith)
                requires
                    self@ == n,
                    a == if n >= 0 { n as int } else { -n },
                    b == if k >= 0 { k as int } else { -k },
                    a * b > MAX_DURATION_NANOS,
            ;
            None
        }
    }

    /// The number of whole seconds, rounded toward zero.
    pub fn num_seconds(&self) -> (res: i64)
        ensures
            res == trunc_div(self@, NANOS_PER_SEC as int),
            -9_223_372_036_854_775 <= res <= 9_223_372_036_854_775,
    {
        proof {
            use_type_invariant(self);
        }
        let n = self.nanos;
        assert(0 <= n ==> n / 1_000_000_000 <= 9_223_372_036_854_775) by (nonlinear_arith)
            requires
                n <= MAX_DURATION_NANOS,
        ;
        assert(n < 0 ==> (-n) / 1_000_000_000 <= 9_223_372_036_854_775) by (nonlinear_arith)
            requires
                -n <= MAX_DURATION_NANOS,
        ;
        if n >= 0 {
            (n / (NANOS_PER_SEC as i128)) as i64
        } else {
            (-((-n) / (NANOS_PER_SEC as i128))) as i64
        }
    }

    /// The number of whole minutes, rounded toward zero.
    pub fn num_minutes(&self) -> (res: i64)
        ensures
            res == trunc_div(trunc_div(self@, NANOS_PER_SEC as int), 60),
    {
        let s = self.num_seconds();
        if s >= 0 {
            s / 60
        } else {
            -((-s) / 60)
        }
    }

    /// The number of whole days, rounded toward zero.
    pub fn num_days(&self) -> (res: i64)
        ensures
            res == trunc_div(trunc_div(self@, NANOS_PER_SEC as int), 86400),
            -106_751_991_168 <= res <= 106_751_991_168,
    {
        let s = self.num_seconds();
        if s >= 0 {
            s / 86400
        } else {
            -((-s) / 86400)
        }
    }

    /// The number of whole weeks, rounded toward zero.
    pub fn num_weeks(&self) -> (res: i64)
        ensures
            res == trunc_div(trunc_div(trunc_div(self@, NANOS_PER_SEC as int), 86400), 7),
            -15_250_284_453 <= res <= 15_250_284_453,
    {
        let d = self.num_days();
        if d >= 0 {
            d / 7
        } else {
            -((-d) / 7)
        }
    }

    /// The duration as whole seconds, rounded down, and the nanoseconds
    /// left over.
    pub fn seconds_and_nanos(&self) -> (res: (i64, u32))
        ensures
            res.0 * NANOS_PER_SEC + res.1 == self@,
            res.1 < NANOS_PER_SEC,
            duration_in_range(self@),
    {
        proof {
            use_type_invariant(self);
        }
        let n = self.nanos;
        let mut q: i128 = n / 1_000_000_000i128;
        let mut r: i128 = n % 1_000_000_000i128;
        if r < 0 {
            r = r + 1_000_000_000i128;
            q = q - 1;
        }
        assert(-9_223_372_036_854_776i128 <= q <= 9_223_372_036_854_776i128) by (nonlinear_arith)
            requires
                q * 1_000_000_000 + r == n,
                0 <= r < 1_000_000_000,
                -9_223_372_036_854_775_807_000_000i128 <= n <= 9_223_372_036_854_775_807_000_000i128,
        ;
        (q as i64, r as u32)
    }

    /// Whether this duration is strictly shorter than `other`.
    pub fn lt(&self, other: &Duration) -> (res: bool)
        ensures
            res == (self@ < other@),
    {
        self.nanos < other.nanos
    }
}

// ------------------------------------------------------------------------
// Times of day
// ------------------------------------------------------------------------

/// Nanoseconds since midnight of `hour:min:sec`.
pub open spec fn hms_nanos(hour: int, min: int, sec: int) -> int {
    (hour * 3600 + min * 60 + sec) * NANOS_PER_SEC
}

/// Nanoseconds since midnight of `hour:min:sec`, for a time of day.
pub fn hms_nanos_exec(hour: u32, min: u32, sec: u32) -> (res: i128)
    requires
        hour < 24,
        min < 60,
        sec < 60,
    ensures
        res == hms_nanos(hour as int, min as int, sec as int),
{
    let secs: i128 = hour as i128 * 3600 + min as i128 * 60 + sec as i128;
    assert(0 <= secs < 86400);
    assert(0 <= secs * 1_000_000_000 < 86400 * 1_000_000_000) by (nonlinear_arith)
        requires
            0 <= secs < 86400,
    ;
    secs * 1_000_000_000i128
}

/// A time of day with nanosecond precision; leap seconds are not represented.
#[derive(Clone, Copy, Debug, PartialEq, Eq, Hash)]
pub struct Time {
    nanos: u64,
}

impl View for Time {
    type V = int;

    /// Nanoseconds since midnight.
    closed spec fn view(&self) -> int {
        self.nanos as int
    }
}

impl Time {
    #[verifier::type_invariant]
    spec fn inv(self) -> bool {
        self.nanos < NANOS_PER_DAY
    }

    /// The time `hour:min:sec`, when each part is in range.
    pub fn from_hms_opt(hour: u32, min: u32, sec: u32) -> (res: Option<Time>)
        ensures
            res is Some <==> (hour < 24 && min < 60 && sec < 60),
            res matches Some(t) ==> t@ == hms_nanos(hour as int, min as int, sec as int),
    {
        Time::from_hms_nano_opt(hour, min, sec, 0)
    }

    /// The time `hour:min:sec` plus `nano` nanoseconds, when each part is in
    /// range.
    pub fn from_hms_nano_opt(hour: u32, min: u32, sec: u32, nano: u32) -> (res: Option<Time>)
        ensures
            res is Some <==> (hour < 24 && min < 60 && sec < 60 && nano < NANOS_PER_SEC),
            res matches Some(t) ==> t@ == hms_nanos(hour as int, min as int, sec as int) + nano,
    {
        if hour < 24 && min < 60 && sec < 60 && (nano as u64) < NANOS_PER_SEC {
            let secs: u64 = hour as u64 * 3600 + min as u64 * 60 + sec as u64;
            Some(Time { nanos: secs * NANOS_PER_SEC + nano as u64 })
        } else {
            None
        }
    }

    /// Midnight.
    pub fn midnight() -> (res: Time)
        ensures
            res@ == 0,
    {
        Time { nanos: 0 }
    }

    /// Nanoseconds since midnight.
    pub fn nanos_of_day(&self) -> (res: u64)
        ensures
            res == self@,
            res < NANOS_PER_DAY,
    {
        proof {
            use_type_invariant(self);
        }
        self.nanos
    }

    /// The hour, 0 to 23.
    pub fn hour(&self) -> (res: u32)
        ensures
            res == self@ / (3600 * NANOS_PER_SEC),
            res < 24,
    {
        proof {
            use_type_invariant(self);
        }
        (self.nanos / (3600 * NANOS_PER_SEC)) as u32
    }

    /// The minute within the hour, 0 to 59.
    pub fn minute(&self) -> (res: u32)
        ensures
            res == (self@ / (60 * NANOS_PER_SEC)) % 60,
            res < 60,
    {
        proof {
            use_type_invariant(self);
        }
        ((self.nanos / (60 * NANOS_PER_SEC)) % 60) as u32
    }

    /// The second within the minute, 0 to 59.
    pub fn second(&self) -> (res: u32)
        ensures
            res == (self@ / (NANOS_PER_SEC as int)) % 60,
            res < 60,
    {
        proof {
            use_type_invariant(self);
        }
        ((self.nanos / NANOS_PER_SEC) % 60) as u32
    }

    /// The nanoseconds within the second.
    pub fn nanosecond(&self) -> (res: u32)
        ensures
            res == self@ % (NANOS_PER_SEC as int),
            res < NANOS_PER_SEC,
    {
        (self.nanos % NANOS_PER_SEC) as u32
    }

    /// The time shifted by `d`, wrapping around midnight.
    pub fn add_duration(&self, d: &Duration) -> (res: Time)
        ensures
            res@ == (self@ + d@) % (NANOS_PER_DAY as int),
    {
        proof {
            use_type_invariant(self);
        }
        let day = NANOS_PER_DAY as i128;
        let r = (self.nanos as i128 + d.nanos()) % day;
        let r = if r < 0 { r + day } else { r };
        assert(r == (self@ + d@) % (NANOS_PER_DAY as int)) by {
            let x = self@ + d@;
            let q = x / (NANOS_PER_DAY as int);
            vstd::arithmetic::div_mod::lemma_fundamental_div_mod(x, NANOS_PER_DAY as int);
        }
        Time { nanos: r as u64 }
    }

    /// The time shifted back by `d`, wrapping around midnight.
    pub fn sub_duration(&self, d: &Duration) -> (res: Time)
        ensures
            res@ == (self@ - d@) % (NANOS_PER_DAY as int),
    {
        proof {
            use_type_invariant(self);
        }
        let day = NANOS_PER_DAY as i128;
        let r = (self.nanos as i128 - d.nanos()) % day;
        let r = if r < 0 { r + day } else { r };
        assert(r == (self@ - d@) % (NANOS_PER_DAY as int)) by {
            vstd::arithmetic::div_mod::lemma_fundamental_div_mod(self@ - d@, NANOS_PER_DAY as int);
        }
        Time { nanos: r as u64 }
    }

    /// The signed duration from `other` to this time.
    pub fn since(&self, other: &Time) -> (res: Duration)
        ensures
            res@ == self@ - other@,
    {
        proof {
            use_type_invariant(self);
            use_type_invariant(other);
        }
        Duration { nanos: self.nanos as i128 - other.nanos as i128 }
    }

    /// Whether this time is strictly before `other`.
    pub fn is_before(&self, other: &Time) -> (res: bool)
        ensures
            res == (self@ < other@),
    {
        self.nanos < other.nanos
    }

    /// Whether this time equals `other`.
    pub fn same_time(&self, other: &Time) -> (res: bool)
        ensures
            res == (self@ == other@),
    {
        self.nanos == other.nanos
    }
}

// ------------------------------------------------------------------------
// Date-times
// ------------------------------------------------------------------------

/// Whether every day from `d` to `d.plus_days(n)` is representable.
pub open spec fn plus_days_in_range(d: Date, n: int) -> bool
    decreases (if n >= 0 { n } else { -n }),
{
    if n == 0 {
        d.valid()
    } else if n > 0 {
        d.valid() && !d.is_max() && plus_days_in_range(d.next_day(), n - 1)
    } else {
        d.valid() && !d.is_min() && plus_days_in_range(d.prev_day(), n + 1)
    }
}

/// A shift within the representable days ends on a representable day.
pub proof fn lemma_plus_days_valid(d: Date, n: int)
    requires
        plus_days_in_range(d, n),
    ensures
        d.plus_days(n).valid(),
    decreases (if n >= 0 { n } else { -n }),
{
    if n > 0 {
        lemma_plus_days_valid(d.next_day(), n - 1);
    } else if n < 0 {
        lemma_plus_days_valid(d.prev_day(), n + 1);
    }
}

/// Whether `a` is on or before `b`.
pub open spec fn date_le(a: Date, b: Date) -> bool {
    !b.before(a)
}

/// Calendar order is transitive.
pub proof fn lemma_before_trans(a: Date, b: Date, c: Date)
    requires
        a.before(b),
        b.before(c),
    ensures
        a.before(c),
{
}

/// A shift by at least one representable day moves strictly forward.
pub proof fn lemma_plus_days_after(d: Date, n: int)
    requires
        n >= 1,
        plus_days_in_range(d, n),
    ensures
        d.before(d.plus_days(n)),
    decreases n,
{
    let next = d.next_day();
    assert(d.before(next));
    assert(d.plus_days(n) == next.plus_days(n - 1));
    if n == 1 {
        assert(next.plus_days(0) == next);
    } else {
        lemma_plus_days_after(next, n - 1);
        lemma_before_trans(d, next, next.plus_days(n - 1));
    }
}

/// Moving the moment `(date, t)` forward by `d > 0` nanoseconds, within the
/// representable days, gives a strictly later moment: a later date, or the
/// same date at a later time.
pub proof fn lemma_shift_later(date: Date, t: int, d: int)
    requires
        0 <= t < NANOS_PER_DAY,
        d > 0,
        plus_days_in_range(date, (t + d) / (NANOS_PER_DAY as int)),
    ensures
        ({
            let n = (t + d) / (NANOS_PER_DAY as int);
            let date2 = date.plus_days(n);
            let t2 = (t + d) % (NANOS_PER_DAY as int);
            date.before(date2) || (date2 == date && t < t2)
        }),
{
    let n = (t + d) / (NANOS_PER_DAY as int);
    if n >= 1 {
        lemma_plus_days_after(date, n);
    } else {
        assert(n == 0);
        assert((t + d) % (NANOS_PER_DAY as int) == t + d);
    }
}

/// A calendar date with a time of day, read on the local wall clock.
#[derive(Clone, Copy, Debug, PartialEq, Eq, Hash)]
pub struct DateTime {
    pub date: Date,
    pub time: Time,
}

impl DateTime {
    /// Whether this date-time is strictly before `other`.
    pub open spec fn before(self, other: DateTime) -> bool {
        self.date.before(other.date) || (self.date == other.date && self.time@ < other.time@)
    }

    /// The number of whole days that a shift by `d` nanoseconds carries over.
    pub open spec fn carry_days(self, d: int) -> int {
        (self.time@ + d) / (NANOS_PER_DAY as int)
    }

    /// The date after a shift by `d` nanoseconds.
    pub open spec fn shifted_date(self, d: int) -> Date {
        self.date.plus_days(self.carry_days(d))
    }

    /// The time of day after a shift by `d` nanoseconds.
    pub open spec fn shifted_time(self, d: int) -> int {
        (self.time@ + d) % (NANOS_PER_DAY as int)
    }

    /// Whether this date-time is strictly before `other`.
    pub fn is_before(&self, other: &DateTime) -> (res: bool)
        ensures
            res == self.before(*other),
    {
        self.date.is_before(&other.date) || (self.date.same_day(&other.date)
            && self.time.is_before(&other.time))
    }

    /// Whether this date-time equals `other`.
    pub fn same_instant(&self, other: &DateTime) -> (res: bool)
        ensures
            res == (self.date == other.date && self.time@ == other.time@),
    {
        self.date.same_day(&other.date) && self.time.same_time(&other.time)
    }

    /// The date-time shifted by `d`, when every day on the way is
    /// representable.
    pub fn checked_add(&self, d: &Duration) -> (res: Option<DateTime>)
        requires
            self.date.valid(),
        ensures
            res is Some <==> plus_days_in_range(self.date, self.carry_days(d@)),
            res matches Some(r) ==> {
                &&& r.date == self.shifted_date(d@)
                &&& r.time@ == self.shifted_time(d@)
                &&& r.date.valid()
            },
    {
        let t = self.time.nanos_of_day() as i128;
        let day = NANOS_PER_DAY as i128;
        let total: i128 = t + d.nanos();
        let mut q: i128 = total / day;
        let mut r: i128 = total % day;
        if r < 0 {
            r = r + day;
            q = q - 1;
        }
        proof {
            vstd::arithmetic::div_mod::lemma_fundamental_div_mod(total as int, day as int);
            assert(q == self.carry_days(d@) && r == self.shifted_time(d@)) by {
                let x = total as int;
                let m = day as int;
                vstd::arithmetic::div_mod::lemma_fundamental_div_mod_converse(x, m, q as int, r as int);
            }
        }
        let time = Time { nanos: r as u64 };
        let ghost start = self.date;
        let mut date = self.date;
        let mut k: i128 = q;
        // walk day by day toward the target
        while k != 0
            invariant
                date.valid(),
                start == self.date,
                q == self.carry_days(d@),
                r == self.shifted_time(d@),
                time@ == r,
                date.plus_days(k as int) == start.plus_days(q as int),
                plus_days_in_range(start, q as int) <==> plus_days_in_range(date, k as int),
            decreases (if k >= 0 { k as int } else { -k }),
        {
            if k > 0 {
                if date.year == MAX_YEAR && date.month == 12 && date.day == 31 {
                    return None;
                }
                date = date.succ();
                k = k - 1;
            } else {
                if date.year == MIN_YEAR && date.month == 1 && date.day == 1 {
                    return None;
                }
                date = date.pred();
                k = k + 1;
            }
        }
        Some(DateTime { date, time })
    }
}

/// The local wall-clock reading as plain parts: year, month, day, hour,
/// minute, second and nanosecond.
///
/// Calls `chrono::Local::now`. What it returns depends on the clock and the
/// local time zone; only that the parts name a representable date and a
/// time of day without a leap second is stated.
#[verifier::external_body]
fn local_clock_parts() -> (res: (i32, u32, u32, u32, u32, u32, u32))
    ensures
        valid_ymd(res.0 as int, res.1 as int, res.2 as int),
        res.3 < 24,
        res.4 < 60,
        res.5 < 60,
        res.6 < NANOS_PER_SEC,
{
    let n = chrono::Local::now().naive_local();
    (n.year(), n.month(), n.day(), n.hour(), n.minute(), n.second(), n.nanosecond())
}

/// The current local date and time.
pub fn now() -> (res: DateTime)
    ensures
        res.date.valid(),
{
    let (y, mo, d, h, mi, s, ns) = local_clock_parts();
    let time = match Time::from_hms_nano_opt(h, mi, s, ns) {
        Some(t) => t,
        None => Time::midnight(),
    };
    DateTime { date: Date { year: y, month: mo, day: d }, time }
}

/// The span of a day on either side of `now`, over which the remote
/// calendar lists today's events: `now` moved a day back and a day on.
pub fn day_span(now: DateTime) -> (res: Option<(DateTime, DateTime)>)
    requires
        now.date.valid(),
    ensures
        res is Some <==> plus_days_in_range(now.date, now.carry_days(-(NANOS_PER_DAY as int)))
            && plus_days_in_range(now.date, now.carry_days(NANOS_PER_DAY as int)),
        res matches Some((lo, hi)) ==> {
            &&& lo.date == now.shifted_date(-(NANOS_PER_DAY as int))
            &&& lo.time@ == now.shifted_time(-(NANOS_PER_DAY as int))
            &&& hi.date == now.shifted_date(NANOS_PER_DAY as int)
            &&& hi.time@ == now.shifted_time(NANOS_PER_DAY as int)
        },
{
    let day = Duration::try_days(1).unwrap();
    let back = Duration::try_days(-1).unwrap();
    match (now.checked_add(&back), now.checked_add(&day)) {
        (Some(lo), Some(hi)) => Some((lo, hi)),
        _ => None,
    }
}

/// The span the remote calendar is queried over around the moment `now`,
/// for a query window of `w` nanoseconds: from midnight of today, keeping
/// the fraction of a second of `now`, moved back by `w`, to midnight, with
/// the same fraction kept, of the moment `now` moved forward by `w`; each
/// bound as a date and a time of day. `None` where a bound leaves the
/// representable days.
pub open spec fn query_span(w: int, now: DateTime) -> Option<((Date, int), (Date, int))> {
    let frac = now.time@ % (NANOS_PER_SEC as int);
    let lo_days = (frac - w) / (NANOS_PER_DAY as int);
    let hi_days = (now.time@ + w) / (NANOS_PER_DAY as int);
    if plus_days_in_range(now.date, lo_days) && plus_days_in_range(now.date, hi_days) {
        Some(
            (
                (now.date.plus_days(lo_days), (frac - w) % (NANOS_PER_DAY as int)),
                (
                    now.date.plus_days(hi_days),
                    ((now.time@ + w) % (NANOS_PER_DAY as int)) % (NANOS_PER_SEC as int),
                ),
            ),
        )
    } else {
        None
    }
}

/// The span the remote calendar is queried over around `now` for the
/// query window `w` (see `query_span`).
pub fn window_at(w: &Duration, now: DateTime) -> (res: Option<(DateTime, DateTime)>)
    requires
        now.date.valid(),
    ensures
        match query_span(w@, now) {
            Some((lo, hi)) => res matches Some((a, b)) && a.date == lo.0 && a.time@ == lo.1
                && b.date == hi.0 && b.time@ == hi.1,
            None => res is None,
        },
{
    let frac = Time::from_hms_nano_opt(0, 0, 0, now.time.nanosecond()).unwrap();
    let midnight = DateTime { date: now.date, time: frac };
    let neg = match Duration::from_nanos(-w.nanos()) {
        Some(v) => v,
        None => {
            return None;
        },
    };
    let lo = match midnight.checked_add(&neg) {
        Some(v) => v,
        None => {
            return None;
        },
    };
    let ahead = match now.checked_add(w) {
        Some(v) => v,
        None => {
            return None;
        },
    };
    let hi_time = Time::from_hms_nano_opt(0, 0, 0, ahead.time.nanosecond()).unwrap();
    Some((lo, DateTime { date: ahead.date, time: hi_time }))
}

/// The span the remote calendar is queried over around the current local
/// moment, for the settings' query window (see `query_span`); `OutOfRange`
/// where a bound leaves the representable days.
pub fn window(config: &Config) -> (res: Result<(DateTime, DateTime), SaturnError>)
    ensures
        res is Err ==> res == Err::<(DateTime, DateTime), SaturnError>(SaturnError::OutOfRange),
        res matches Ok((a, b)) ==> exists|now: DateTime|
            now.date.valid() && #[trigger] query_span(config@.query_length(), now) == Some(
                ((a.date, a.time@), (b.date, b.time@)),
            ),
{
    let moment = now();
    let w = config.query_window();
    match window_at(&w, moment) {
        Some((a, b)) => {
            assert(query_span(config@.query_length(), moment) == Some(
                ((a.date, a.time@), (b.date, b.time@)),
            ));
            Ok((a, b))
        },
        None => Err(SaturnError::OutOfRange),
    }
}

} // verus!
