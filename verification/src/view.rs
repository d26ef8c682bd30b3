//! What the interface shows: the week the calendar starts on, the cells of
//! its days, the rows of the list of events, the rows of a shown record,
//! the editing of the input line, and the lines of the command line's
//! listings.

use crate::error::Outcome;
use crate::memory::{moment_before, shift_exec, shift_moment};
use crate::record::{
    digit_char, digit_to_char, format_hour_minute, format_u64, hour_minute_text, nat_text,
    push_all, Record, RecordType, RecordView, RecurringRecord, RecurringView,
};
use crate::text::{from_chars, to_chars};
use crate::time::{
    date_le, days_in_month, is_leap_year, plus_days_in_range, valid_ymd, Date, DateTime, Duration,
    Time, NANOS_PER_DAY, NANOS_PER_SEC,
};
use vstd::prelude::*;

verus! {

// ------------------------------------------------------------------------
// Days of the week
// ------------------------------------------------------------------------

/// The number of days from a fixed day long before every representable day
/// to `y-m-d`: years are counted from March, so that a leap day ends its
/// year, and shifted by a multiple of 400 years, which keeps every count
/// positive and the days of the week in step.
pub open spec fn day_count(y: int, m: int, d: int) -> int {
    let yy = if m <= 2 {
        y + 400_000 - 1
    } else {
        y + 400_000
    };
    let mp = if m > 2 {
        m - 3
    } else {
        m + 9
    };
    365 * yy + yy / 4 - yy / 100 + yy / 400 + (153 * mp + 2) / 5 + d - 1
}

/// The day of the week of `d`, from Sunday (0) to Saturday (6).
pub open spec fn weekday_from_sunday(d: Date) -> int {
    (day_count(d.year as int, d.month as int, d.day as int) + 3) % 7
}

/// The day of the week of `d`, from Sunday (0) to Saturday (6).
pub fn weekday(d: Date) -> (res: u32)
    requires
        d.valid(),
    ensures
        res == weekday_from_sunday(d),
        res < 7,
{
    let y = d.year as i64;
    let m = d.month as i64;
    let yy: i64 = if m <= 2 {
        y + 400_000 - 1
    } else {
        y + 400_000
    };
    let mp: i64 = if m > 2 {
        m - 3
    } else {
        m + 9
    };
    assert(0 < yy < 700_000);
    assert(0 <= 365 * yy <= 365 * 700_000) by (nonlinear_arith)
        requires
            0 < yy < 700_000,
    ;
    let count: i64 = 365 * yy + yy / 4 - yy / 100 + yy / 400 + (153 * mp + 2) / 5 + d.day as i64
        - 1;
    ((count + 3) % 7) as u32
}

/// One less than a positive number, divided by `k`: one less when `k`
/// divides the number, the same otherwise.
proof fn lemma_div_step(y: int, k: int)
    requires
        y > 0,
        k > 0,
    ensures
        (y - 1) / k == if y % k == 0 {
            y / k - 1
        } else {
            y / k
        },
{
    vstd::arithmetic::div_mod::lemma_fundamental_div_mod(y, k);
    vstd::arithmetic::div_mod::lemma_fundamental_div_mod(y - 1, k);
    let q = y / k;
    let r = y % k;
    assert(0 <= r < k);
    if r == 0 {
        assert(y - 1 == (q - 1) * k + (k - 1)) by (nonlinear_arith)
            requires
                y == k * q + r,
                r == 0,
        ;
        vstd::arithmetic::div_mod::lemma_fundamental_div_mod_converse(y - 1, k, q - 1, k - 1);
    } else {
        assert(y - 1 == q * k + (r - 1)) by (nonlinear_arith)
            requires
                y == k * q + r,
        ;
        vstd::arithmetic::div_mod::lemma_fundamental_div_mod_converse(y - 1, k, q, r - 1);
    }
}

/// Moving a year by 400 000 years keeps whether it is a leap year.
proof fn lemma_leap_shift(y: int)
    ensures
        is_leap_year(y) == is_leap_year(y + 400_000),
{
    vstd::arithmetic::div_mod::lemma_mod_multiples_vanish(100_000, y, 4);
    vstd::arithmetic::div_mod::lemma_mod_multiples_vanish(4_000, y, 100);
    vstd::arithmetic::div_mod::lemma_mod_multiples_vanish(1_000, y, 400);
    assert(4 * 100_000 + y == y + 400_000);
    assert(100 * 4_000 + y == y + 400_000);
    assert(400 * 1_000 + y == y + 400_000);
}

/// The count of the day after `d` is one more than the count of `d`.
proof fn lemma_day_count_next(d: Date)
    requires
        d.valid(),
        !d.is_max(),
    ensures
        day_count(
            d.next_day().year as int,
            d.next_day().month as int,
            d.next_day().day as int,
        ) == day_count(d.year as int, d.month as int, d.day as int) + 1,
{
    let y = d.year as int;
    let m = d.month as int;
    if (d.day as int) < days_in_month(y, m) {
    } else if m == 2 {
        let big = y + 400_000;
        lemma_leap_shift(y);
        lemma_div_step(big, 4);
        lemma_div_step(big, 100);
        lemma_div_step(big, 400);
        assert(365 * big == 365 * (big - 1) + 365);
        assert(is_leap_year(big) == ((big % 4 == 0 && big % 100 != 0) || big % 400 == 0));
        if big % 400 == 0 {
            vstd::arithmetic::div_mod::lemma_fundamental_div_mod(big, 400);
            assert(big == 400 * (big / 400));
            assert(big == 4 * (100 * (big / 400)));
            vstd::arithmetic::div_mod::lemma_mod_multiples_vanish(100 * (big / 400), 0, 4);
            assert(big == 100 * (4 * (big / 400)));
            vstd::arithmetic::div_mod::lemma_mod_multiples_vanish(4 * (big / 400), 0, 100);
        } else if big % 100 == 0 {
            vstd::arithmetic::div_mod::lemma_fundamental_div_mod(big, 100);
            assert(big == 4 * (25 * (big / 100)));
            vstd::arithmetic::div_mod::lemma_mod_multiples_vanish(25 * (big / 100), 0, 4);
        }
    } else if m < 12 {
    } else {
    }
}

/// Consecutive days have consecutive days of the week.
pub proof fn law_weekdays_follow(d: Date)
    requires
        d.valid(),
        !d.is_max(),
    ensures
        weekday_from_sunday(d.next_day()) == (weekday_from_sunday(d) + 1) % 7,
{
    lemma_day_count_next(d);
    let c = day_count(d.year as int, d.month as int, d.day as int);
    assert((c + 1 + 3) % 7 == ((c + 3) % 7 + 1) % 7) by {
        vstd::arithmetic::div_mod::lemma_add_mod_noop(c + 3, 1, 7);
    }
}

/// The first day of the calendar for `today`: the day of the month of the
/// Sunday that starts `today`'s week, taken in `today`'s month, in the year
/// of the common era (a year up to 0 counts back from 1). Where the
/// Sunday is out of range, or that day does not exist in the month, the
/// reading stops.
pub open spec fn week_begin(today: Date) -> Outcome<Date> {
    let back = weekday_from_sunday(today);
    if !plus_days_in_range(today, -back) {
        Outcome::Halt
    } else {
        let sunday = today.plus_days(-back);
        let y = if today.year >= 1 {
            today.year as int
        } else {
            1 - today.year
        };
        if valid_ymd(y, today.month as int, sunday.day as int) {
            Outcome::Value(Date { year: y as i32, month: today.month, day: sunday.day })
        } else {
            Outcome::Halt
        }
    }
}

/// The first day of the calendar for `today` (see `week_begin`).
pub fn calendar_begin(today: Date) -> (res: Outcome<Date>)
    requires
        today.valid(),
    ensures
        match week_begin(today) {
            Outcome::Value(d) => res matches Outcome::Value(x) && x == d,
            _ => res is Halt,
        },
{
    let back = weekday(today);
    let days = Duration::try_days(-(back as i64)).unwrap();
    let sunday = match shift_exec(today, Time::midnight(), &days) {
        Some(s) => s.date,
        None => {
            return Outcome::Halt;
        },
    };
    let y: i32 = if today.year >= 1 {
        today.year
    } else {
        1 - today.year
    };
    match Date::from_ymd_opt(y, today.month, sunday.day) {
        Some(d) => Outcome::Value(d),
        None => Outcome::Halt,
    }
}

// ------------------------------------------------------------------------
// Texts
// ------------------------------------------------------------------------

/// `n` (below 100) in two digits.
pub open spec fn two_digits(n: int) -> Seq<char> {
    seq![digit_char(n / 10), digit_char(n % 10)]
}

/// `n` (below 10000) in four digits.
pub open spec fn four_digits(n: int) -> Seq<char> {
    seq![digit_char(n / 1000), digit_char((n / 100) % 10), digit_char((n / 10) % 10), digit_char(n % 10)]
}

/// A year as a day is written: four digits from 0 to 9999, otherwise a sign
/// and at least four digits.
pub open spec fn year_text(y: int) -> Seq<char> {
    if 0 <= y <= 9999 {
        four_digits(y)
    } else {
        let a = if y < 0 {
            -y
        } else {
            y
        };
        seq![if y < 0 { '-' } else { '+' }] + if a < 10000 {
            four_digits(a)
        } else {
            nat_text(a as nat)
        }
    }
}

/// A day written as `YYYY-MM-DD`.
pub open spec fn date_text(d: Date) -> Seq<char> {
    year_text(d.year as int) + seq!['-'] + two_digits(d.month as int) + seq!['-'] + two_digits(
        d.day as int,
    )
}

/// A day written as `MM/DD`.
pub open spec fn month_day_text(d: Date) -> Seq<char> {
    two_digits(d.month as int) + seq!['/'] + two_digits(d.day as int)
}

/// Appends `n` (below 100) in two digits.
fn push_two(v: &mut Vec<char>, n: u32)
    requires
        n < 100,
    ensures
        final(v)@ == old(v)@ + two_digits(n as int),
{
    v.push(digit_to_char((n / 10) as u64));
    v.push(digit_to_char((n % 10) as u64));
    assert(final(v)@ =~= old(v)@ + two_digits(n as int));
}

/// Appends `n` (below 10000) in four digits.
fn push_four(v: &mut Vec<char>, n: u32)
    requires
        n < 10000,
    ensures
        final(v)@ == old(v)@ + four_digits(n as int),
{
    v.push(digit_to_char((n / 1000) as u64));
    v.push(digit_to_char(((n / 100) % 10) as u64));
    v.push(digit_to_char(((n / 10) % 10) as u64));
    v.push(digit_to_char((n % 10) as u64));
    assert(final(v)@ =~= old(v)@ + four_digits(n as int));
}

/// Writes a day as `YYYY-MM-DD`.
pub fn format_date(d: Date) -> (res: Vec<char>)
    requires
        d.valid(),
    ensures
        res@ == date_text(d),
{
    let mut v: Vec<char> = Vec::new();
    let y = d.year;
    if 0 <= y && y <= 9999 {
        push_four(&mut v, y as u32);
    } else {
        let a: u32 = if y < 0 {
            (-y) as u32
        } else {
            y as u32
        };
        v.push(if y < 0 {
            '-'
        } else {
            '+'
        });
        if a < 10000 {
            push_four(&mut v, a);
        } else {
            let digits = format_u64(a as u64);
            push_all(&mut v, digits.as_slice());
        }
    }
    assert(v@ == year_text(y as int));
    v.push('-');
    push_two(&mut v, d.month);
    v.push('-');
    push_two(&mut v, d.day);
    assert(v@ =~= date_text(d));
    v
}

/// Writes a day as `MM/DD`.
pub fn format_month_day(d: Date) -> (res: Vec<char>)
    requires
        d.valid(),
    ensures
        res@ == month_day_text(d),
{
    let mut v: Vec<char> = Vec::new();
    push_two(&mut v, d.month);
    v.push('/');
    push_two(&mut v, d.day);
    assert(v@ =~= month_day_text(d));
    v
}

/// The English name of month `m` (1 to 12), if there is one.
pub open spec fn month_name_text(m: int) -> Option<Seq<char>> {
    if m == 1 {
        Some("January"@)
    } else if m == 2 {
        Some("February"@)
    } else if m == 3 {
        Some("March"@)
    } else if m == 4 {
        Some("April"@)
    } else if m == 5 {
        Some("May"@)
    } else if m == 6 {
        Some("June"@)
    } else if m == 7 {
        Some("July"@)
    } else if m == 8 {
        Some("August"@)
    } else if m == 9 {
        Some("September"@)
    } else if m == 10 {
        Some("October"@)
    } else if m == 11 {
        Some("November"@)
    } else if m == 12 {
        Some("December"@)
    } else {
        None
    }
}

/// The English name of month `m` (1 to 12), if there is one: the title of
/// the calendar.
pub fn month_name(m: u32) -> (res: Option<String>)
    ensures
        match month_name_text(m as int) {
            Some(t) => res matches Some(s) && s@ == t,
            None => res is None,
        },
{
    let name: &str = if m == 1 {
        "January"
    } else if m == 2 {
        "February"
    } else if m == 3 {
        "March"
    } else if m == 4 {
        "April"
    } else if m == 5 {
        "May"
    } else if m == 6 {
        "June"
    } else if m == 7 {
        "July"
    } else if m == 8 {
        "August"
    } else if m == 9 {
        "September"
    } else if m == 10 {
        "October"
    } else if m == 11 {
        "November"
    } else if m == 12 {
        "December"
    } else {
        return None;
    };
    Some(name.to_string())
}

// ------------------------------------------------------------------------
// The list of events
// ------------------------------------------------------------------------

/// How a row of the list of events is shown: dimmed, as today's, or as
/// happening within the hour.
#[derive(Clone, Copy, Debug, PartialEq, Eq, Structural)]
pub enum RowStyle {
    Plain,
    Dim,
    Today,
    Soon,
}

/// A row of the list of events: the key, when, and what.
#[derive(Debug)]
pub struct EventRow {
    pub key: String,
    pub when: String,
    pub detail: String,
    pub style: RowStyle,
}

/// The abstract content of a row of the list of events.
pub struct RowView {
    pub key: Seq<char>,
    pub when: Seq<char>,
    pub detail: Seq<char>,
    pub style: RowStyle,
}

impl View for EventRow {
    type V = RowView;

    open spec fn view(&self) -> RowView {
        RowView { key: self.key@, when: self.when@, detail: self.detail@, style: self.style }
    }
}

/// One hour, in nanoseconds.
pub open spec fn hour_nanos() -> int {
    3600 * NANOS_PER_SEC as int
}

/// Whether the record `r` is listed in the week that starts on `begin`: it
/// falls on or after that day. A record without its placement stops the
/// reading, unless it is a whole-day record.
pub open spec fn row_shown(r: RecordView, begin: Date) -> Outcome<bool> {
    if r.typ == RecordType::AllDay && date_le(begin, r.date) {
        Outcome::Value(true)
    } else if !r.well_typed() {
        Outcome::Halt
    } else {
        Outcome::Value(date_le(begin, r.date))
    }
}

/// How the listed record `r` is shown at the moment `now`: as happening
/// soon when it is a whole-day record of today or starts within the hour
/// around now, otherwise as today's when it falls on today, otherwise
/// dimmed. A moment out of range stops the reading.
pub open spec fn row_style(r: RecordView, now: DateTime) -> Outcome<RowStyle> {
    let plain = if r.date == now.date {
        RowStyle::Today
    } else {
        RowStyle::Dim
    };
    let st = r.start_time();
    if r.typ == RecordType::AllDay && r.date == now.date {
        Outcome::Value(RowStyle::Soon)
    } else {
        match shift_moment(r.date, st, -hour_nanos()) {
            None => Outcome::Halt,
            Some((ld, lt)) => if moment_before(ld, lt, now.date, now.time@) {
                match shift_moment(r.date, st, hour_nanos()) {
                    None => Outcome::Halt,
                    Some((ud, ut)) => Outcome::Value(
                        if moment_before(now.date, now.time@, ud, ut) {
                            RowStyle::Soon
                        } else {
                            plain
                        },
                    ),
                }
            } else {
                Outcome::Value(plain)
            },
        }
    }
}

/// When the record `r` is, as its row writes it: `MM/DD [Day]` for a
/// whole-day record, otherwise `MM/DD HH:MM` of its start.
pub open spec fn row_when(r: RecordView) -> Seq<char> {
    if r.typ == RecordType::AllDay {
        month_day_text(r.date) + " [Day]"@
    } else {
        month_day_text(r.date) + seq![' '] + hour_minute_text(r.start_time())
    }
}

/// The rows that the first `n` records of `rs` make in the week that
/// starts on `begin`, at the moment `now`.
pub open spec fn event_rows_of(rs: Seq<RecordView>, begin: Date, now: DateTime, n: int) -> Outcome<
    Seq<RowView>,
>
    decreases n,
{
    if n <= 0 {
        Outcome::Value(Seq::empty())
    } else {
        match event_rows_of(rs, begin, now, n - 1) {
            Outcome::Value(prev) => {
                let r = rs[n - 1];
                match row_shown(r, begin) {
                    Outcome::Value(false) => Outcome::Value(prev),
                    Outcome::Value(true) => match row_style(r, now) {
                        Outcome::Value(style) => Outcome::Value(
                            prev.push(
                                RowView {
                                    key: nat_text(r.primary_key as nat),
                                    when: row_when(r),
                                    detail: r.detail,
                                    style,
                                },
                            ),
                        ),
                        _ => Outcome::Halt,
                    },
                    _ => Outcome::Halt,
                }
            },
            other => other,
        }
    }
}

/// The views of a list of rows.
pub open spec fn row_list(v: Seq<EventRow>) -> Seq<RowView> {
    v.map_values(|r: EventRow| r@)
}

/// How the listed record `r` is shown at `now` (see `row_style`).
fn row_style_exec(r: &Record, now: &DateTime) -> (res: Outcome<RowStyle>)
    requires
        r@.well_typed(),
    ensures
        res == row_style(r@, *now),
{
    let dt = r.datetime();
    let plain = if dt.date.same_day(&now.date) {
        RowStyle::Today
    } else {
        RowStyle::Dim
    };
    let whole_day = match r.record_type() {
        RecordType::AllDay => true,
        _ => false,
    };
    if whole_day && dt.date.same_day(&now.date) {
        return Outcome::Value(RowStyle::Soon);
    }
    let hour = Duration::try_hours(1).unwrap();
    let back = Duration::try_hours(-1).unwrap();
    match shift_exec(dt.date, dt.time, &back) {
        None => Outcome::Halt,
        Some(lo) => if lo.is_before(now) {
            match shift_exec(dt.date, dt.time, &hour) {
                None => Outcome::Halt,
                Some(hi) => Outcome::Value(
                    if now.is_before(&hi) {
                        RowStyle::Soon
                    } else {
                        plain
                    },
                ),
            }
        } else {
            Outcome::Value(plain)
        },
    }
}

/// Writes when the record `r` is (see `row_when`).
fn row_when_exec(r: &Record) -> (res: String)
    requires
        r@.well_typed(),
        r@.date.valid(),
    ensures
        res@ == row_when(r@),
{
    proof {
        reveal_strlit(" [Day]");
    }
    let mut v = format_month_day(r.date());
    match r.record_type() {
        RecordType::AllDay => {
            let tail = to_chars(" [Day]");
            push_all(&mut v, tail.as_slice());
        },
        _ => {
            v.push(' ');
            let hm = format_hour_minute(&r.datetime().time);
            push_all(&mut v, hm.as_slice());
        },
    }
    assert(v@ =~= row_when(r@));
    from_chars(v.as_slice())
}

/// The rows of the list of events for the records `records`, in the week
/// that starts on `begin`, at the moment `now` (see `event_rows_of`).
pub fn event_rows(records: &Vec<Record>, begin: Date, now: &DateTime) -> (res: Outcome<
    Vec<EventRow>,
>)
    requires
        forall|i: int| 0 <= i < records@.len() ==> (#[trigger] records@[i])@.date.valid(),
    ensures
        match event_rows_of(
            records@.map_values(|r: Record| r@),
            begin,
            *now,
            records@.len() as int,
        ) {
            Outcome::Value(v) => res matches Outcome::Value(out) && row_list(out@) == v,
            _ => res is Halt,
        },
{
    let ghost rs = records@.map_values(|r: Record| r@);
    let n = records.len();
    let mut out: Vec<EventRow> = Vec::new();
    let mut i: usize = 0;
    assert(row_list(out@) =~= Seq::<RowView>::empty());
    while i < n
        invariant
            n == records@.len(),
            rs == records@.map_values(|r: Record| r@),
            forall|j: int| 0 <= j < records@.len() ==> (#[trigger] records@[j])@.date.valid(),
            i <= n,
            event_rows_of(rs, begin, *now, i as int) == Outcome::Value(row_list(out@)),
        decreases n - i,
    {
        let r = &records[i];
        assert(rs[i as int] == r@);
        let whole_day = match r.record_type() {
            RecordType::AllDay => true,
            _ => false,
        };
        let d = r.date();
        let on_or_after = !d.is_before(&begin);
        let shown = if whole_day && on_or_after {
            true
        } else if !r.is_well_typed() {
            proof {
                lemma_rows_stay_halted(rs, begin, *now, i + 1, n as int);
            }
            return Outcome::Halt;
        } else {
            on_or_after
        };
        if shown {
            match row_style_exec(r, now) {
                Outcome::Value(style) => {
                    let ghost prev = out@;
                    let row = EventRow {
                        key: from_chars(format_u64(r.primary_key()).as_slice()),
                        when: row_when_exec(r),
                        detail: r.detail(),
                        style,
                    };
                    out.push(row);
                    assert(row_list(out@) =~= row_list(prev).push(row@));
                },
                _ => {
                    proof {
                        lemma_rows_stay_halted(rs, begin, *now, i + 1, n as int);
                    }
                    return Outcome::Halt;
                },
            }
        }
        i = i + 1;
    }
    Outcome::Value(out)
}

/// Once making the rows has stopped, more records keep it stopped.
proof fn lemma_rows_stay_halted(rs: Seq<RecordView>, begin: Date, now: DateTime, i: int, n: int)
    requires
        1 <= i <= n,
        event_rows_of(rs, begin, now, i) is Halt,
    ensures
        event_rows_of(rs, begin, now, n) is Halt,
    decreases n - i,
{
    if i < n {
        lemma_rows_stay_halted(rs, begin, now, i + 1, n);
    }
}

// ------------------------------------------------------------------------
// The calendar
// ------------------------------------------------------------------------

/// The number of days the calendar shows: five weeks.
pub open spec fn calendar_days() -> int {
    35
}

/// The lines that the first `n` records of `rs` add to the cell of the day
/// `date`: `[Day] <key>` for a whole-day record of that day, `HH:MM <key>`
/// of its start for another record of that day. A record of that day
/// without its placement stops the reading.
pub open spec fn day_lines(rs: Seq<RecordView>, date: Date, n: int) -> Outcome<(Seq<char>, int)>
    decreases n,
{
    if n <= 0 {
        Outcome::Value((Seq::empty(), 0))
    } else {
        match day_lines(rs, date, n - 1) {
            Outcome::Value((text, count)) => {
                let r = rs[n - 1];
                if r.date != date {
                    Outcome::Value((text, count))
                } else if r.typ == RecordType::AllDay {
                    Outcome::Value(
                        (text + "[Day] "@ + nat_text(r.primary_key as nat) + seq!['\n'], count + 1),
                    )
                } else if !r.well_typed() {
                    Outcome::Halt
                } else {
                    Outcome::Value(
                        (
                            text + hour_minute_text(r.start_time()) + seq![' '] + nat_text(
                                r.primary_key as nat,
                            ) + seq!['\n'],
                            count + 1,
                        ),
                    )
                }
            },
            other => other,
        }
    }
}

/// A day of the calendar: its text, its number of lines, and whether it is
/// today.
#[derive(Debug)]
pub struct DayCell {
    pub text: String,
    pub lines: usize,
    pub today: bool,
}

/// The text of the cell of the day `date`: its day of the month, then the
/// lines of its records (see `day_lines`).
pub open spec fn day_cell_text(rs: Seq<RecordView>, date: Date) -> Outcome<(Seq<char>, int)> {
    match day_lines(rs, date, rs.len() as int) {
        Outcome::Value((text, count)) => Outcome::Value(
            (nat_text(date.day as nat) + seq!['\n'] + text, count + 1),
        ),
        other => other,
    }
}

/// The cell of the day `date` for the records `records`, `today` being the
/// current day (see `day_cell_text`).
pub fn day_cell(records: &Vec<Record>, date: Date, today: Date) -> (res: Outcome<DayCell>)
    requires
        records@.len() < usize::MAX,
    ensures
        match day_cell_text(records@.map_values(|r: Record| r@), date) {
            Outcome::Value((text, lines)) => res matches Outcome::Value(c) && c.text@ == text
                && c.lines == lines && c.today == (date == today),
            _ => res is Halt,
        },
{
    proof {
        reveal_strlit("[Day] ");
    }
    let ghost rs = records@.map_values(|r: Record| r@);
    let mut text = format_u64(date.day as u64);
    text.push('\n');
    let ghost head = text@;
    let n = records.len();
    let mut count: usize = 1;
    let mut i: usize = 0;
    while i < n
        invariant
            n == records@.len(),
            n < usize::MAX,
            rs == records@.map_values(|r: Record| r@),
            i <= n,
            head == nat_text(date.day as nat) + seq!['\n'],
            count <= i + 1,
            day_lines(rs, date, i as int) matches Outcome::Value((t, c)) && text@ == head + t
                && count == c + 1,
        decreases n - i,
    {
        let r = &records[i];
        assert(rs[i as int] == r@);
        let ghost before = text@;
        if r.date().same_day(&date) {
            match r.record_type() {
                RecordType::AllDay => {
                    let tag = to_chars("[Day] ");
                    push_all(&mut text, tag.as_slice());
                },
                _ => {
                    if !r.is_well_typed() {
                        proof {
                            lemma_lines_stay_halted(rs, date, i + 1, n as int);
                        }
                        return Outcome::Halt;
                    }
                    let hm = format_hour_minute(&r.datetime().time);
                    push_all(&mut text, hm.as_slice());
                    text.push(' ');
                },
            }
            let key = format_u64(r.primary_key());
            push_all(&mut text, key.as_slice());
            text.push('\n');
            count = count + 1;
            proof {
                let (t, c) = day_lines(rs, date, i as int)->Value_0;
                assert(before == head + t);
                if r@.typ == RecordType::AllDay {
                    assert(text@ =~= head + (t + "[Day] "@ + nat_text(r@.primary_key as nat)
                        + seq!['\n']));
                } else {
                    assert(text@ =~= head + (t + hour_minute_text(r@.start_time()) + seq![' ']
                        + nat_text(r@.primary_key as nat) + seq!['\n']));
                }
            }
        }
        i = i + 1;
    }
    assert(rs.len() == n);
    Outcome::Value(DayCell { text: from_chars(text.as_slice()), lines: count, today: date.same_day(&today) })
}

/// Once reading the lines of a day has stopped, more records keep it
/// stopped.
proof fn lemma_lines_stay_halted(rs: Seq<RecordView>, date: Date, i: int, n: int)
    requires
        1 <= i <= n,
        day_lines(rs, date, i) is Halt,
    ensures
        day_lines(rs, date, n) is Halt,
    decreases n - i,
{
    if i < n {
        lemma_lines_stay_halted(rs, date, i + 1, n);
    }
}

/// The height of a row of the calendar whose tallest cell has `lines`
/// lines: that many, taken as a 16-bit number, and at least four.
pub open spec fn row_height(lines: int) -> int {
    let h = lines % 65536;
    if h > 4 {
        h
    } else {
        4
    }
}

/// The height of a row of the calendar made of the cells `cells`.
pub fn week_height(cells: &[DayCell]) -> (res: u16)
    ensures
        cells@.len() > 0 ==> exists|i: int|
            0 <= i < cells@.len() && res == row_height(#[trigger] cells@[i].lines as int) && forall|
                j: int,
            |
                0 <= j < cells@.len() ==> cells@[j].lines <= cells@[i].lines,
        cells@.len() == 0 ==> res == 4,
{
    let n = cells.len();
    let mut best: usize = 0;
    let mut at: usize = 0;
    let mut i: usize = 0;
    while i < n
        invariant
            n == cells@.len(),
            i <= n,
            at < n || n == 0,
            i > 0 ==> at < i && best == cells@[at as int].lines,
            i == 0 ==> best == 0,
            forall|j: int| 0 <= j < i ==> cells@[j].lines <= best,
        decreases n - i,
    {
        if i == 0 || cells[i].lines > best {
            best = cells[i].lines;
            at = i;
        }
        i = i + 1;
    }
    let h = (best % 65536) as u16;
    let res: u16 = if h > 4 {
        h
    } else {
        4
    };
    if n > 0 {
        assert(res == row_height(cells@[at as int].lines as int));
    }
    res
}

/// The cells of the calendar that starts on `begin`, for the records
/// `records`, `today` being the current day: five weeks of days. Where a
/// day out of range or a record without its placement is reached, the
/// reading stops.
pub fn calendar_cells(records: &Vec<Record>, begin: Date, today: Date) -> (res: Outcome<Vec<DayCell>>)
    requires
        begin.valid(),
        records@.len() < usize::MAX,
    ensures
        res matches Outcome::Value(cells) ==> cells@.len() == calendar_days() && plus_days_in_range(
            begin,
            calendar_days(),
        ) && forall|k: int|
            0 <= k < calendar_days() ==> match day_cell_text(
                records@.map_values(|r: Record| r@),
                #[trigger] begin.plus_days(k),
            ) {
                Outcome::Value((text, lines)) => cells@[k].text@ == text && cells@[k].lines
                    == lines && cells@[k].today == (begin.plus_days(k) == today),
                _ => false,
            },
        !(res is Fail),
        res is Value <==> plus_days_in_range(begin, calendar_days()) && forall|k: int|
            0 <= k < calendar_days() ==> day_cell_text(
                records@.map_values(|r: Record| r@),
                #[trigger] begin.plus_days(k),
            ) is Value,
{
    let mut cells: Vec<DayCell> = Vec::new();
    let mut day = begin;
    let mut x: usize = 0;
    while x < 35
        invariant
            x <= 35,
            records@.len() < usize::MAX,
            day.valid(),
            plus_days_in_range(begin, x as int),
            day == begin.plus_days(x as int),
            cells@.len() == x,
            forall|k: int|
                0 <= k < x ==> match day_cell_text(
                    records@.map_values(|r: Record| r@),
                    #[trigger] begin.plus_days(k),
                ) {
                    Outcome::Value((text, lines)) => cells@[k].text@ == text && cells@[k].lines
                        == lines && cells@[k].today == (begin.plus_days(k) == today),
                    _ => false,
                },
        decreases 35 - x,
    {
        match day_cell(records, day, today) {
            Outcome::Value(c) => {
                cells.push(c);
            },
            _ => {
                assert(!(day_cell_text(records@.map_values(|r: Record| r@), begin.plus_days(x as int))
                    is Value));
                return Outcome::Halt;
            },
        }
        if day.year == crate::time::MAX_YEAR && day.month == 12 && day.day == 31 {
            proof {
                lemma_range_stops(begin, x as int, 35);
            }
            return Outcome::Halt;
        }
        proof {
            lemma_range_extends(begin, x as int);
        }
        day = day.succ();
        x = x + 1;
    }
    Outcome::Value(cells)
}

/// A shift by `n` days within range, followed by one more day within
/// range, is a shift by `n + 1` days within range.
proof fn lemma_range_extends(d: Date, n: int)
    requires
        n >= 0,
        plus_days_in_range(d, n),
        !d.plus_days(n).is_max(),
        d.plus_days(n).valid(),
    ensures
        plus_days_in_range(d, n + 1),
        d.plus_days(n + 1) == d.plus_days(n).next_day(),
    decreases n,
{
    if n > 0 {
        assert(d.valid() && !d.is_max() && plus_days_in_range(d.next_day(), n - 1));
        assert(d.plus_days(n) == d.next_day().plus_days(n - 1));
        lemma_range_extends(d.next_day(), n - 1);
        assert(d.plus_days(n + 1) == d.next_day().plus_days(n));
    } else {
        assert(d.plus_days(0) == d);
        assert(d.next_day().valid());
        assert(plus_days_in_range(d.next_day(), 0));
        assert(d.next_day().plus_days(0) == d.next_day());
        assert(d.plus_days(1) == d.next_day().plus_days(0));
    }
}

/// Where the day `n` days on is the last representable one, no longer
/// shift is within range.
proof fn lemma_range_stops(d: Date, n: int, m: int)
    requires
        0 <= n < m,
        d.plus_days(n).is_max(),
    ensures
        !plus_days_in_range(d, m),
    decreases n,
{
    if n > 0 && plus_days_in_range(d, m) {
        lemma_range_stops(d.next_day(), n - 1, m - 1);
    }
}

// ------------------------------------------------------------------------
// The input line
// ------------------------------------------------------------------------

/// A key pressed at the input line.
#[derive(Clone, Copy, Debug, PartialEq, Eq, Structural)]
pub enum KeyInput {
    Char(char),
    Enter,
    Backspace,
    Other,
}

/// The input line `buf` without its last character: taking off a character
/// that is more than one byte long stops the program.
pub open spec fn line_without_last(buf: Seq<char>) -> Outcome<Seq<char>> {
    if buf.len() == 0 {
        Outcome::Value(buf)
    } else if (buf.last() as u32) < 0x80 {
        Outcome::Value(buf.drop_last())
    } else {
        Outcome::Halt
    }
}

/// The input line `buf` after the key `key`: a character is added, Enter
/// ends the line, Backspace takes off the last character.
pub open spec fn key_edit(buf: Seq<char>, key: KeyInput) -> Outcome<Seq<char>> {
    match key {
        KeyInput::Char(c) => Outcome::Value(buf.push(c)),
        KeyInput::Enter => Outcome::Value(buf.push('\n')),
        KeyInput::Backspace => line_without_last(buf),
        KeyInput::Other => Outcome::Value(buf),
    }
}

/// The input line `buf` without its last character (see
/// `line_without_last`).
fn drop_last_char(buf: String) -> (res: Outcome<String>)
    ensures
        match line_without_last(buf@) {
            Outcome::Value(v) => res matches Outcome::Value(s) && s@ == v,
            _ => res is Halt,
        },
{
    let mut v = to_chars(buf.as_str());
    if v.len() == 0 {
        return Outcome::Value(buf);
    }
    let last = v[v.len() - 1];
    if (last as u32) < 0x80 {
        v.pop();
        Outcome::Value(from_chars(v.as_slice()))
    } else {
        Outcome::Halt
    }
}

/// The input line `buf` after the key `key` (see `key_edit`).
pub fn handle_key(buf: String, key: KeyInput) -> (res: Outcome<String>)
    ensures
        match key_edit(buf@, key) {
            Outcome::Value(v) => res matches Outcome::Value(s) && s@ == v,
            _ => res is Halt,
        },
{
    match key {
        KeyInput::Char(c) => {
            let mut v = to_chars(buf.as_str());
            v.push(c);
            Outcome::Value(from_chars(v.as_slice()))
        },
        KeyInput::Enter => {
            let mut v = to_chars(buf.as_str());
            v.push('\n');
            Outcome::Value(from_chars(v.as_slice()))
        },
        KeyInput::Backspace => drop_last_char(buf),
        KeyInput::Other => Outcome::Value(buf),
    }
}

/// The input line after a key while errors are shown: when the line has
/// changed since the last look and errors are shown, the errors are
/// cleared and the key that was typed is taken back (see
/// `line_without_last`). The result tells whether the errors are cleared.
pub open spec fn line_after_errors(buf: Seq<char>, last: Seq<char>, has_errors: bool) -> Outcome<
    (Seq<char>, bool),
> {
    if buf != last && has_errors {
        match line_without_last(buf) {
            Outcome::Value(v) => Outcome::Value((v, true)),
            _ => Outcome::Halt,
        }
    } else {
        Outcome::Value((buf, false))
    }
}

/// The input line after a key while errors are shown (see
/// `line_after_errors`).
pub fn clear_errors_step(buf: String, last: &String, has_errors: bool) -> (res: Outcome<(String, bool)>)
    ensures
        match line_after_errors(buf@, last@, has_errors) {
            Outcome::Value((v, c)) => res matches Outcome::Value((s, d)) && s@ == v && d == c,
            _ => res is Halt,
        },
{
    let same = crate::text::chars_eq(to_chars(buf.as_str()).as_slice(), to_chars(last.as_str()).as_slice());
    if !same && has_errors {
        match drop_last_char(buf) {
            Outcome::Value(s) => Outcome::Value((s, true)),
            _ => Outcome::Halt,
        }
    } else {
        Outcome::Value((buf, false))
    }
}

// ------------------------------------------------------------------------
// Recurrences and shown records
// ------------------------------------------------------------------------

/// One part of a duration's text: the count and its unit, followed by a
/// space, where the count is not zero.
pub open spec fn fancy_part(n: int, unit: Seq<char>) -> Seq<char> {
    if n > 0 {
        nat_text(n as nat) + unit + seq![' ']
    } else {
        Seq::empty()
    }
}

/// The text that `fancy-duration` writes for a duration of `nanos`
/// nanoseconds (such as `1d` or `2h 30m`): `0` for none, otherwise its
/// years (of 360 days), months (of 30 days), weeks, days, hours, minutes,
/// seconds, milliseconds, microseconds and nanoseconds, each where it is not
/// zero, with the unit after the count and a space between parts.
pub open spec fn fancy_duration_text(nanos: int) -> Seq<char> {
    if nanos == 0 {
        seq!['0']
    } else {
        let sec = nanos / 1_000_000_000;
        let sub = nanos % 1_000_000_000;
        let year = 31_104_000int;
        let month = 2_592_000int;
        let week = 604_800int;
        let day = 86_400int;
        let r1 = sec % year;
        let r2 = r1 % month;
        let r3 = r2 % week;
        let r4 = r3 % day;
        let r5 = r4 % 3600;
        let parts = fancy_part(sec / year, seq!['y']) + fancy_part(r1 / month, seq!['m'])
            + fancy_part(r2 / week, seq!['w']) + fancy_part(r3 / day, seq!['d']) + fancy_part(
            r4 / 3600,
            seq!['h'],
        ) + fancy_part(r5 / 60, seq!['m']) + fancy_part(r5 % 60, seq!['s']) + fancy_part(
            sub / 1_000_000,
            seq!['m', 's'],
        ) + fancy_part((sub % 1_000_000) / 1000, seq!['u', 's']) + fancy_part(
            sub % 1000,
            seq!['n', 's'],
        );
        parts.drop_last()
    }
}

/// Whether `fancy-duration` can write a duration of `nanos` nanoseconds:
/// it reads the duration as whole seconds and nanoseconds, both unsigned,
/// and stops on a negative one or one beyond `i64::MAX` nanoseconds.
pub open spec fn fancy_writable(nanos: int) -> bool {
    0 <= nanos <= i64::MAX
}

/// Calls `FancyDuration::<chrono::Duration>::new` on the duration of
/// `secs` seconds and `nanos` nanoseconds, built by `chrono::TimeDelta::new`,
/// and writes it with `to_string`.
///
/// Writing unwraps the duration's seconds as a `u64` and its nanoseconds as
/// an `i64`, so the duration must be neither negative nor beyond
/// `i64::MAX` nanoseconds; `TimeDelta::new` takes every such duration. The
/// text breaks the duration down into units as `fancy_duration_text` says.
#[verifier::external_body]
fn fancy_text(secs: i64, nanos: u32) -> (res: Option<String>)
    requires
        nanos < NANOS_PER_SEC,
        fancy_writable(secs * NANOS_PER_SEC + nanos),
    ensures
        res is Some,
        res matches Some(s) ==> s@ == fancy_duration_text(secs * NANOS_PER_SEC + nanos),
{
    match chrono::TimeDelta::new(secs, nanos) {
        Some(d) => Some(fancy_duration::FancyDuration::new(d).to_string()),
        None => None,
    }
}

/// Writes the duration `d` as `fancy-duration` does, where it can (see
/// `fancy_writable`).
pub fn format_fancy(d: &Duration) -> (res: Option<String>)
    ensures
        fancy_writable(d@) ==> (res matches Some(s) && s@ == fancy_duration_text(d@)),
        !fancy_writable(d@) ==> res is None,
{
    let (secs, nanos) = d.seconds_and_nanos();
    if secs < 0 || secs > 9_223_372_036 || (secs == 9_223_372_036 && nanos > 854_775_807) {
        return None;
    }
    fancy_text(secs, nanos)
}

/// The rows of the list of recurrences: the recurrence key, the repetition
/// as `fancy-duration` writes it, and the detail.
pub open spec fn recurring_row(r: RecurringView) -> RowView {
    RowView {
        key: nat_text(r.recurrence_key as nat),
        when: fancy_duration_text(r.recurrence),
        detail: r.record.detail,
        style: RowStyle::Plain,
    }
}

/// The rows of the list of recurrences `records` (see `recurring_row`);
/// a repetition that `fancy-duration` cannot write stops the listing.
pub fn recurring_rows(records: &Vec<RecurringRecord>) -> (res: Outcome<Vec<EventRow>>)
    ensures
        !(res is Fail),
        res is Value <==> forall|i: int|
            0 <= i < records@.len() ==> fancy_writable(#[trigger] records@[i]@.recurrence),
        res matches Outcome::Value(v) ==> row_list(v@) == records@.map_values(
            |r: RecurringRecord| recurring_row(r@),
        ),
{
    let n = records.len();
    let mut out: Vec<EventRow> = Vec::new();
    let mut i: usize = 0;
    while i < n
        invariant
            n == records@.len(),
            i <= n,
            forall|k: int| 0 <= k < i ==> fancy_writable(#[trigger] records@[k]@.recurrence),
            row_list(out@) == records@.subrange(0, i as int).map_values(
                |r: RecurringRecord| recurring_row(r@),
            ),
        decreases n - i,
    {
        let r = &records[i];
        let ghost prev = out@;
        let when = match format_fancy(&r.recurrence()) {
            Some(w) => w,
            None => {
                return Outcome::Halt;
            },
        };
        let row = EventRow {
            key: from_chars(format_u64(r.recurrence_key()).as_slice()),
            when,
            detail: r.record_copy().detail(),
            style: RowStyle::Plain,
        };
        out.push(row);
        assert(row_list(out@) =~= row_list(prev).push(recurring_row(r@)));
        assert(records@.subrange(0, i + 1) =~= records@.subrange(0, i as int).push(*r));
        assert(records@.subrange(0, i + 1).map_values(|r: RecurringRecord| recurring_row(r@))
            =~= records@.subrange(0, i as int).map_values(|r: RecurringRecord| recurring_row(r@)).push(
            recurring_row(r@),
        ));
        i = i + 1;
    }
    assert(records@.subrange(0, n as int) =~= records@);
    Outcome::Value(out)
}

/// A row of a shown record: a name and a value.
#[derive(Debug)]
pub struct ShowRow {
    pub key: String,
    pub value: String,
}

/// The views of a list of rows of a shown record.
pub open spec fn show_list(v: Seq<ShowRow>) -> Seq<(Seq<char>, Seq<char>)> {
    v.map_values(|r: ShowRow| (r.key@, r.value@))
}

/// The name of a kind of record, as it is shown.
pub open spec fn kind_name(t: RecordType) -> Seq<char> {
    match t {
        RecordType::At => "At"@,
        RecordType::Schedule => "Schedule"@,
        RecordType::AllDay => "AllDay"@,
    }
}

/// A truth value, as it is shown.
pub open spec fn bool_text(b: bool) -> Seq<char> {
    if b {
        "true"@
    } else {
        "false"@
    }
}

/// The row of the placement of the record `r`: its time, or its span,
/// written `HH:MM` or `HH:MM - HH:MM`; none for a whole-day record. A
/// record without its placement stops the reading.
pub open spec fn placement_rows(r: RecordView) -> Outcome<Seq<(Seq<char>, Seq<char>)>> {
    match r.typ {
        RecordType::At => match r.at {
            Some(t) => Outcome::Value(seq![("at"@, hour_minute_text(t))]),
            None => Outcome::Halt,
        },
        RecordType::Schedule => match r.scheduled {
            Some((a, b)) => Outcome::Value(
                seq![("scheduled"@, hour_minute_text(a) + " - "@ + hour_minute_text(b))],
            ),
            None => Outcome::Halt,
        },
        RecordType::AllDay => Outcome::Value(Seq::empty()),
    }
}

/// The rows that show the record `r`: its key, day, whether it is done,
/// detail and kind, then its placement (see `placement_rows`).
pub open spec fn record_show_rows(r: RecordView) -> Outcome<Seq<(Seq<char>, Seq<char>)>> {
    match placement_rows(r) {
        Outcome::Value(p) => Outcome::Value(
            seq![
                ("id"@, nat_text(r.primary_key as nat)),
                ("date"@, date_text(r.date)),
                ("completed"@, bool_text(r.completed)),
                ("detail"@, r.detail),
                ("type"@, kind_name(r.typ)),
            ] + p,
        ),
        other => other,
    }
}

/// The rows that show the recurrence `r`: its key, its record's day, the
/// repetition as `fancy-duration` writes it, whether it is done, detail
/// and kind, then its record's placement (see `placement_rows`). A
/// repetition that `fancy-duration` cannot write stops the reading.
pub open spec fn recurring_show_rows(r: RecurringView) -> Outcome<Seq<(Seq<char>, Seq<char>)>> {
    if !fancy_writable(r.recurrence) {
        Outcome::Halt
    } else {
        recurring_rows_placed(r)
    }
}

/// The rows that show the recurrence `r` whose repetition can be written.
pub open spec fn recurring_rows_placed(r: RecurringView) -> Outcome<Seq<(Seq<char>, Seq<char>)>> {
    match placement_rows(r.record) {
        Outcome::Value(p) => Outcome::Value(
            seq![
                ("id"@, nat_text(r.recurrence_key as nat)),
                ("date"@, date_text(r.record.date)),
                ("recurrence"@, fancy_duration_text(r.recurrence)),
                ("completed"@, bool_text(r.record.completed)),
                ("detail"@, r.record.detail),
                ("type"@, kind_name(r.record.typ)),
            ] + p,
        ),
        other => other,
    }
}

/// Appends a row of a shown record.
fn push_row(rows: &mut Vec<ShowRow>, key: &str, value: String)
    ensures
        show_list(final(rows)@) == show_list(old(rows)@).push((key@, value@)),
{
    let ghost prev = rows@;
    rows.push(ShowRow { key: key.to_string(), value });
    assert(show_list(rows@) =~= show_list(prev).push((key@, value@)));
}

/// The placement rows of the record `r` (see `placement_rows`).
fn placement_rows_exec(rows: &mut Vec<ShowRow>, r: &Record) -> (res: bool)
    ensures
        match placement_rows(r@) {
            Outcome::Value(p) => res && show_list(final(rows)@) == show_list(old(rows)@) + p,
            _ => !res,
        },
{
    proof {
        reveal_strlit(" - ");
    }
    let ghost prev = show_list(rows@);
    match r.record_type() {
        RecordType::At => match r.at() {
            Some(t) => {
                push_row(rows, "at", from_chars(format_hour_minute(&t).as_slice()));
                assert(show_list(rows@) =~= prev + seq![("at"@, hour_minute_text(t@))]);
                true
            },
            None => false,
        },
        RecordType::Schedule => match r.scheduled() {
            Some((a, b)) => {
                let mut v = format_hour_minute(&a);
                let dash = to_chars(" - ");
                push_all(&mut v, dash.as_slice());
                let w = format_hour_minute(&b);
                push_all(&mut v, w.as_slice());
                push_row(rows, "scheduled", from_chars(v.as_slice()));
                assert(show_list(rows@) =~= prev + seq![
                    ("scheduled"@, hour_minute_text(a@) + " - "@ + hour_minute_text(b@)),
                ]);
                true
            },
            None => false,
        },
        RecordType::AllDay => {
            assert(show_list(rows@) =~= prev + Seq::<(Seq<char>, Seq<char>)>::empty());
            true
        },
    }
}

/// The name of a kind of record, as it is shown.
fn kind_name_exec(t: RecordType) -> (res: String)
    ensures
        res@ == kind_name(t),
{
    match t {
        RecordType::At => "At".to_string(),
        RecordType::Schedule => "Schedule".to_string(),
        RecordType::AllDay => "AllDay".to_string(),
    }
}

/// A truth value, as it is shown.
fn bool_text_exec(b: bool) -> (res: String)
    ensures
        res@ == bool_text(b),
{
    if b {
        "true".to_string()
    } else {
        "false".to_string()
    }
}

/// The rows that show the record `r` (see `record_show_rows`).
pub fn show_record(r: &Record) -> (res: Outcome<Vec<ShowRow>>)
    requires
        r@.date.valid(),
    ensures
        match record_show_rows(r@) {
            Outcome::Value(v) => res matches Outcome::Value(rows) && show_list(rows@) == v,
            _ => res is Halt,
        },
{
    let mut rows: Vec<ShowRow> = Vec::new();
    push_row(&mut rows, "id", from_chars(format_u64(r.primary_key()).as_slice()));
    push_row(&mut rows, "date", from_chars(format_date(r.date()).as_slice()));
    push_row(&mut rows, "completed", bool_text_exec(r.completed()));
    push_row(&mut rows, "detail", r.detail());
    push_row(&mut rows, "type", kind_name_exec(r.record_type()));
    let ghost head = show_list(rows@);
    assert(head =~= seq![
        ("id"@, nat_text(r@.primary_key as nat)),
        ("date"@, date_text(r@.date)),
        ("completed"@, bool_text(r@.completed)),
        ("detail"@, r@.detail),
        ("type"@, kind_name(r@.typ)),
    ]);
    if placement_rows_exec(&mut rows, r) {
        Outcome::Value(rows)
    } else {
        Outcome::Halt
    }
}

/// The rows that show the recurrence `r` (see `recurring_show_rows`).
pub fn show_recurring(r: &RecurringRecord) -> (res: Outcome<Vec<ShowRow>>)
    requires
        r@.record.date.valid(),
    ensures
        match recurring_show_rows(r@) {
            Outcome::Value(v) => res matches Outcome::Value(rows) && show_list(rows@) == v,
            _ => res is Halt,
        },
{
    let inner = r.record_copy();
    let mut rows: Vec<ShowRow> = Vec::new();
    push_row(&mut rows, "id", from_chars(format_u64(r.recurrence_key()).as_slice()));
    push_row(&mut rows, "date", from_chars(format_date(inner.date()).as_slice()));
    let recurrence = match format_fancy(&r.recurrence()) {
        Some(t) => t,
        None => {
            return Outcome::Halt;
        },
    };
    push_row(&mut rows, "recurrence", recurrence);
    push_row(&mut rows, "completed", bool_text_exec(inner.completed()));
    push_row(&mut rows, "detail", inner.detail());
    push_row(&mut rows, "type", kind_name_exec(inner.record_type()));
    let ghost head = show_list(rows@);
    assert(head =~= seq![
        ("id"@, nat_text(r@.recurrence_key as nat)),
        ("date"@, date_text(r@.record.date)),
        ("recurrence"@, fancy_duration_text(r@.recurrence)),
        ("completed"@, bool_text(r@.record.completed)),
        ("detail"@, r@.record.detail),
        ("type"@, kind_name(r@.record.typ)),
    ]);
    if placement_rows_exec(&mut rows, &inner) {
        Outcome::Value(rows)
    } else {
        Outcome::Halt
    }
}

// ------------------------------------------------------------------------
// The listing of the command line
// ------------------------------------------------------------------------

/// The last `w` decimal digits of `n`, zero-padded.
pub open spec fn fixed_digits(n: nat, w: nat) -> Seq<char>
    decreases w,
{
    if w == 0 {
        Seq::empty()
    } else {
        fixed_digits(n / 10, (w - 1) as nat).push(digit_char((n % 10) as int))
    }
}

/// Appends the last `w` decimal digits of `n`, zero-padded.
fn push_fixed(v: &mut Vec<char>, n: u64, w: u64)
    ensures
        final(v)@ == old(v)@ + fixed_digits(n as nat, w as nat),
    decreases w,
{
    if w > 0 {
        push_fixed(v, n / 10, w - 1);
        v.push(digit_to_char(n % 10));
        assert(final(v)@ =~= old(v)@ + fixed_digits(n as nat, w as nat));
    } else {
        assert(final(v)@ =~= old(v)@ + fixed_digits(n as nat, w as nat));
    }
}

/// The fraction of a second `ns` (in nanoseconds) as a time of day writes
/// it: nothing when there is none, otherwise a point and the fewest of
/// three, six or nine digits that hold it.
pub open spec fn fraction_text(ns: int) -> Seq<char> {
    if ns == 0 {
        Seq::empty()
    } else if ns % 1_000_000 == 0 {
        seq!['.'] + fixed_digits((ns / 1_000_000) as nat, 3)
    } else if ns % 1_000 == 0 {
        seq!['.'] + fixed_digits((ns / 1_000) as nat, 6)
    } else {
        seq!['.'] + fixed_digits(ns as nat, 9)
    }
}

/// A time of day written as `HH:MM:SS` and its fraction of a second, as
/// `chrono` writes a time of day.
pub open spec fn clock_text(t: int) -> Seq<char> {
    two_digits(t / (3600 * NANOS_PER_SEC as int)) + seq![':'] + two_digits(
        (t / (60 * NANOS_PER_SEC as int)) % 60,
    ) + seq![':'] + two_digits((t / (NANOS_PER_SEC as int)) % 60) + fraction_text(
        t % (NANOS_PER_SEC as int),
    )
}

/// Writes a time of day (see `clock_text`).
pub fn format_clock(t: &Time) -> (res: Vec<char>)
    ensures
        res@ == clock_text(t@),
{
    let mut v: Vec<char> = Vec::new();
    push_two(&mut v, t.hour());
    v.push(':');
    push_two(&mut v, t.minute());
    v.push(':');
    push_two(&mut v, t.second());
    let ghost head = v@;
    let ns = t.nanosecond();
    if ns == 0 {
    } else if ns % 1_000_000 == 0 {
        v.push('.');
        push_fixed(&mut v, (ns / 1_000_000) as u64, 3);
    } else if ns % 1_000 == 0 {
        v.push('.');
        push_fixed(&mut v, (ns / 1_000) as u64, 6);
    } else {
        v.push('.');
        push_fixed(&mut v, ns as u64, 9);
    }
    assert(v@ =~= head + fraction_text(t@ % (NANOS_PER_SEC as int)));
    v
}

/// A detail as a listing writes it: its first 20 characters, followed by
/// `...` when it is longer than 20 bytes.
pub open spec fn short_text(s: Seq<char>) -> Seq<char> {
    let head = if s.len() <= 20 {
        s
    } else {
        s.take(20)
    };
    if vstd::utf8::encode_utf8(s).len() > 20 {
        head + "..."@
    } else {
        head
    }
}

/// Cuts a detail down for a listing (see `short_text`).
pub fn short_detail(detail: &String) -> (res: String)
    ensures
        res@ == short_text(detail@),
{
    let chars = to_chars(detail.as_str());
    let n: usize = if chars.len() <= 20 {
        chars.len()
    } else {
        20
    };
    let mut v: Vec<char> = Vec::new();
    let mut i: usize = 0;
    while i < n
        invariant
            n <= chars@.len(),
            chars@ == detail@,
            i <= n,
            v@ == chars@.take(i as int),
        decreases n - i,
    {
        v.push(chars[i]);
        i = i + 1;
        assert(v@ =~= chars@.take(i as int));
    }
    proof {
        reveal_strlit("...");
    }
    if chars.len() <= 20 {
        assert(chars@.take(n as int) =~= chars@);
    }
    let ghost head = v@;
    assert(head == (if detail@.len() <= 20 {
        detail@
    } else {
        detail@.take(20)
    }));
    let bytes = detail.as_str().as_bytes();
    assert(bytes@ == vstd::utf8::encode_utf8(detail@));
    if bytes.len() > 20 {
        let dots = to_chars("...");
        push_all(&mut v, dots.as_slice());
    }
    from_chars(v.as_slice())
}

/// A line of the listing of records: when, what, the key, the day, and
/// whether it is done.
#[derive(Debug)]
pub struct ListingRow {
    pub when: String,
    pub detail: String,
    pub key: String,
    pub date: String,
    pub done: String,
}

/// The abstract content of a line of the listing of records.
pub struct ListingView {
    pub when: Seq<char>,
    pub detail: Seq<char>,
    pub key: Seq<char>,
    pub date: Seq<char>,
    pub done: Seq<char>,
}

impl View for ListingRow {
    type V = ListingView;

    open spec fn view(&self) -> ListingView {
        ListingView {
            when: self.when@,
            detail: self.detail@,
            key: self.key@,
            date: self.date@,
            done: self.done@,
        }
    }
}

/// The line that lists the record `r`: its time, its span written
/// `HH:MM:SS to HH:MM:SS`, or `All Day` for a whole-day record (none for a
/// record with neither), then its detail cut down, its key, its day and `X`
/// when it is done.
pub open spec fn listing_of(r: RecordView) -> Option<ListingView> {
    let when = match r.at {
        Some(t) => Some(clock_text(t)),
        None => match r.scheduled {
            Some((a, b)) => Some(clock_text(a) + " to "@ + clock_text(b)),
            None => if r.typ == RecordType::AllDay {
                Some("All Day"@)
            } else {
                None
            },
        },
    };
    match when {
        Some(w) => Some(
            ListingView {
                when: w,
                detail: short_text(r.detail),
                key: nat_text(r.primary_key as nat),
                date: date_text(r.date),
                done: if r.completed {
                    "X"@
                } else {
                    ""@
                },
            },
        ),
        None => None,
    }
}

/// The line that lists the record `r` (see `listing_of`).
pub fn listing_row(r: &Record) -> (res: Option<ListingRow>)
    requires
        r@.date.valid(),
    ensures
        match listing_of(r@) {
            Some(l) => res matches Some(row) && row@ == l,
            None => res is None,
        },
{
    proof {
        reveal_strlit(" to ");
        reveal_strlit("All Day");
    }
    let when = match r.at() {
        Some(t) => format_clock(&t),
        None => match r.scheduled() {
            Some((a, b)) => {
                let mut v = format_clock(&a);
                let mid = to_chars(" to ");
                push_all(&mut v, mid.as_slice());
                let end = format_clock(&b);
                push_all(&mut v, end.as_slice());
                v
            },
            None => if r.record_type() == RecordType::AllDay {
                to_chars("All Day")
            } else {
                return None;
            },
        },
    };
    let done = if r.completed() {
        "X".to_string()
    } else {
        "".to_string()
    };
    Some(
        ListingRow {
            when: from_chars(when.as_slice()),
            detail: short_detail(&r.detail()),
            key: from_chars(format_u64(r.primary_key()).as_slice()),
            date: from_chars(format_date(r.date()).as_slice()),
            done,
        },
    )
}

/// A line of the listing of recurrences: the repetition, what, and the
/// recurrence key.
#[derive(Debug)]
pub struct RecurrenceLine {
    pub interval: String,
    pub detail: String,
    pub key: String,
}

/// The line that lists the recurrence `r`: its repetition as
/// `fancy-duration` writes it, its record's detail cut down, and its key.
pub open spec fn recurrence_line_of(r: RecurringView) -> (Seq<char>, Seq<char>, Seq<char>) {
    (fancy_duration_text(r.recurrence), short_text(r.record.detail), nat_text(r.recurrence_key as nat))
}

/// The line that lists the recurrence `r` (see `recurrence_line_of`);
/// none where `fancy-duration` cannot write its repetition.
pub fn recurrence_line(r: &RecurringRecord) -> (res: Option<RecurrenceLine>)
    ensures
        res is Some <==> fancy_writable(r@.recurrence),
        res matches Some(l) ==> (l.interval@, l.detail@, l.key@) == recurrence_line_of(r@),
{
    let interval = match format_fancy(&r.recurrence()) {
        Some(t) => t,
        None => {
            return None;
        },
    };
    Some(
        RecurrenceLine {
            interval,
            detail: short_detail(&r.record_copy().detail()),
            key: from_chars(format_u64(r.recurrence_key()).as_slice()),
        },
    )
}

} // verus!
