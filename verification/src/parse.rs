//! Dates and times as a user types them: `2018-10-23`, `10/23`, `23rd`,
//! `today`; `8pm`, `8:30`, `20:15:00`, `noon`.
//!
//! Each reader takes what it needs of the clock as an argument and tells
//! apart three endings: a value, an error, and the inputs on which the
//! program stops ("Invalid Date", "Invalid Time").

use crate::error::{Outcome, SaturnError};
use crate::text::{
    chars_are, chars_end_with, chars_lowercase, chars_remove_all, ends_with, is_digit,
    lemma_split_without_separator, lowercase, parse_i32, parse_signed, parse_u32, parse_unsigned,
    remove_all, split_at_any, split_by, to_chars, trim, trim_chars,
};
use crate::time::{hms_nanos, now, valid_ymd, Date, Time};
use vstd::prelude::*;

verus! {

// ------------------------------------------------------------------------
// Dates
// ------------------------------------------------------------------------

/// The characters that separate the parts of a date.
pub open spec fn date_separators() -> Seq<char> {
    seq!['/', '.', '-']
}

/// `p` with its ordinal ending taken out: the first of `th`, `st`, `rd`,
/// `nd` that `p` ends with is removed wherever it occurs in `p`.
pub open spec fn without_ordinal(p: Seq<char>) -> Seq<char> {
    if ends_with(p, "th"@) {
        remove_all(p, "th"@)
    } else if ends_with(p, "st"@) {
        remove_all(p, "st"@)
    } else if ends_with(p, "rd"@) {
        remove_all(p, "rd"@)
    } else if ends_with(p, "nd"@) {
        remove_all(p, "nd"@)
    } else {
        p
    }
}

/// The day `y-m-d`; the program stops when it names no calendar day.
pub open spec fn checked_date(y: int, m: int, d: int) -> Outcome<Date> {
    if valid_ymd(y, m, d) {
        Outcome::Value(Date { year: y as i32, month: m as u32, day: d as u32 })
    } else {
        Outcome::Halt
    }
}

/// A `u32` as `str::parse` reads it.
pub open spec fn read_u32(s: Seq<char>) -> Option<int> {
    parse_unsigned(s, u32::MAX as int)
}

/// A date written with numbers: `year-month-day`, `month-day` in the
/// current year, or a day (`23`, `23rd`) of the current month; the parts
/// are separated by `/`, `.` or `-`.
pub open spec fn numeric_date(s: Seq<char>, today: Date) -> Outcome<Date> {
    let parts = split_by(s, date_separators());
    if parts.len() == 3 {
        match (
            parse_signed(parts[0], i32::MIN as int, i32::MAX as int),
            read_u32(parts[1]),
            read_u32(parts[2]),
        ) {
            (Some(y), Some(m), Some(d)) => checked_date(y, m, d),
            _ => Outcome::Fail(SaturnError::InvalidNumber),
        }
    } else if parts.len() == 2 {
        match (read_u32(parts[0]), read_u32(parts[1])) {
            (Some(m), Some(d)) => checked_date(today.year as int, m, d),
            _ => Outcome::Fail(SaturnError::InvalidNumber),
        }
    } else if parts.len() == 1 {
        match read_u32(without_ordinal(trim(parts[0]))) {
            Some(d) => checked_date(today.year as int, today.month as int, d),
            None => Outcome::Fail(SaturnError::InvalidNumber),
        }
    } else {
        Outcome::Fail(SaturnError::CannotParseDate)
    }
}

/// The date that `s` names when the local date is `today`: `today`,
/// `tomorrow` and `yesterday` in any case, or a numeric date.
pub open spec fn date_outcome(s: Seq<char>, today: Date) -> Outcome<Date> {
    let l = lowercase(s);
    if l == "today"@ {
        Outcome::Value(today)
    } else if l == "tomorrow"@ {
        if today.is_max() {
            Outcome::Halt
        } else {
            Outcome::Value(today.next_day())
        }
    } else if l == "yesterday"@ {
        if today.is_min() {
            Outcome::Halt
        } else {
            Outcome::Value(today.prev_day())
        }
    } else {
        numeric_date(s, today)
    }
}

/// The day `y-m-d`, or a stop when it names no calendar day.
fn checked_date_exec(y: i32, m: u32, d: u32) -> (res: Outcome<Date>)
    ensures
        res == checked_date(y as int, m as int, d as int),
{
    match Date::from_ymd_opt(y, m, d) {
        Some(date) => Outcome::Value(date),
        None => Outcome::Halt,
    }
}

/// Takes the ordinal ending out of a day number.
fn strip_ordinal(p: &[char]) -> (res: Vec<char>)
    ensures
        res@ == without_ordinal(p@),
{
    let th = to_chars("th");
    let st = to_chars("st");
    let rd = to_chars("rd");
    let nd = to_chars("nd");
    if chars_end_with(p, th.as_slice()) {
        chars_remove_all(p, th.as_slice())
    } else if chars_end_with(p, st.as_slice()) {
        chars_remove_all(p, st.as_slice())
    } else if chars_end_with(p, rd.as_slice()) {
        chars_remove_all(p, rd.as_slice())
    } else if chars_end_with(p, nd.as_slice()) {
        chars_remove_all(p, nd.as_slice())
    } else {
        vstd::slice::slice_to_vec(p)
    }
}

/// Reads a date written with numbers (see `numeric_date`).
pub fn read_numeric_date(s: &[char], today: Date) -> (res: Outcome<Date>)
    ensures
        res == numeric_date(s@, today),
{
    let seps: Vec<char> = vec!['/', '.', '-'];
    assert(seps@ =~= date_separators());
    let parts = split_at_any(s, seps.as_slice());
    if parts.len() == 3 {
        let y = parse_i32(parts[0].as_slice());
        let m = parse_u32(parts[1].as_slice());
        let d = parse_u32(parts[2].as_slice());
        match (y, m, d) {
            (Some(y), Some(m), Some(d)) => checked_date_exec(y, m, d),
            _ => Outcome::Fail(SaturnError::InvalidNumber),
        }
    } else if parts.len() == 2 {
        let m = parse_u32(parts[0].as_slice());
        let d = parse_u32(parts[1].as_slice());
        match (m, d) {
            (Some(m), Some(d)) => checked_date_exec(today.year, m, d),
            _ => Outcome::Fail(SaturnError::InvalidNumber),
        }
    } else if parts.len() == 1 {
        let t = trim_chars(parts[0].as_slice());
        let p = strip_ordinal(t.as_slice());
        match parse_u32(p.as_slice()) {
            Some(d) => checked_date_exec(today.year, today.month, d),
            None => Outcome::Fail(SaturnError::InvalidNumber),
        }
    } else {
        Outcome::Fail(SaturnError::CannotParseDate)
    }
}

/// Reads the date that `s` names when the local date is `today`.
pub fn read_date(s: &str, today: Date) -> (res: Outcome<Date>)
    requires
        today.valid(),
    ensures
        res == date_outcome(s@, today),
{
    let chars = to_chars(s);
    let l = chars_lowercase(chars.as_slice());
    if chars_are(l.as_slice(), "today") {
        Outcome::Value(today)
    } else if chars_are(l.as_slice(), "tomorrow") {
        if today.year == crate::time::MAX_YEAR && today.month == 12 && today.day == 31 {
            Outcome::Halt
        } else {
            Outcome::Value(today.succ())
        }
    } else if chars_are(l.as_slice(), "yesterday") {
        if today.year == crate::time::MIN_YEAR && today.month == 1 && today.day == 1 {
            Outcome::Halt
        } else {
            Outcome::Value(today.pred())
        }
    } else {
        read_numeric_date(chars.as_slice(), today)
    }
}

/// The result the user sees for a date outcome: a stop of the program is
/// reported as `InvalidDate`.
pub open spec fn date_result(o: Outcome<Date>) -> Result<Date, SaturnError> {
    match o {
        Outcome::Value(d) => Ok(d),
        Outcome::Fail(e) => Err(e),
        Outcome::Halt => Err(SaturnError::InvalidDate),
    }
}

/// Reads the date that `s` names, relative to the local date on the clock.
///
/// Where the numbers name no calendar day the result is `InvalidDate`.
pub fn parse_date(s: String) -> (res: Result<Date, SaturnError>)
    ensures
        exists|today: Date| today.valid() && res == date_result(#[trigger] date_outcome(s@, today)),
{
    let today = now().date;
    let o = read_date(s.as_str(), today);
    let ghost go = o;
    let res = match o {
        Outcome::Value(d) => Ok(d),
        Outcome::Fail(e) => Err(e),
        Outcome::Halt => Err(SaturnError::InvalidDate),
    };
    assert(res == date_result(date_outcome(s@, today)));
    res
}

// ------------------------------------------------------------------------
// Times
// ------------------------------------------------------------------------

/// The index of the first ASCII digit of `s` at or after `i` (the length
/// of `s` when there is none).
pub open spec fn next_digit(s: Seq<char>, i: int) -> int
    decreases s.len() - i,
{
    if i < 0 || i >= s.len() {
        s.len() as int
    } else if is_digit(s[i]) {
        i
    } else {
        next_digit(s, i + 1)
    }
}

/// The index of the first character of `s` at or after `i` that is no
/// ASCII digit (the length of `s` when there is none).
pub open spec fn next_non_digit(s: Seq<char>, i: int) -> int
    decreases s.len() - i,
{
    if i < 0 || i >= s.len() {
        s.len() as int
    } else if !is_digit(s[i]) {
        i
    } else {
        next_non_digit(s, i + 1)
    }
}

/// What the pattern `(\d+)(\D*)` captures in `s`: its first run of digits
/// and the non-digits right after it.
pub open spec fn digits_then_rest(s: Seq<char>) -> Option<(Seq<char>, Seq<char>)> {
    let p = next_digit(s, 0);
    if p >= s.len() {
        None
    } else {
        let e = next_non_digit(s, p);
        Some((s.subrange(p, e), s.subrange(e, next_digit(s, e))))
    }
}

/// What the pattern `(\d+)(\D+)` captures in `s`: as `digits_then_rest`,
/// when at least one non-digit follows the first run of digits.
pub open spec fn digits_then_letters(s: Seq<char>) -> Option<(Seq<char>, Seq<char>)> {
    match digits_then_rest(s) {
        Some((d, r)) => if r.len() > 0 {
            Some((d, r))
        } else {
            None
        },
        None => None,
    }
}

/// The time `h:m`; the program stops when it is out of range.
pub open spec fn clock_time(h: int, m: int) -> Outcome<int> {
    if 0 <= h < 24 && 0 <= m < 60 {
        Outcome::Value(hms_nanos(h, m, 0))
    } else {
        Outcome::Halt
    }
}

/// `h:m` read on a twelve-hour clock, in the afternoon when `pm` holds;
/// hours above twelve are taken as they are.
pub open spec fn twelve_hour(pm: bool, h: int, m: int) -> Outcome<int> {
    let add = if pm {
        12int
    } else {
        0int
    };
    clock_time(
        if h > 12 {
            h
        } else if h == 12 {
            add
        } else {
            h + add
        },
        m,
    )
}

/// `h:m` with no `am` or `pm`: on a date that is today it falls in the
/// current half of the day (`afternoon`), otherwise it is a 24-hour time.
pub open spec fn time_period(h: int, m: int, today: bool, afternoon: bool) -> Outcome<int> {
    if today {
        twelve_hour(afternoon, h, m)
    } else {
        clock_time(h, m)
    }
}

/// `h:m` followed by the designation `d`: `am`, `pm` (lower or upper case)
/// or nothing.
pub open spec fn designated(h: int, m: int, d: Seq<char>, today: bool, afternoon: bool) -> Outcome<
    int,
> {
    if d == "pm"@ || d == "PM"@ {
        twelve_hour(true, h, m)
    } else if d == "am"@ || d == "AM"@ {
        twelve_hour(false, h, m)
    } else if d.len() == 0 {
        time_period(h, m, today, afternoon)
    } else {
        Outcome::Fail(SaturnError::CannotParseTime)
    }
}

/// The time of day, in nanoseconds since midnight, that `s` names:
/// `midnight`, `noon`, `h:m:s`, `h:m` with an optional `am`/`pm`, or an
/// hour with an optional `am`/`pm`; the parts are separated by `:` or `.`.
pub open spec fn time_outcome(s: Seq<char>, today: bool, afternoon: bool) -> Outcome<int> {
    let t = trim(s);
    let l = lowercase(t);
    if l == "midnight"@ {
        Outcome::Value(0)
    } else if l == "noon"@ {
        Outcome::Value(hms_nanos(12, 0, 0))
    } else {
        let parts = split_by(t, seq![':', '.']);
        if parts.len() == 3 {
            match (read_u32(parts[0]), read_u32(parts[1]), read_u32(parts[2])) {
                (Some(h), Some(m), Some(sec)) => if h < 24 && m < 60 && sec < 60 {
                    Outcome::Value(hms_nanos(h, m, sec))
                } else {
                    Outcome::Halt
                },
                _ => Outcome::Fail(SaturnError::InvalidNumber),
            }
        } else if parts.len() == 2 {
            match digits_then_letters(parts[1]) {
                Some((digits, d)) => match (read_u32(parts[0]), read_u32(digits)) {
                    (Some(h), Some(m)) => designated(h, m, d, today, afternoon),
                    _ => Outcome::Fail(SaturnError::InvalidNumber),
                },
                None => match (read_u32(parts[0]), read_u32(parts[1])) {
                    (Some(h), Some(m)) => time_period(h, m, today, afternoon),
                    _ => Outcome::Fail(SaturnError::InvalidNumber),
                },
            }
        } else if parts.len() == 1 {
            match digits_then_rest(parts[0]) {
                Some((digits, d)) => match read_u32(digits) {
                    Some(h) => designated(h, 0, d, today, afternoon),
                    None => Outcome::Fail(SaturnError::InvalidNumber),
                },
                None => Outcome::Fail(SaturnError::CannotParseTime),
            }
        } else {
            Outcome::Fail(SaturnError::CannotParseTime)
        }
    }
}

/// A time outcome with the time given as nanoseconds since midnight.
pub open spec fn outcome_nanos(o: Outcome<Time>) -> Outcome<int> {
    match o {
        Outcome::Value(t) => Outcome::Value(t@),
        Outcome::Fail(e) => Outcome::Fail(e),
        Outcome::Halt => Outcome::Halt,
    }
}

/// The first index at or after `i` whose character is (`digit`) or is not
/// an ASCII digit.
fn scan_digits(s: &[char], i: usize, digit: bool) -> (res: usize)
    requires
        i <= s@.len(),
    ensures
        res == (if digit {
            next_digit(s@, i as int)
        } else {
            next_non_digit(s@, i as int)
        }),
        i <= res <= s@.len(),
    decreases s@.len() - i,
{
    if i >= s.len() {
        s.len()
    } else if crate::text::char_is_digit(s[i]) == digit {
        i
    } else {
        scan_digits(s, i + 1, digit)
    }
}

/// The captures of `(\d+)(\D*)` in `s` (see `digits_then_rest`).
fn capture_digits(s: &[char]) -> (res: Option<(Vec<char>, Vec<char>)>)
    ensures
        match digits_then_rest(s@) {
            Some((d, r)) => res matches Some(p) && p.0@ == d && p.1@ == r,
            None => res is None,
        },
{
    let p = scan_digits(s, 0, true);
    if p >= s.len() {
        None
    } else {
        let e = scan_digits(s, p, false);
        let f = scan_digits(s, e, true);
        let d = vstd::slice::slice_to_vec(vstd::slice::slice_subrange(s, p, e));
        let r = vstd::slice::slice_to_vec(vstd::slice::slice_subrange(s, e, f));
        Some((d, r))
    }
}

/// The time `h:m`, or a stop when it is out of range.
fn clock_time_exec(h: u32, m: u32) -> (res: Outcome<Time>)
    ensures
        outcome_nanos(res) == clock_time(h as int, m as int),
{
    match Time::from_hms_opt(h, m, 0) {
        Some(t) => Outcome::Value(t),
        None => Outcome::Halt,
    }
}

/// `h:m` on a twelve-hour clock (see `twelve_hour`).
fn twelve_hour_exec(pm: bool, h: u32, m: u32) -> (res: Outcome<Time>)
    ensures
        outcome_nanos(res) == twelve_hour(pm, h as int, m as int),
{
    let add: u32 = if pm {
        12
    } else {
        0
    };
    let hour = if h > 12 {
        h
    } else if h == 12 {
        add
    } else {
        h + add
    };
    clock_time_exec(hour, m)
}

/// `h:m` with no designation (see `time_period`).
fn time_period_exec(h: u32, m: u32, today: bool, afternoon: bool) -> (res: Outcome<Time>)
    ensures
        outcome_nanos(res) == time_period(h as int, m as int, today, afternoon),
{
    if today {
        twelve_hour_exec(afternoon, h, m)
    } else {
        clock_time_exec(h, m)
    }
}

/// `h:m` with the designation `d` (see `designated`).
fn designated_exec(h: u32, m: u32, d: &[char], today: bool, afternoon: bool) -> (res: Outcome<
    Time,
>)
    ensures
        outcome_nanos(res) == designated(h as int, m as int, d@, today, afternoon),
{
    if chars_are(d, "pm") || chars_are(d, "PM") {
        twelve_hour_exec(true, h, m)
    } else if chars_are(d, "am") || chars_are(d, "AM") {
        twelve_hour_exec(false, h, m)
    } else if d.len() == 0 {
        time_period_exec(h, m, today, afternoon)
    } else {
        Outcome::Fail(SaturnError::CannotParseTime)
    }
}

/// Reads the time of day that `s` names; `today` says whether the time is
/// for the current date and `afternoon` whether the clock is past noon.
pub fn read_time(s: &str, today: bool, afternoon: bool) -> (res: Outcome<Time>)
    ensures
        outcome_nanos(res) == time_outcome(s@, today, afternoon),
{
    let raw = to_chars(s);
    let t = trim_chars(raw.as_slice());
    let l = chars_lowercase(t.as_slice());
    if chars_are(l.as_slice(), "midnight") {
        return Outcome::Value(Time::midnight());
    }
    if chars_are(l.as_slice(), "noon") {
        return match Time::from_hms_opt(12, 0, 0) {
            Some(noon) => Outcome::Value(noon),
            None => Outcome::Halt,
        };
    }
    let seps: Vec<char> = vec![':', '.'];
    assert(seps@ =~= seq![':', '.']);
    let parts = split_at_any(t.as_slice(), seps.as_slice());
    if parts.len() == 3 {
        let h = parse_u32(parts[0].as_slice());
        let m = parse_u32(parts[1].as_slice());
        let sec = parse_u32(parts[2].as_slice());
        match (h, m, sec) {
            (Some(h), Some(m), Some(sec)) => match Time::from_hms_opt(h, m, sec) {
                Some(time) => Outcome::Value(time),
                None => Outcome::Halt,
            },
            _ => Outcome::Fail(SaturnError::InvalidNumber),
        }
    } else if parts.len() == 2 {
        match capture_digits(parts[1].as_slice()) {
            Some((digits, d)) if d.len() > 0 => {
                let h = parse_u32(parts[0].as_slice());
                let m = parse_u32(digits.as_slice());
                match (h, m) {
                    (Some(h), Some(m)) => designated_exec(h, m, d.as_slice(), today, afternoon),
                    _ => Outcome::Fail(SaturnError::InvalidNumber),
                }
            },
            _ => {
                let h = parse_u32(parts[0].as_slice());
                let m = parse_u32(parts[1].as_slice());
                match (h, m) {
                    (Some(h), Some(m)) => time_period_exec(h, m, today, afternoon),
                    _ => Outcome::Fail(SaturnError::InvalidNumber),
                }
            },
        }
    } else if parts.len() == 1 {
        match capture_digits(parts[0].as_slice()) {
            Some((digits, d)) => match parse_u32(digits.as_slice()) {
                Some(h) => designated_exec(h, 0, d.as_slice(), today, afternoon),
                None => Outcome::Fail(SaturnError::InvalidNumber),
            },
            None => Outcome::Fail(SaturnError::CannotParseTime),
        }
    } else {
        Outcome::Fail(SaturnError::CannotParseTime)
    }
}

/// The result the user sees for a time outcome: a stop of the program is
/// reported as `InvalidTime`.
pub open spec fn time_result(o: Outcome<int>, t: Result<Time, SaturnError>) -> bool {
    match o {
        Outcome::Value(n) => t matches Ok(v) && v@ == n,
        Outcome::Fail(e) => t == Err::<Time, SaturnError>(e),
        Outcome::Halt => t == Err::<Time, SaturnError>(SaturnError::InvalidTime),
    }
}

/// Reads the time of day that `s` names; with `today`, a time without
/// `am` or `pm` falls in the half of the day the clock shows.
///
/// Where the numbers name no time of day the result is `InvalidTime`.
pub fn parse_time(s: String, today: bool) -> (res: Result<Time, SaturnError>)
    ensures
        exists|afternoon: bool| time_result(#[trigger] time_outcome(s@, today, afternoon), res),
{
    let afternoon = now().time.hour() >= 12;
    let o = read_time(s.as_str(), today, afternoon);
    let res = match o {
        Outcome::Value(t) => Ok(t),
        Outcome::Fail(e) => Err(e),
        Outcome::Halt => Err(SaturnError::InvalidTime),
    };
    assert(time_result(time_outcome(s@, today, afternoon), res));
    res
}

// ------------------------------------------------------------------------
// Laws
// ------------------------------------------------------------------------

/// `today`, `tomorrow` and `yesterday`, in any case, name the local date,
/// the day after and the day before.
pub proof fn law_relative_dates(s: Seq<char>, today: Date)
    ensures
        lowercase(s) == "today"@ ==> date_outcome(s, today) == Outcome::Value(today),
        lowercase(s) == "tomorrow"@ && !today.is_max() ==> date_outcome(s, today)
            == Outcome::Value(today.next_day()),
        lowercase(s) == "yesterday"@ && !today.is_min() ==> date_outcome(s, today)
            == Outcome::Value(today.prev_day()),
{
    reveal_strlit("today");
    reveal_strlit("tomorrow");
    reveal_strlit("yesterday");
    assert("today"@.len() != "tomorrow"@.len());
    assert("today"@.len() != "yesterday"@.len());
    assert("tomorrow"@.len() != "yesterday"@.len());
}

/// On a twelve-hour clock, hours from 13 to 23 are taken as 24-hour
/// times, 12 is noon in the afternoon and midnight in the morning, and
/// hours before 12 are moved into the afternoon when `pm` holds.
pub proof fn law_twelve_hour_clock(pm: bool, h: int, m: int)
    requires
        0 <= h < 24,
        0 <= m < 60,
    ensures
        13 <= h ==> twelve_hour(pm, h, m) == Outcome::Value(hms_nanos(h, m, 0)),
        h == 12 ==> twelve_hour(pm, h, m) == Outcome::Value(
            hms_nanos(
                if pm {
                    12
                } else {
                    0
                },
                m,
                0,
            ),
        ),
        h < 12 ==> twelve_hour(pm, h, m) == Outcome::Value(
            hms_nanos(
                if pm {
                    h + 12
                } else {
                    h
                },
                m,
                0,
            ),
        ),
{
}

/// A day number written alone names that day of the local month.
pub proof fn law_day_of_current_month(s: Seq<char>, today: Date)
    requires
        s.len() > 0,
        crate::text::all_digits(s),
        read_u32(s) matches Some(d) && valid_ymd(today.year as int, today.month as int, d),
    ensures
        numeric_date(s, today) == Outcome::Value(
            Date { year: today.year, month: today.month, day: read_u32(s).unwrap() as u32 },
        ),
{
    assert forall|i: int| 0 <= i < s.len() implies !date_separators().contains(#[trigger] s[i]) by {
        assert(is_digit(s[i]));
        if date_separators().contains(s[i]) {
            let k = choose|k: int| 0 <= k < 3 && date_separators()[k] == s[i];
            assert(k == 0 || k == 1 || k == 2);
        }
    }
    lemma_split_without_separator(s, date_separators());
    assert(!crate::text::is_whitespace(s[0]));
    assert(!crate::text::is_whitespace(s.last()));
    assert(crate::text::trim_start(s) == s);
    assert(trim(s) == s);
    reveal_strlit("th");
    reveal_strlit("st");
    reveal_strlit("rd");
    reveal_strlit("nd");
    assert(is_digit(s.last()));
    assert(!ends_with(s, "th"@)) by {
        if ends_with(s, "th"@) {
            assert(s.subrange(s.len() - 2, s.len() as int)[1] == s.last());
        }
    }
    assert(!ends_with(s, "st"@)) by {
        if ends_with(s, "st"@) {
            assert(s.subrange(s.len() - 2, s.len() as int)[1] == s.last());
        }
    }
    assert(!ends_with(s, "rd"@)) by {
        if ends_with(s, "rd"@) {
            assert(s.subrange(s.len() - 2, s.len() as int)[1] == s.last());
        }
    }
    assert(!ends_with(s, "nd"@)) by {
        if ends_with(s, "nd"@) {
            assert(s.subrange(s.len() - 2, s.len() as int)[1] == s.last());
        }
    }
    assert(without_ordinal(s) == s);
}

/// On a twelve-hour clock, `am` and `AM` leave an hour from 1 to 11 as it
/// is, and `pm` and `PM` move it twelve hours on; the two cases of each
/// designation read alike, whatever the day and the clock.
pub proof fn law_am_pm_hours(h: int, m: int, today: bool, afternoon: bool)
    requires
        1 <= h <= 11,
        0 <= m < 60,
    ensures
        designated(h, m, "AM"@, today, afternoon) == Outcome::Value(hms_nanos(h, m, 0)),
        designated(h, m, "am"@, today, afternoon) == Outcome::Value(hms_nanos(h, m, 0)),
        designated(h, m, "PM"@, today, afternoon) == Outcome::Value(hms_nanos(h + 12, m, 0)),
        designated(h, m, "pm"@, today, afternoon) == Outcome::Value(hms_nanos(h + 12, m, 0)),
{
    reveal_strlit("AM");
    reveal_strlit("am");
    reveal_strlit("PM");
    reveal_strlit("pm");
    assert("AM"@[0] != "pm"@[0] && "AM"@[0] != "PM"@[1]);
    assert("am"@[0] != "pm"@[0] && "am"@[0] != "PM"@[0]);
    assert("AM"@ != "pm"@ && "AM"@ != "PM"@);
    assert("am"@ != "pm"@ && "am"@ != "PM"@);
}

} // verus!
