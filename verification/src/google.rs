//! The remote (Google) calendar: what the service's events become as
//! records, what records become as events, and the client's own state.
//!
//! The service itself is reached by the program; the library holds the
//! parts of an event that the calendar reads and writes, as plain values.

use crate::config::{Config, ConfigView, DBType};
use crate::error::{Outcome, SaturnError};
use crate::record::{
    blank_record, format_u64, nat_text, opt_str, push_all, read_rrule, rule_recurrence, Record,
    RecordType, RecordView, RecurringRecord, RecurringView, rule_text,
};
use crate::memory::{moment_before, notification_due, notifications_due_exec, shift_exec, shift_moment};
use crate::table::{greatest_value, NameTable};
use crate::text::{from_chars, parse_u64, parse_unsigned, to_chars};
use crate::time::{trunc_div, valid_ymd, Date, DateTime, Duration, Time, NANOS_PER_SEC};
use crate::view::{fraction_text, two_digits, year_text};
use chrono::{Datelike, Timelike};
use vstd::prelude::*;

verus! {

/// How a reminder reaches the user.
#[derive(Clone, Copy, Debug, PartialEq, Eq, Structural)]
pub enum ReminderMethod {
    EMail,
    PopUp,
}

/// A reminder the given number of minutes before an event.
#[derive(Clone, Copy, Debug, PartialEq, Eq, Structural)]
pub struct DefaultReminder {
    pub method: ReminderMethod,
    pub minutes: u16,
}

/// The reminders of an event: the calendar's default one, and others.
#[derive(Clone, Debug)]
pub struct EventReminder {
    pub overrides: Option<Vec<DefaultReminder>>,
    pub use_default: bool,
}

/// A day (`YYYY-MM-DD`) or a moment (RFC 3339) of an event, as the service
/// writes them.
#[derive(Clone, Debug)]
pub struct EventCalendarDate {
    pub date: Option<String>,
    pub date_time: Option<String>,
}

/// Whether an event takes place.
#[derive(Clone, Copy, Debug, PartialEq, Eq, Structural)]
pub enum EventStatus {
    Confirmed,
    Tentative,
    Cancelled,
}

/// The parts of a remote calendar event that the calendar reads and
/// writes.
#[derive(Clone, Debug)]
pub struct CalendarEvent {
    pub id: Option<String>,
    pub calendar_id: Option<String>,
    pub ical_uid: Option<String>,
    pub start: Option<EventCalendarDate>,
    pub end: Option<EventCalendarDate>,
    pub original_start_time: Option<EventCalendarDate>,
    pub end_time_unspecified: Option<bool>,
    pub reminders: Option<EventReminder>,
    pub summary: Option<String>,
    pub recurrence: Option<Vec<String>>,
    pub status: Option<EventStatus>,
}

/// The abstract content of an event day or moment.
pub struct CalendarDateView {
    pub date: Option<Seq<char>>,
    pub date_time: Option<Seq<char>>,
}

/// The abstract content of an event's reminders.
pub struct ReminderView {
    pub overrides: Option<Seq<DefaultReminder>>,
    pub use_default: bool,
}

/// The abstract content of an event.
pub struct EventView {
    pub id: Option<Seq<char>>,
    pub calendar_id: Option<Seq<char>>,
    pub ical_uid: Option<Seq<char>>,
    pub start: Option<CalendarDateView>,
    pub end: Option<CalendarDateView>,
    pub original_start_time: Option<CalendarDateView>,
    pub end_time_unspecified: Option<bool>,
    pub reminders: Option<ReminderView>,
    pub summary: Option<Seq<char>>,
    pub recurrence: Option<Seq<Seq<char>>>,
    pub status: Option<EventStatus>,
}

impl View for EventCalendarDate {
    type V = CalendarDateView;

    open spec fn view(&self) -> CalendarDateView {
        CalendarDateView { date: opt_str(self.date), date_time: opt_str(self.date_time) }
    }
}

impl View for EventReminder {
    type V = ReminderView;

    open spec fn view(&self) -> ReminderView {
        ReminderView {
            overrides: match self.overrides {
                Some(v) => Some(v@),
                None => None,
            },
            use_default: self.use_default,
        }
    }
}

/// The view of an optional event day or moment.
pub open spec fn opt_date(o: Option<EventCalendarDate>) -> Option<CalendarDateView> {
    match o {
        Some(d) => Some(d@),
        None => None,
    }
}

/// The view of an optional list of texts.
pub open spec fn opt_texts(o: Option<Vec<String>>) -> Option<Seq<Seq<char>>> {
    match o {
        Some(v) => Some(v@.map_values(|s: String| s@)),
        None => None,
    }
}

impl View for CalendarEvent {
    type V = EventView;

    open spec fn view(&self) -> EventView {
        EventView {
            id: opt_str(self.id),
            calendar_id: opt_str(self.calendar_id),
            ical_uid: opt_str(self.ical_uid),
            start: opt_date(self.start),
            end: opt_date(self.end),
            original_start_time: opt_date(self.original_start_time),
            end_time_unspecified: self.end_time_unspecified,
            reminders: match self.reminders {
                Some(r) => Some(r@),
                None => None,
            },
            summary: opt_str(self.summary),
            recurrence: opt_texts(self.recurrence),
            status: self.status,
        }
    }
}

// ------------------------------------------------------------------------
// The client
// ------------------------------------------------------------------------

/// The abstract state of the remote calendar's client: its settings, and
/// the calendar-wide numbers (`UID:<n>`) given to the events it knows, by
/// event id.
pub struct GoogleView {
    pub config: ConfigView,
    pub ical_map: Map<Seq<char>, u64>,
}

/// The remote calendar's client, without its connection.
#[derive(Debug)]
pub struct GoogleClient {
    config: Config,
    ical_map: NameTable,
}

impl View for GoogleClient {
    type V = GoogleView;

    closed spec fn view(&self) -> GoogleView {
        GoogleView { config: self.config@, ical_map: self.ical_map@ }
    }
}

/// The number that the text `t` of an event's calendar-wide identifier
/// names: the digits after `UID:`.
pub open spec fn uid_number(t: Seq<char>) -> Option<u64> {
    if t.len() >= 4 && t.subrange(0, 4) == "UID:"@ {
        match parse_unsigned(t.subrange(4, t.len() as int), u64::MAX as int) {
            Some(n) => Some(n as u64),
            None => None,
        }
    } else {
        None
    }
}

/// The numbers by event id after the event `e` was seen: its identifier's
/// number is kept under its id, when it has both.
pub open spec fn noted(m: Map<Seq<char>, u64>, e: EventView) -> Map<Seq<char>, u64> {
    match (e.ical_uid, e.id) {
        (Some(u), Some(id)) => match uid_number(u) {
            Some(n) => m.insert(id, n),
            None => m,
        },
        _ => m,
    }
}

impl GoogleClient {
    #[verifier::type_invariant]
    spec fn inv(self) -> bool {
        self.ical_map.wf()
    }

    /// A client for the settings `config`: they must select the remote
    /// calendar, and hold client credentials and an access token.
    pub fn new(config: Config) -> (res: Result<GoogleClient, SaturnError>)
        ensures
            config@.db_type != DBType::Google ==> res == Err::<GoogleClient, SaturnError>(
                SaturnError::NotRemoteDatabase,
            ),
            config@.db_type == DBType::Google && config@.client_info is None ==> res == Err::<
                GoogleClient,
                SaturnError,
            >(SaturnError::NoClientInfo),
            config@.db_type == DBType::Google && config@.client_info is Some
                && config@.access_token is None ==> res == Err::<GoogleClient, SaturnError>(
                SaturnError::NoAccessToken,
            ),
            config@.db_type == DBType::Google && config@.client_info is Some
                && config@.access_token is Some ==> (res matches Ok(c) && c@ == (GoogleView {
                config: config@,
                ical_map: Map::empty(),
            })),
    {
        match config.db_type() {
            DBType::Google => {},
            DBType::UnixFile => {
                return Err(SaturnError::NotRemoteDatabase);
            },
        }
        if !config.has_client() {
            return Err(SaturnError::NoClientInfo);
        }
        if config.access_token().is_none() {
            return Err(SaturnError::NoAccessToken);
        }
        Ok(GoogleClient { config, ical_map: NameTable::new() })
    }

    /// The settings the client was made with.
    pub fn config(&self) -> (res: &Config)
        ensures
            res@ == self@.config,
    {
        &self.config
    }

    /// The number known for the event `id`, if any.
    pub fn uid_of(&self, id: &String) -> (res: Option<u64>)
        ensures
            res is Some <==> self@.ical_map.contains_key(id@),
            res matches Some(n) ==> n == self@.ical_map[id@],
    {
        proof {
            use_type_invariant(self);
        }
        self.ical_map.get(id)
    }

    /// Whether a number for a new event can be picked: the largest known
    /// is below the largest 64-bit number.
    pub fn can_pick_uid(&self) -> (res: bool)
        ensures
            res == (greatest_value(self@.ical_map) < u64::MAX),
    {
        proof {
            use_type_invariant(self);
        }
        self.ical_map.greatest() < u64::MAX
    }

    /// A number for a new event: one more than the largest known.
    pub fn pick_uid(&self) -> (res: u64)
        requires
            greatest_value(self@.ical_map) < u64::MAX,
        ensures
            res == greatest_value(self@.ical_map) + 1,
    {
        proof {
            use_type_invariant(self);
        }
        self.ical_map.greatest() + 1
    }

    /// Keeps the number of the event `event`'s identifier under its id.
    pub fn note_uid(&mut self, event: &CalendarEvent)
        ensures
            final(self)@ == (GoogleView {
                ical_map: noted(old(self)@.ical_map, event@),
                ..old(self)@
            }),
    {
        proof {
            use_type_invariant(&*self);
        }
        match (&event.ical_uid, &event.id) {
            (Some(u), Some(id)) => {
                match uid_text_number(u) {
                    Some(n) => {
                        let mut map = NameTable::new();
                        std::mem::swap(&mut map, &mut self.ical_map);
                        map.insert(id.clone(), n);
                        self.ical_map = map;
                    },
                    None => {},
                }
            },
            _ => {},
        }
    }
}

/// The number that an event's identifier text `t` names (see `uid_number`).
fn uid_text_number(t: &String) -> (res: Option<u64>)
    ensures
        res == uid_number(t@),
{
    proof {
        reveal_strlit("UID:");
    }
    let v = to_chars(t.as_str());
    if v.len() >= 4 && v[0] == 'U' && v[1] == 'I' && v[2] == 'D' && v[3] == ':' {
        assert(v@.subrange(0, 4) =~= "UID:"@);
        let mut rest: Vec<char> = Vec::new();
        let mut i: usize = 4;
        while i < v.len()
            invariant
                4 <= i <= v@.len(),
                rest@ == v@.subrange(4, i as int),
            decreases v@.len() - i,
        {
            rest.push(v[i]);
            i = i + 1;
            assert(rest@ =~= v@.subrange(4, i as int));
        }
        parse_u64(rest.as_slice())
    } else {
        proof {
            if v@.len() >= 4 && v@.subrange(0, 4) == "UID:"@ {
                assert(v@[0] == v@.subrange(0, 4)[0]);
                assert(v@[1] == v@.subrange(0, 4)[1]);
                assert(v@[2] == v@.subrange(0, 4)[2]);
                assert(v@[3] == v@.subrange(0, 4)[3]);
            }
        }
        None
    }
}

// ------------------------------------------------------------------------
// Events as records
// ------------------------------------------------------------------------

/// Ten minutes, in nanoseconds: the calendar's default reminder.
pub open spec fn ten_minutes() -> int {
    10 * 60 * NANOS_PER_SEC as int
}

/// The event's start as a record reads it: the series start of an
/// occurrence of a repeated event, otherwise the start.
pub open spec fn start_of(e: EventView) -> Option<CalendarDateView> {
    match e.original_start_time {
        Some(x) => Some(x),
        None => e.start,
    }
}

/// The text of the moment the event starts at, if it has one.
pub open spec fn start_moment_text(e: EventView) -> Option<Seq<char>> {
    match start_of(e) {
        Some(x) => x.date_time,
        None => None,
    }
}

/// The text of the day the event starts on, if it has one.
pub open spec fn start_day_text(e: EventView) -> Option<Seq<char>> {
    match start_of(e) {
        Some(x) => x.date,
        None => None,
    }
}

/// The text of the moment the event ends at, if it has one.
pub open spec fn end_moment_text(e: EventView) -> Option<Seq<char>> {
    match e.end {
        Some(x) => x.date_time,
        None => None,
    }
}

/// Whether the event has an end time: an end moment, or an end marked as
/// unspecified.
pub open spec fn has_end_time(e: EventView) -> bool {
    match e.end {
        Some(x) => x.date_time is Some || e.end_time_unspecified == Some(true),
        None => false,
    }
}

/// The offsets, in nanoseconds, of the pop-up reminders among the first
/// `n` of `o`.
pub open spec fn popup_offsets(o: Seq<DefaultReminder>, n: int) -> Seq<int>
    decreases n,
{
    if n <= 0 {
        Seq::empty()
    } else if o[n - 1].method == ReminderMethod::PopUp {
        popup_offsets(o, n - 1).push(o[n - 1].minutes * 60 * NANOS_PER_SEC as int)
    } else {
        popup_offsets(o, n - 1)
    }
}

/// The notification offsets that reminders ask for: ten minutes for the
/// calendar's default reminder, then each pop-up reminder.
pub open spec fn reminder_offsets(r: Option<ReminderView>) -> Seq<int> {
    match r {
        None => Seq::empty(),
        Some(rv) => (if rv.use_default {
            seq![ten_minutes()]
        } else {
            Seq::empty()
        }) + match rv.overrides {
            Some(o) => popup_offsets(o, o.len() as int),
            None => Seq::empty(),
        },
    }
}

/// A record's notifications made of the offsets `s`: none when `s` is
/// empty.
pub open spec fn notes_of(s: Seq<int>) -> Option<Seq<int>> {
    if s.len() == 0 {
        None
    } else {
        Some(s)
    }
}

/// Whether `end` is exactly one day after `start`.
pub open spec fn one_day_apart(start: DateTime, end: DateTime) -> bool {
    !start.date.is_max() && end.date == start.date.next_day() && end.time@ == start.time@
}

/// The kind of record an event makes, given the moments its start and end
/// read as: a whole day when it starts and ends a day apart, a schedule
/// when it has a start and an end time, a time when it only has a start,
/// otherwise a whole day. An end time that does not read as a moment
/// stops the program.
pub open spec fn event_type(e: EventView, start: Option<DateTime>, end: Option<DateTime>) -> Outcome<
    RecordType,
> {
    if start is Some && has_end_time(e) {
        match end {
            Some(en) => Outcome::Value(
                if one_day_apart(start.unwrap(), en) {
                    RecordType::AllDay
                } else {
                    RecordType::Schedule
                },
            ),
            None => Outcome::Halt,
        }
    } else if start is Some {
        Outcome::Value(RecordType::At)
    } else {
        Outcome::Value(RecordType::AllDay)
    }
}

/// The year, month and day that `chrono::NaiveDate`'s reader takes the
/// text `t` for, or `None` when it refuses it.
pub uninterp spec fn naive_date_reading(t: Seq<char>) -> Option<(int, int, int)>;

/// The record that the event `e` becomes, given the moments that its start
/// and end texts read as on the local clock (`None` where a text is missing
/// or does not read) and the moment `now`, which stands in for a missing
/// start. A day outside the calendar's range stops the reading.
pub open spec fn event_outcome(
    e: EventView,
    start: Option<DateTime>,
    end: Option<DateTime>,
    now: DateTime,
) -> Outcome<RecordView> {
    let st = match start {
        Some(s) => s,
        None => now,
    };
    let base = RecordView {
        internal_key: e.id,
        internal_recurrence_key: e.id,
        detail: match e.summary {
            Some(s) => s,
            None => "No summary provided"@,
        },
        notifications: notes_of(reminder_offsets(e.reminders)),
        ..blank_record(now.date)
    };
    match event_type(e, start, end) {
        Outcome::Value(RecordType::AllDay) => match start_day_text(e) {
            Some(t) => match naive_date_reading(t) {
                Some(p) => if valid_ymd(p.0, p.1, p.2) {
                    Outcome::Value(
                        RecordView {
                            date: Date { year: p.0 as i32, month: p.1 as u32, day: p.2 as u32 },
                            ..base
                        },
                    )
                } else {
                    Outcome::Halt
                },
                None => Outcome::Value(RecordView { date: st.date, ..base }),
            },
            None => Outcome::Value(RecordView { date: st.date, ..base }),
        },
        Outcome::Value(RecordType::At) => Outcome::Value(
            RecordView { date: st.date, ..base.made_at(Some(st.time@)) },
        ),
        Outcome::Value(RecordType::Schedule) => match end {
            Some(en) => Outcome::Value(
                RecordView { date: st.date, ..base.made_scheduled(Some((st.time@, en.time@))) },
            ),
            None => Outcome::Halt,
        },
        _ => Outcome::Halt,
    }
}

/// Whether the moments `start`, `end` and `now` can be what the event's
/// texts and the clock read as: representable, and missing where the event
/// has no text.
pub open spec fn moments_fit(e: EventView, start: Option<DateTime>, end: Option<DateTime>, now: DateTime) -> bool {
    &&& now.date.valid()
    &&& start matches Some(s) ==> s.date.valid()
    &&& end matches Some(x) ==> x.date.valid()
    &&& start_moment_text(e) is None ==> start is None
    &&& end_moment_text(e) is None ==> end is None
}

/// Whether the event `e` can read as the record `rv`: for some moments
/// that its texts and the clock can read as (see `moments_fit`), each the
/// reading of its own text under an offset from UTC that a time zone can
/// have (see `reads_moment`).
pub open spec fn reads_as(e: EventView, rv: RecordView) -> bool {
    exists|start: Option<DateTime>, end: Option<DateTime>, now: DateTime, o1: int, o2: int|
        #![trigger event_outcome(e, start, end, now), reads_moment(start_moment_text(e), o1, start), reads_moment(end_moment_text(e), o2, end)]
        moments_fit(e, start, end, now) && day_offset(o1) && day_offset(o2) && reads_moment(
            start_moment_text(e),
            o1,
            start,
        ) && reads_moment(end_moment_text(e), o2, end) && event_outcome(e, start, end, now)
            == Outcome::Value(rv)
}

/// Whether the moment texts of the event `e`, where it has them, read
/// inside the calendar where the local zone is `off` seconds east of UTC
/// (see `text_moment`).
pub open spec fn texts_in_range(e: EventView, off: int) -> bool {
    &&& start_moment_text(e) matches Some(t) ==> !(text_moment(t, off) is Halt)
    &&& end_moment_text(e) matches Some(t) ==> !(text_moment(t, off) is Halt)
}

/// Whether the event `e` reads as a record whatever offsets the local zone
/// has at its moments and whatever the clock shows: its texts read inside
/// the calendar, and every reading of them makes a record (see
/// `event_outcome`).
pub open spec fn reads_everywhere(e: EventView) -> bool {
    &&& forall|off: int| day_offset(off) ==> #[trigger] texts_in_range(e, off)
    &&& forall|start: Option<DateTime>, end: Option<DateTime>, now: DateTime, o1: int, o2: int|
        #![trigger event_outcome(e, start, end, now), reads_moment(start_moment_text(e), o1, start), reads_moment(end_moment_text(e), o2, end)]
        moments_fit(e, start, end, now) && day_offset(o1) && day_offset(o2) && reads_moment(
            start_moment_text(e),
            o1,
            start,
        ) && reads_moment(end_moment_text(e), o2, end) ==> event_outcome(e, start, end, now) is Value
}

/// Calls `str::parse::<chrono::NaiveDate>` on `s` and hands back the year,
/// month and day it read.
///
/// Which text gives which day is left to the name `naive_date_reading`.
#[verifier::external_body]
fn naive_date_parts(s: &str) -> (res: Option<(i32, u32, u32)>)
    ensures
        match res {
            Some(p) => naive_date_reading(s@) == Some((p.0 as int, p.1 as int, p.2 as int)),
            None => naive_date_reading(s@) is None,
        },
{
    match s.parse::<chrono::NaiveDate>() {
        Ok(d) => Some((d.year(), d.month(), d.day())),
        Err(_) => None,
    }
}

/// The UTC moment that an RFC 3339 text denotes, as
/// `str::parse::<chrono::DateTime<chrono::FixedOffset>>` reads it: year,
/// month, day, hour, minute, second and nanosecond; `None` where it does
/// not read.
pub uninterp spec fn instant_reading(t: Seq<char>) -> Option<(int, int, int, int, int, int, int)>;

/// Calls `str::parse::<chrono::DateTime<chrono::FixedOffset>>` on `s` (the
/// parse that reading a `DateTime<Local>` makes before it moves to the
/// local zone) and hands back the parts of the UTC moment it read.
///
/// Which text gives which moment is left to the name `instant_reading`.
#[verifier::external_body]
fn instant_parts(s: &str) -> (res: Option<(i32, u32, u32, u32, u32, u32, u32)>)
    ensures
        match res {
            Some(p) => instant_reading(s@) == Some(
                (
                    p.0 as int,
                    p.1 as int,
                    p.2 as int,
                    p.3 as int,
                    p.4 as int,
                    p.5 as int,
                    p.6 as int,
                ),
            ),
            None => instant_reading(s@) is None,
        },
{
    match s.parse::<chrono::DateTime<chrono::FixedOffset>>() {
        Ok(d) => {
            let n = d.naive_utc();
            Some((n.year(), n.month(), n.day(), n.hour(), n.minute(), n.second(), n.nanosecond()))
        },
        Err(_) => None,
    }
}

/// Calls `chrono::Local.offset_from_utc_datetime` on the UTC moment given
/// by its parts and hands back the local zone's offset there, in seconds
/// east of UTC; `None` where the parts are no moment. Parts that make a day
/// of the calendar and a time of day always give an offset: `chrono`'s days
/// span the same years, and a zone has an offset at every UTC moment.
///
/// Which offset comes back depends on the machine's time zone, so only what
/// holds of every `chrono::FixedOffset` is stated of it: it lies strictly
/// within a day.
#[verifier::external_body]
fn local_offset_at(y: i32, mo: u32, d: u32, h: u32, mi: u32, s: u32, ns: u32) -> (res: Option<i32>)
    ensures
        res matches Some(o) ==> day_offset(o as int),
        valid_ymd(y as int, mo as int, d as int) && h < 24 && mi < 60 && s < 60 && ns < NANOS_PER_SEC
            ==> res is Some,
{
    let n = chrono::NaiveDate::from_ymd_opt(y, mo, d)?.and_hms_nano_opt(h, mi, s, ns)?;
    Some(<chrono::Local as chrono::TimeZone>::offset_from_utc_datetime(&chrono::Local, &n).local_minus_utc())
}

/// Whether `off` seconds is an offset from UTC that a time zone can have:
/// strictly within a day.
pub open spec fn day_offset(off: int) -> bool {
    -86400 < off < 86400
}

/// The local moment that the text `t` reads as where the local zone is
/// `off` seconds east of UTC at the moment it denotes: `Value(None)` where
/// the text does not read; a stop where that moment, or its local reading,
/// falls outside the calendar.
pub open spec fn text_moment(t: Seq<char>, off: int) -> Outcome<Option<(Date, int)>> {
    match instant_reading(t) {
        None => Outcome::Value(None),
        Some(p) => if valid_ymd(p.0, p.1, p.2) && 0 <= p.3 < 24 && 0 <= p.4 < 60 && 0 <= p.5 < 60
            && 0 <= p.6 < NANOS_PER_SEC {
            match crate::memory::shift_moment(
                Date { year: p.0 as i32, month: p.1 as u32, day: p.2 as u32 },
                crate::time::hms_nanos(p.3, p.4, p.5) + p.6,
                off * NANOS_PER_SEC,
            ) {
                Some(m) => Outcome::Value(Some(m)),
                None => Outcome::Halt,
            }
        } else {
            Outcome::Halt
        },
    }
}

/// Whether the optional moment `m` is what the optional text `t` reads as
/// with the local zone `off` seconds east of UTC (see `text_moment`).
pub open spec fn reads_moment(t: Option<Seq<char>>, off: int, m: Option<DateTime>) -> bool {
    match t {
        None => m is None,
        Some(s) => match text_moment(s, off) {
            Outcome::Value(None) => m is None,
            Outcome::Value(Some((d, x))) => m matches Some(v) && v.date == d && v.time@ == x,
            _ => false,
        },
    }
}

/// Whether `res` is what reading the optional text `t` gives where the
/// local zone is `off` seconds east of UTC: `OutOfRange` where the reading
/// stops (see `text_moment`), otherwise the moment it reads as (see
/// `reads_moment`).
pub open spec fn moment_result(t: Option<Seq<char>>, off: int, res: Result<Option<DateTime>, SaturnError>) -> bool {
    match t {
        Some(x) => match text_moment(x, off) {
            Outcome::Halt => res == Err::<Option<DateTime>, SaturnError>(SaturnError::OutOfRange),
            _ => res matches Ok(m) && reads_moment(t, off, m),
        },
        None => res == Ok::<Option<DateTime>, SaturnError>(None),
    }
}

/// The local moment that the text `s` reads as, under the local zone's
/// offset at the moment it denotes (see `moment_result`): `None` when it
/// does not read, `OutOfRange` when it reads as a moment the calendar
/// cannot hold.
fn local_moment(s: &String) -> (res: Result<Option<DateTime>, SaturnError>)
    ensures
        res matches Ok(Some(d)) ==> d.date.valid(),
        exists|off: int| day_offset(off) && #[trigger] moment_result(Some(s@), off, res),
{
    match instant_parts(s.as_str()) {
        Some((y, mo, d, h, mi, sec, ns)) => {
            let date = match Date::from_ymd_opt(y, mo, d) {
                Some(x) => x,
                None => {
                    assert(moment_result(Some(s@), 0, Err(SaturnError::OutOfRange)));
                    return Err(SaturnError::OutOfRange);
                },
            };
            let time = match Time::from_hms_nano_opt(h, mi, sec, ns) {
                Some(x) => x,
                None => {
                    assert(moment_result(Some(s@), 0, Err(SaturnError::OutOfRange)));
                    return Err(SaturnError::OutOfRange);
                },
            };
            let off = match local_offset_at(y, mo, d, h, mi, sec, ns) {
                Some(o) => o,
                None => {
                    return Err(SaturnError::OutOfRange);
                },
            };
            let shift = Duration::try_seconds(off as i64).unwrap();
            match crate::memory::shift_exec(date, time, &shift) {
                Some(m) => {
                    proof {
                        let n = (time@ + shift@) / (crate::time::NANOS_PER_DAY as int);
                        crate::time::lemma_plus_days_valid(date, n);
                        assert(moment_result(Some(s@), off as int, Ok(Some(m))));
                    }
                    Ok(Some(m))
                },
                None => {
                    assert(moment_result(Some(s@), off as int, Err(SaturnError::OutOfRange)));
                    Err(SaturnError::OutOfRange)
                },
            }
        },
        None => {
            assert(moment_result(Some(s@), 0, Ok(None)));
            Ok(None)
        },
    }
}

/// The local moment that the optional text `s` reads as (see
/// `moment_result`).
fn optional_moment(s: Option<&String>) -> (res: Result<Option<DateTime>, SaturnError>)
    ensures
        res matches Ok(Some(d)) ==> d.date.valid(),
        exists|off: int| day_offset(off) && #[trigger] moment_result(opt_ref(s), off, res),
{
    match s {
        Some(t) => local_moment(t),
        None => {
            assert(moment_result(opt_ref(s), 0, Ok(None)));
            Ok(None)
        },
    }
}

/// The record's detail for an event's summary.
fn detail_of(summary: &Option<String>) -> (res: String)
    ensures
        res@ == match opt_str(*summary) {
            Some(s) => s,
            None => "No summary provided"@,
        },
{
    match summary {
        Some(s) => s.clone(),
        None => "No summary provided".to_string(),
    }
}

/// Adds the notifications that the reminders `r` ask for to `record`.
fn add_reminders(record: &mut Record, r: &Option<EventReminder>)
    requires
        old(record)@.notifications is None,
    ensures
        final(record)@ == (RecordView {
            notifications: notes_of(reminder_offsets(opt_reminders(*r))),
            ..old(record)@
        }),
{
    match r {
        Some(rem) => {
            let ghost first: Seq<int> = if rem.use_default {
                seq![ten_minutes()]
            } else {
                Seq::empty()
            };
            if rem.use_default {
                let ten = Duration::try_minutes(10).unwrap();
                record.add_notification(ten);
                assert(seq![ten_minutes()] =~= Seq::<int>::empty().push(ten_minutes()));
            }
            assert(record@ == RecordView { notifications: notes_of(first), ..old(record)@ });
            match &rem.overrides {
                Some(o) => {
                    let n = o.len();
                    let mut i: usize = 0;
                    while i < n
                        invariant
                            n == o@.len(),
                            i <= n,
                            record@ == (RecordView {
                                notifications: notes_of(first + popup_offsets(o@, i as int)),
                                ..old(record)@
                            }),
                        decreases n - i,
                    {
                        let ghost prev = first + popup_offsets(o@, i as int);
                        match o[i].method {
                            ReminderMethod::PopUp => {
                                let d = Duration::try_minutes(o[i].minutes as i64).unwrap();
                                record.add_notification(d);
                                assert(first + popup_offsets(o@, i + 1) =~= prev.push(d@));
                                assert(notes_of(prev).is_none() ==> seq![d@] =~= prev.push(d@));
                            },
                            ReminderMethod::EMail => {
                                assert(first + popup_offsets(o@, i + 1) =~= prev);
                            },
                        }
                        i = i + 1;
                    }
                },
                None => {
                    assert(first + Seq::<int>::empty() =~= first);
                },
            }
        },
        None => {},
    }
}

/// The view of optional reminders.
pub open spec fn opt_reminders(r: Option<EventReminder>) -> Option<ReminderView> {
    match r {
        Some(x) => Some(x@),
        None => None,
    }
}

/// The view of an optional borrowed text.
pub open spec fn opt_ref(o: Option<&String>) -> Option<Seq<char>> {
    match o {
        Some(s) => Some(s@),
        None => None,
    }
}

/// The text of the day the event starts on, if it has one.
fn start_day(event: &CalendarEvent) -> (res: Option<&String>)
    ensures
        opt_ref(res) == start_day_text(event@),
{
    let source = match &event.original_start_time {
        Some(x) => Some(x),
        None => match &event.start {
            Some(x) => Some(x),
            None => None,
        },
    };
    match source {
        Some(x) => match &x.date {
            Some(t) => Some(t),
            None => None,
        },
        None => None,
    }
}

/// The text of the moment the event starts at, if it has one.
fn start_moment(event: &CalendarEvent) -> (res: Option<&String>)
    ensures
        opt_ref(res) == start_moment_text(event@),
{
    let source = match &event.original_start_time {
        Some(x) => Some(x),
        None => match &event.start {
            Some(x) => Some(x),
            None => None,
        },
    };
    match source {
        Some(x) => match &x.date_time {
            Some(t) => Some(t),
            None => None,
        },
        None => None,
    }
}

/// The text of the moment the event ends at, if it has one.
fn end_moment(event: &CalendarEvent) -> (res: Option<&String>)
    ensures
        opt_ref(res) == end_moment_text(event@),
{
    match &event.end {
        Some(x) => match &x.date_time {
            Some(t) => Some(t),
            None => None,
        },
        None => None,
    }
}

impl GoogleClient {
    /// The record that the event `event` becomes (see `event_outcome`),
    /// given the moments that its start and end texts read as and the
    /// current moment; the event's identifier number is kept.
    pub fn event_record(
        &mut self,
        event: &CalendarEvent,
        start: Option<DateTime>,
        end: Option<DateTime>,
        now: DateTime,
    ) -> (res: Outcome<Record>)
        requires
            now.date.valid(),
            start matches Some(s) ==> s.date.valid(),
            end matches Some(x) ==> x.date.valid(),
        ensures
            match event_outcome(event@, start, end, now) {
                Outcome::Value(v) => res matches Outcome::Value(r) && r@ == v && final(self)@ == (
                GoogleView { ical_map: noted(old(self)@.ical_map, event@), ..old(self)@ }),
                _ => res is Halt && final(self)@ == old(self)@,
            },
    {
        let has_end = match &event.end {
            Some(x) => x.date_time.is_some() || match event.end_time_unspecified {
                Some(b) => b,
                None => false,
            },
            None => false,
        };
        let typ = match start {
            Some(s) => {
                if has_end {
                    match end {
                        Some(en) => {
                            let apart = if s.date.year == crate::time::MAX_YEAR && s.date.month
                                == 12 && s.date.day == 31 {
                                false
                            } else {
                                let next = s.date.succ();
                                next.same_day(&en.date) && s.time.same_time(&en.time)
                            };
                            if apart {
                                RecordType::AllDay
                            } else {
                                RecordType::Schedule
                            }
                        },
                        None => {
                            return Outcome::Halt;
                        },
                    }
                } else {
                    RecordType::At
                }
            },
            None => RecordType::AllDay,
        };
        assert(event_type(event@, start, end) == Outcome::Value(typ));
        let st = match start {
            Some(s) => s,
            None => now,
        };
        let mut record = Record::for_date(now.date);
        record.set_internal_key(crate::record::clone_opt_string(&event.id));
        record.set_internal_recurrence_key(crate::record::clone_opt_string(&event.id));
        add_reminders(&mut record, &event.reminders);
        match typ {
            RecordType::AllDay => {
                let date = match start_day(event) {
                    Some(t) => match naive_date_parts(t.as_str()) {
                        Some((y, m, d)) => match Date::from_ymd_opt(y, m, d) {
                            Some(date) => date,
                            None => {
                                return Outcome::Halt;
                            },
                        },
                        None => st.date,
                    },
                    None => st.date,
                };
                record.set_date(date);
            },
            RecordType::At => {
                record.set_at(Some(st.time));
                record.set_date(st.date);
            },
            RecordType::Schedule => {
                let en = end.unwrap();
                record.set_date(st.date);
                record.set_scheduled(Some((st.time, en.time)));
            },
        }
        record.set_detail(detail_of(&event.summary));
        self.note_uid(event);
        Outcome::Value(record)
    }

    /// Reads the event `event` as a record against the local clock and
    /// time zone, and keeps the event's identifier number.
    ///
    /// Where the reading stops (see `event_outcome`), or reads as a moment
    /// the calendar cannot hold, the result is `OutOfRange` and nothing
    /// changes. An event that reads as a record under every offset of the
    /// zone and every clock (see `reads_everywhere`) is always read; an event
    /// with no moment texts (only days) reads against the clock alone, and
    /// then gives exactly what `event_outcome` gives.
    pub fn event_to_record(&mut self, event: &CalendarEvent) -> (res: Result<Record, SaturnError>)
        ensures
            res is Err ==> res == Err::<Record, SaturnError>(SaturnError::OutOfRange)
                && final(self)@ == old(self)@,
            res is Ok ==> final(self)@ == (GoogleView {
                ical_map: noted(old(self)@.ical_map, event@),
                ..old(self)@
            }),
            res matches Ok(r) ==> reads_as(event@, r@),
            reads_everywhere(event@) ==> res is Ok,
            start_moment_text(event@) is None && end_moment_text(event@) is None ==> exists|
                now: DateTime,
            |
                #![trigger event_outcome(event@, None, None, now)]
                now.date.valid() && match event_outcome(event@, None, None, now) {
                    Outcome::Value(v) => res matches Ok(r) && r@ == v,
                    _ => res is Err,
                },
    {
        let now = crate::time::now();
        let start_read = optional_moment(start_moment(event));
        let ghost o1 = choose|off: int|
            day_offset(off) && #[trigger] moment_result(start_moment_text(event@), off, start_read);
        let start = match start_read {
            Ok(s) => s,
            Err(e) => {
                assert(!texts_in_range(event@, o1));
                return Err(e);
            },
        };
        let end_read = optional_moment(end_moment(event));
        let ghost o2 = choose|off: int|
            day_offset(off) && #[trigger] moment_result(end_moment_text(event@), off, end_read);
        let end = match end_read {
            Ok(x) => x,
            Err(e) => {
                assert(!texts_in_range(event@, o2));
                return Err(e);
            },
        };
        assert(moments_fit(event@, start, end, now));
        assert(reads_moment(start_moment_text(event@), o1, start));
        assert(reads_moment(end_moment_text(event@), o2, end));
        assert(start_moment_text(event@) is None && end_moment_text(event@) is None ==> start is None
            && end is None);
        match self.event_record(event, start, end, now) {
            Outcome::Value(r) => {
                assert(event_outcome(event@, start, end, now) == Outcome::Value(r@));
                Ok(r)
            },
            _ => {
                assert(!(event_outcome(event@, start, end, now) is Value));
                Err(SaturnError::OutOfRange)
            },
        }
    }
}

// ------------------------------------------------------------------------
// Records as events
// ------------------------------------------------------------------------

/// The whole minutes of `n` nanoseconds, rounded toward zero.
pub open spec fn whole_minutes(n: int) -> int {
    trunc_div(trunc_div(n, NANOS_PER_SEC as int), 60)
}

/// The pop-up reminders that replace the earlier ones for a notification
/// `n` nanoseconds ahead: one, when its whole minutes are a 16-bit count,
/// otherwise none.
pub open spec fn popup_for(n: int) -> Seq<DefaultReminder> {
    let m = whole_minutes(n);
    if 0 <= m <= u16::MAX {
        seq![DefaultReminder { method: ReminderMethod::PopUp, minutes: m as u16 }]
    } else {
        Seq::empty()
    }
}

/// Whether the calendar's default reminder is asked for, and the pop-up
/// reminders, after the first `n` notifications of `ns`: a ten-minute
/// notification asks for the default reminder, each other one replaces
/// the pop-up reminders.
pub open spec fn reminders_state(ns: Seq<int>, n: int) -> (bool, Option<Seq<DefaultReminder>>)
    decreases n,
{
    if n <= 0 {
        (false, None)
    } else {
        let (d, o) = reminders_state(ns, n - 1);
        if ns[n - 1] == ten_minutes() {
            (true, o)
        } else {
            (d, Some(popup_for(ns[n - 1])))
        }
    }
}

/// The reminders that the notifications `ns` become: none when they only
/// ask for the calendar's default reminder.
pub open spec fn reminders_for(ns: Seq<int>) -> Option<ReminderView> {
    let (d, o) = reminders_state(ns, ns.len() as int);
    if !d || o is Some {
        Some(ReminderView { overrides: o, use_default: d })
    } else {
        None
    }
}

/// Whether a record with the remote key `key` needs a new identifier
/// number.
pub open spec fn needs_new_uid(m: Map<Seq<char>, u64>, key: Option<Seq<char>>) -> bool {
    match key {
        Some(k) => !m.contains_key(k),
        None => true,
    }
}

/// The identifier number of a new event for a record with the remote key
/// `key`: the one known for the key, or one more than the largest known.
pub open spec fn uid_for(m: Map<Seq<char>, u64>, key: Option<Seq<char>>) -> u64 {
    if needs_new_uid(m, key) {
        (greatest_value(m) + 1) as u64
    } else {
        m[key.unwrap()]
    }
}

/// The numbers by event id after a new event was made for a record with
/// the remote key `key`: a new number is kept under the key.
pub open spec fn uids_after(m: Map<Seq<char>, u64>, key: Option<Seq<char>>) -> Map<Seq<char>, u64> {
    match key {
        Some(k) => if m.contains_key(k) {
            m
        } else {
            m.insert(k, (greatest_value(m) + 1) as u64)
        },
        None => m,
    }
}

/// A new event for `record` in the calendar `calendar_id`, with the
/// identifier number `uid`.
pub open spec fn fresh_event(calendar_id: Seq<char>, record: RecordView, uid: u64) -> EventView {
    EventView {
        id: record.internal_key,
        calendar_id: Some(calendar_id),
        ical_uid: Some("UID:"@ + nat_text(uid as nat)),
        start: None,
        end: None,
        original_start_time: None,
        end_time_unspecified: None,
        reminders: None,
        summary: None,
        recurrence: None,
        status: None,
    }
}

/// The view of an optional event.
pub open spec fn opt_event(o: Option<CalendarEvent>) -> Option<EventView> {
    match o {
        Some(e) => Some(e@),
        None => None,
    }
}

/// The event that `record` becomes in the calendar `calendar_id`: the
/// existing event, or a new one, with the start and end moments written
/// `start` and `end`, the reminders of the record's notifications (the
/// event's own when the record has none), and the record's detail.
pub open spec fn filled_event(
    m: Map<Seq<char>, u64>,
    calendar_id: Seq<char>,
    record: RecordView,
    existing: Option<EventView>,
    start: Seq<char>,
    end: Seq<char>,
) -> EventView {
    let base = match existing {
        Some(e) => e,
        None => fresh_event(calendar_id, record, uid_for(m, record.internal_key)),
    };
    EventView {
        start: Some(CalendarDateView { date: None, date_time: Some(start) }),
        end: Some(CalendarDateView { date: None, date_time: Some(end) }),
        reminders: match record.notifications {
            Some(ns) => reminders_for(ns),
            None => base.reminders,
        },
        calendar_id: Some(calendar_id),
        summary: Some(record.detail),
        ..base
    }
}

/// The numbers by event id after the record with the remote key `key` was
/// made into an event: unchanged when the event existed.
pub open spec fn uids_after_fill(m: Map<Seq<char>, u64>, key: Option<Seq<char>>, existing: bool) -> Map<
    Seq<char>,
    u64,
> {
    if existing {
        m
    } else {
        uids_after(m, key)
    }
}

/// The view of optional pop-up reminders.
pub open spec fn opt_popups(o: Option<Vec<DefaultReminder>>) -> Option<Seq<DefaultReminder>> {
    match o {
        Some(v) => Some(v@),
        None => None,
    }
}

/// The reminders that the notifications `ns` become (see `reminders_for`).
fn reminders_exec(ns: &Vec<Duration>) -> (res: Option<EventReminder>)
    ensures
        opt_reminders(res) == reminders_for(ns@.map_values(|d: Duration| d@)),
{
    let ghost nv = ns@.map_values(|d: Duration| d@);
    let mut use_default = false;
    let mut overrides: Option<Vec<DefaultReminder>> = None;
    let n = ns.len();
    let mut i: usize = 0;
    while i < n
        invariant
            n == ns@.len(),
            nv == ns@.map_values(|d: Duration| d@),
            i <= n,
            reminders_state(nv, i as int) == (use_default, opt_popups(overrides)),
        decreases n - i,
    {
        let d = ns[i];
        assert(nv[i as int] == d@);
        if d.nanos() == 600_000_000_000i128 {
            use_default = true;
        } else {
            let m = d.num_minutes();
            let mut v: Vec<DefaultReminder> = Vec::new();
            if 0 <= m && m <= 65535 {
                v.push(DefaultReminder { method: ReminderMethod::PopUp, minutes: m as u16 });
            }
            assert(v@ =~= popup_for(d@));
            overrides = Some(v);
        }
        i = i + 1;
    }
    assert(nv.len() == n);
    if !use_default || overrides.is_some() {
        Some(EventReminder { overrides, use_default })
    } else {
        None
    }
}

/// An offset of `off` seconds east of UTC as RFC 3339 writes it: a sign
/// (`+` for none), then hours and minutes in two digits each, rounded to
/// the nearest minute.
pub open spec fn utc_offset_text(off: int) -> Seq<char> {
    let a = if off < 0 {
        -off
    } else {
        off
    };
    let minutes = (a + 30) / 60;
    seq![if off < 0 { '-' } else { '+' }] + two_digits(minutes / 60) + seq![':'] + two_digits(
        minutes % 60,
    )
}

/// The text that `chrono`'s `DateTime::to_rfc3339` writes for the moment
/// whose wall-clock reading is the year, month, day, hour, minute, second
/// and nanosecond given, at `off` seconds east of UTC: the day as
/// `YYYY-MM-DD` (a sign and at least four digits for a year outside 0 to
/// 9999), `T`, the time as `HH:MM:SS` with the fewest of three, six or nine
/// digits that hold its fraction of a second (a leap second's nanoseconds
/// counting into the next second), and the offset.
pub open spec fn rfc3339_text(
    y: int,
    mo: int,
    d: int,
    h: int,
    mi: int,
    s: int,
    ns: int,
    off: int,
) -> Seq<char> {
    let (sec, nano) = if ns >= NANOS_PER_SEC {
        (s + 1, ns - NANOS_PER_SEC)
    } else {
        (s, ns)
    };
    year_text(y) + seq!['-'] + two_digits(mo) + seq!['-'] + two_digits(d) + seq!['T']
        + two_digits(h) + seq![':'] + two_digits(mi) + seq![':'] + two_digits(sec)
        + fraction_text(nano) + utc_offset_text(off)
}

/// Calls `chrono` to make the `DateTime<FixedOffset>` whose wall-clock
/// reading is the parts given, at `off` seconds east of UTC
/// (`FixedOffset::east_opt`, `TimeZone::from_local_datetime`), and writes
/// it with `to_rfc3339`; `None` where the parts or the offset are no
/// moment or the moment falls outside `chrono`'s range. A day of the
/// calendar, a time of day and an offset strictly within a day always give
/// a text when the UTC moment they denote is a day of the calendar too:
/// `chrono`'s days span the same years, and `east_opt` takes every such
/// offset.
///
/// The text is the one `rfc3339_text` states.
#[verifier::external_body]
fn write_rfc3339(y: i32, mo: u32, d: u32, h: u32, mi: u32, s: u32, ns: u32, off: i32) -> (res: Option<String>)
    ensures
        valid_ymd(y as int, mo as int, d as int) && h < 24 && mi < 60 && s < 60 && ns < NANOS_PER_SEC
            && day_offset(off as int) && shift_moment(
            Date { year: y, month: mo, day: d },
            crate::time::hms_nanos(h as int, mi as int, s as int) + ns,
            -off * NANOS_PER_SEC,
        ) is Some ==> res is Some,
        res matches Some(t) ==> t@ == rfc3339_text(
            y as int,
            mo as int,
            d as int,
            h as int,
            mi as int,
            s as int,
            ns as int,
            off as int,
        ),
{
    let local = chrono::NaiveDate::from_ymd_opt(y, mo, d)?.and_hms_nano_opt(h, mi, s, ns)?;
    let offset = chrono::FixedOffset::east_opt(off)?;
    let moment = <chrono::FixedOffset as chrono::TimeZone>::from_local_datetime(&offset, &local).single()?;
    Some(moment.to_rfc3339())
}

/// Calls `chrono::Local.offset_from_local_datetime` on the local
/// wall-clock moment given by its parts and hands back the local zone's
/// offset there, in seconds east of UTC, when the zone has exactly one
/// such moment; `None` otherwise, or where the parts are no moment.
///
/// The offset depends on the machine's time zone, so only what holds of
/// every `chrono::FixedOffset` is stated: it lies strictly within a day.
#[verifier::external_body]
fn local_offset_for(y: i32, mo: u32, d: u32, h: u32, mi: u32, s: u32, ns: u32) -> (res: Option<i32>)
    ensures
        res matches Some(o) ==> day_offset(o as int),
{
    let local = chrono::NaiveDate::from_ymd_opt(y, mo, d)?.and_hms_nano_opt(h, mi, s, ns)?;
    let offset = <chrono::Local as chrono::TimeZone>::offset_from_local_datetime(&chrono::Local, &local).single()?;
    Some(offset.local_minus_utc())
}

/// The RFC 3339 text of the moment whose wall-clock reading is the time of
/// day `t` on the day `d`, at `off` seconds east of UTC.
pub open spec fn moment_text(d: Date, t: int, off: int) -> Seq<char> {
    rfc3339_text(
        d.year as int,
        d.month as int,
        d.day as int,
        t / (3600 * NANOS_PER_SEC as int),
        (t / (60 * NANOS_PER_SEC as int)) % 60,
        (t / (NANOS_PER_SEC as int)) % 60,
        t % (NANOS_PER_SEC as int),
        off,
    )
}

/// The text in UTC of the local moment `(d, t)` moved by `x` nanoseconds,
/// where the local zone is `off` seconds east of UTC there; `None` where a
/// moment falls outside the calendar.
pub open spec fn utc_moment_text(d: Date, t: int, off: int, x: int) -> Option<Seq<char>> {
    match crate::memory::shift_moment(d, t, -off * NANOS_PER_SEC) {
        Some((ud, ut)) => match crate::memory::shift_moment(ud, ut, x) {
            Some((md, mt)) => Some(moment_text(md, mt, 0)),
            None => None,
        },
        None => None,
    }
}

/// A time of day in nanoseconds is its hours, minutes, seconds and
/// nanoseconds put back together.
proof fn lemma_time_parts(t: int)
    requires
        0 <= t,
    ensures
        crate::time::hms_nanos(
            t / (3600 * NANOS_PER_SEC as int),
            (t / (60 * NANOS_PER_SEC as int)) % 60,
            (t / (NANOS_PER_SEC as int)) % 60,
        ) + t % (NANOS_PER_SEC as int) == t,
{
    let n = NANOS_PER_SEC as int;
    let sec = t / n;
    vstd::arithmetic::div_mod::lemma_fundamental_div_mod(t, n);
    vstd::arithmetic::div_mod::lemma_div_denominator(t, n, 60);
    vstd::arithmetic::div_mod::lemma_div_denominator(t, n, 3600);
    vstd::arithmetic::div_mod::lemma_div_denominator(sec, 60, 60);
    vstd::arithmetic::div_mod::lemma_fundamental_div_mod(sec, 60);
    vstd::arithmetic::div_mod::lemma_fundamental_div_mod(sec / 60, 60);
}

/// Writes `m` as RFC 3339 text at `off` seconds east of UTC (see
/// `moment_text`); a text always comes back where the UTC moment is a day
/// of the calendar.
fn write_moment(m: DateTime, off: i32) -> (res: Option<String>)
    ensures
        res matches Some(t) ==> t@ == moment_text(m.date, m.time@, off as int),
        m.date.valid() && day_offset(off as int) && shift_moment(m.date, m.time@, -off * NANOS_PER_SEC)
            is Some ==> res is Some,
{
    let nanos = m.time.nanos_of_day();
    proof {
        lemma_time_parts(nanos as int);
    }
    write_rfc3339(
        m.date.year,
        m.date.month,
        m.date.day,
        m.time.hour(),
        m.time.minute(),
        m.time.second(),
        m.time.nanosecond(),
        off,
    )
}

/// The local moment `at` moved by `shift`, written in UTC (see
/// `utc_moment_text`), where the local zone is `off` seconds east of UTC
/// at `at`; `None` exactly where a moment falls outside the calendar.
pub fn utc_text(at: DateTime, off: i32, shift: Duration) -> (res: Option<String>)
    requires
        day_offset(off as int),
    ensures
        match utc_moment_text(at.date, at.time@, off as int, shift@) {
            Some(t) => res matches Some(r) && r@ == t,
            None => res is None,
        },
{
    let back = Duration::try_seconds(-(off as i64)).unwrap();
    let utc = shift_exec(at.date, at.time, &back)?;
    let moved = shift_exec(utc.date, utc.time, &shift)?;
    proof {
        let n = (utc.time@ + shift@) / (crate::time::NANOS_PER_DAY as int);
        crate::time::lemma_plus_days_valid(utc.date, n);
        let z = moved.time@ / (crate::time::NANOS_PER_DAY as int);
        assert(z == 0);
    }
    write_moment(moved, 0)
}

/// The local moment `m` written at `off` seconds east of UTC (see
/// `moment_text`); `None` exactly where the UTC moment it denotes falls
/// outside the calendar.
pub fn offset_text(m: DateTime, off: i32) -> (res: Option<String>)
    requires
        m.date.valid(),
        day_offset(off as int),
    ensures
        if shift_moment(m.date, m.time@, -off * NANOS_PER_SEC) is Some {
            res matches Some(r) && r@ == moment_text(m.date, m.time@, off as int)
        } else {
            res is None
        },
{
    let back = Duration::try_seconds(-(off as i64)).unwrap();
    if shift_exec(m.date, m.time, &back).is_none() {
        return None;
    }
    write_moment(m, off)
}

/// The texts of the start and the end of the event for the record `r`,
/// `default` being the length of a timed event, where the local zone is
/// `o1` seconds east of UTC at the start and `o2` at the end of a
/// schedule: the start in UTC, and the end moved from the start (see
/// `span_end`) in UTC under the same offset, or the end of the schedule
/// written on the local clock; `None` where a moment falls outside the
/// calendar.
pub open spec fn event_texts(r: RecordView, default: int, o1: int, o2: int) -> Option<(Seq<char>, Seq<char>)> {
    match utc_moment_text(r.date, r.start_time(), o1, 0) {
        Some(start) => match span_end(r, default) {
            EndView::Shifted(x) => match utc_moment_text(r.date, r.start_time(), o1, x) {
                Some(end) => Some((start, end)),
                None => None,
            },
            EndView::Local(d, t) => if shift_moment(d, t, -o2 * NANOS_PER_SEC) is Some {
                Some((start, moment_text(d, t, o2)))
            } else {
                None
            },
        },
        None => None,
    }
}

/// The length of a timed event under the settings `c`.
pub open spec fn default_length(c: ConfigView) -> int {
    match c.default_duration {
        Some(d) => d,
        None => crate::config::fifteen_minutes(),
    }
}

/// How the end of an event is written: its start moved by a duration, in
/// UTC, or a moment on the local wall clock.
#[derive(Debug)]
pub enum EventEnd {
    Shifted(Duration),
    Local(DateTime),
}

/// The abstract content of an event's end: a shift in nanoseconds, or a
/// day and a time of day.
pub enum EndView {
    Shifted(int),
    Local(Date, int),
}

impl View for EventEnd {
    type V = EndView;

    open spec fn view(&self) -> EndView {
        match self {
            EventEnd::Shifted(d) => EndView::Shifted(d@),
            EventEnd::Local(m) => EndView::Local(m.date, m.time@),
        }
    }
}

/// How the event for the record `r` ends, `default` being the length of a
/// timed event: the default length after its start for a timed record,
/// the end of its schedule on its day for a scheduled record, and a day
/// after its start for a whole-day record.
pub open spec fn span_end(r: RecordView, default: int) -> EndView {
    match r.typ {
        RecordType::At => EndView::Shifted(default),
        RecordType::Schedule => EndView::Local(r.date, r.scheduled.unwrap().1),
        RecordType::AllDay => EndView::Shifted(crate::time::NANOS_PER_DAY as int),
    }
}

/// The start moment of the event for `record` (the record's day and start
/// time, written in UTC with no shift) and how it ends (see `span_end`).
pub fn event_span(record: &Record, default: Duration) -> (res: (DateTime, EventEnd))
    requires
        record@.well_typed(),
    ensures
        res.0.date == record@.date,
        res.0.time@ == record@.start_time(),
        res.1@ == span_end(record@, default@),
{
    let at = record.datetime();
    let end = match record.record_type() {
        RecordType::At => EventEnd::Shifted(default),
        RecordType::Schedule => EventEnd::Local(
            DateTime { date: at.date, time: record.scheduled().unwrap().1 },
        ),
        RecordType::AllDay => EventEnd::Shifted(Duration::try_days(1).unwrap()),
    };
    (at, end)
}

impl GoogleClient {
    /// The event that `record` becomes in the calendar `calendar_id` (see
    /// `filled_event`), given the event stored for it, if any, and its
    /// start and end moments as written; a new event for a record with a
    /// remote key keeps its new identifier number under the key.
    pub fn fill_event(
        &mut self,
        calendar_id: String,
        record: &Record,
        existing: Option<CalendarEvent>,
        start: String,
        end: String,
    ) -> (res: CalendarEvent)
        requires
            existing is None && needs_new_uid(old(self)@.ical_map, record@.internal_key)
                ==> greatest_value(old(self)@.ical_map) < u64::MAX,
        ensures
            res@ == filled_event(
                old(self)@.ical_map,
                calendar_id@,
                record@,
                opt_event(existing),
                start@,
                end@,
            ),
            final(self)@ == (GoogleView {
                ical_map: uids_after_fill(
                    old(self)@.ical_map,
                    record@.internal_key,
                    existing is Some,
                ),
                ..old(self)@
            }),
    {
        proof {
            use_type_invariant(&*self);
        }
        let ghost m = self@.ical_map;
        let mut event = match existing {
            Some(e) => e,
            None => {
                let key = record.internal_key();
                let uid = match &key {
                    Some(k) => match self.uid_of(k) {
                        Some(u) => u,
                        None => {
                            let u = self.pick_uid();
                            let mut map = NameTable::new();
                            std::mem::swap(&mut map, &mut self.ical_map);
                            map.insert(k.clone(), u);
                            self.ical_map = map;
                            u
                        },
                    },
                    None => self.pick_uid(),
                };
                let mut text = to_chars("UID:");
                let digits = format_u64(uid);
                push_all(&mut text, digits.as_slice());
                CalendarEvent {
                    id: key,
                    calendar_id: Some(calendar_id.clone()),
                    ical_uid: Some(from_chars(text.as_slice())),
                    start: None,
                    end: None,
                    original_start_time: None,
                    end_time_unspecified: None,
                    reminders: None,
                    summary: None,
                    recurrence: None,
                    status: None,
                }
            },
        };
        event.start = Some(EventCalendarDate { date: None, date_time: Some(start) });
        event.end = Some(EventCalendarDate { date: None, date_time: Some(end) });
        match record.notifications() {
            Some(ns) => {
                event.reminders = reminders_exec(&ns);
            },
            None => {},
        }
        event.calendar_id = Some(calendar_id);
        event.summary = Some(record.detail());
        event
    }

    /// The event that `record` becomes in the calendar `calendar_id`, given
    /// the event stored for it, if any: it starts at the record's moment, in
    /// UTC, and ends after the default duration (a timed record), at the
    /// end of its schedule on the local clock (a scheduled record), or a
    /// day later (a whole-day record).
    ///
    /// The zone's offset is read once at the record's moment, and once more
    /// at the end of a schedule; the texts are then exactly those of
    /// `event_texts` (see `event_texts_at`). Where the zone gives no single
    /// offset (a local time that does not exist or is not unique), or a
    /// moment falls outside the calendar, the result is `OutOfRange` and
    /// nothing changes.
    pub fn record_to_event(
        &mut self,
        calendar_id: String,
        record: &Record,
        existing: Option<CalendarEvent>,
    ) -> (res: Result<CalendarEvent, SaturnError>)
        requires
            record@.well_typed(),
            existing is None && needs_new_uid(old(self)@.ical_map, record@.internal_key)
                ==> greatest_value(old(self)@.ical_map) < u64::MAX,
        ensures
            res is Err ==> res == Err::<CalendarEvent, SaturnError>(SaturnError::OutOfRange)
                && final(self)@ == old(self)@,
            res is Ok ==> final(self)@ == (GoogleView {
                ical_map: uids_after_fill(
                    old(self)@.ical_map,
                    record@.internal_key,
                    existing is Some,
                ),
                ..old(self)@
            }),
            res matches Ok(ev) ==> exists|o1: int, o2: int|
                #![trigger event_texts(record@, default_length(old(self)@.config), o1, o2)]
                {
                    let texts = event_texts(record@, default_length(old(self)@.config), o1, o2);
                    &&& day_offset(o1)
                    &&& day_offset(o2)
                    &&& texts is Some
                    &&& ev@ == filled_event(
                        old(self)@.ical_map,
                        calendar_id@,
                        record@,
                        opt_event(existing),
                        texts->Some_0.0,
                        texts->Some_0.1,
                    )
                },
    {
        let (at, span) = event_span(record, self.config.default_duration());
        let o1 = match local_offset_for(
            at.date.year,
            at.date.month,
            at.date.day,
            at.time.hour(),
            at.time.minute(),
            at.time.second(),
            at.time.nanosecond(),
        ) {
            Some(o) => o,
            None => {
                return Err(SaturnError::OutOfRange);
            },
        };
        let o2 = match span {
            EventEnd::Local(m) => match local_offset_for(
                m.date.year,
                m.date.month,
                m.date.day,
                m.time.hour(),
                m.time.minute(),
                m.time.second(),
                m.time.nanosecond(),
            ) {
                Some(o) => o,
                None => {
                    return Err(SaturnError::OutOfRange);
                },
            },
            EventEnd::Shifted(_) => o1,
        };
        let (start, end) = match event_texts_at(record, self.config.default_duration(), o1, o2) {
            Some(p) => p,
            None => {
                return Err(SaturnError::OutOfRange);
            },
        };
        let ghost (sv, ev) = (start@, end@);
        let event = self.fill_event(calendar_id, record, existing, start, end);
        assert(event_texts(record@, default_length(old(self)@.config), o1 as int, o2 as int) == Some(
            (sv, ev),
        ));
        Ok(event)
    }
}

/// The texts of the start and the end of the event for `record` (see
/// `event_texts`), `default` being the length of a timed event, where the
/// local zone is `o1` seconds east of UTC at the record's moment and `o2`
/// at the end of its schedule; `None` exactly where a moment falls outside
/// the calendar.
pub fn event_texts_at(record: &Record, default: Duration, o1: i32, o2: i32) -> (res: Option<(String, String)>)
    requires
        record@.well_typed(),
        day_offset(o1 as int),
        day_offset(o2 as int),
    ensures
        match event_texts(record@, default@, o1 as int, o2 as int) {
            Some((s, e)) => res matches Some(p) && p.0@ == s && p.1@ == e,
            None => res is None,
        },
{
    let (at, span) = event_span(record, default);
    let start = utc_text(at, o1, Duration::zero())?;
    let end = match span {
        EventEnd::Shifted(d) => utc_text(at, o1, d)?,
        EventEnd::Local(m) => offset_text(m, o2)?,
    };
    Some((start, end))
}

// ------------------------------------------------------------------------
// Repeated events
// ------------------------------------------------------------------------

/// The recurrence that the first of the rules `rules[i..]` that reads
/// makes of the record `rv`; `NoRecurrenceFound` when none reads.
pub open spec fn first_rule(rv: RecordView, rules: Seq<Seq<char>>, i: int) -> Outcome<RecurringView>
    decreases rules.len() - i,
{
    if i < 0 || i >= rules.len() {
        Outcome::Fail(SaturnError::NoRecurrenceFound)
    } else {
        match rule_recurrence(rules[i]) {
            Outcome::Value(n) => Outcome::Value(
                RecurringView { record: rv, recurrence: n, recurrence_key: 0, internal_key: None },
            ),
            Outcome::Fail(_) => first_rule(rv, rules, i + 1),
            Outcome::Halt => Outcome::Halt,
        }
    }
}

/// The recurrence `r` under the remote key `id`, which its record keeps as
/// its remote recurrence key.
pub open spec fn under_key(r: RecurringView, id: Option<Seq<char>>) -> RecurringView {
    RecurringView {
        internal_key: id,
        record: RecordView { internal_recurrence_key: id, ..r.record },
        ..r
    }
}

/// The recurrence that the repeated event `e`, read as the record `rv`,
/// becomes: `rv` repeated by the first of its rules that reads, under the
/// event's id.
pub open spec fn event_recurrence(e: EventView, rv: RecordView) -> Outcome<RecurringView> {
    match e.recurrence {
        None => Outcome::Fail(SaturnError::NoRecurrenceData),
        Some(rules) => match first_rule(rv, rules, 0) {
            Outcome::Value(r) => Outcome::Value(under_key(r, e.id)),
            Outcome::Fail(err) => Outcome::Fail(err),
            Outcome::Halt => Outcome::Halt,
        },
    }
}

/// The recurrences that every rule among the first `n` of `rules` that
/// reads makes of the record `rv`, under the remote key `id`; none kept
/// unless `keep`.
pub open spec fn rule_recurrences(
    rv: RecordView,
    rules: Seq<Seq<char>>,
    id: Option<Seq<char>>,
    keep: bool,
    n: int,
) -> Outcome<Seq<RecurringView>>
    decreases n,
{
    if n <= 0 {
        Outcome::Value(Seq::empty())
    } else {
        match rule_recurrences(rv, rules, id, keep, n - 1) {
            Outcome::Value(prev) => match rule_recurrence(rules[n - 1]) {
                Outcome::Value(len) => Outcome::Value(
                    if keep {
                        prev.push(
                            under_key(
                                RecurringView {
                                    record: rv,
                                    recurrence: len,
                                    recurrence_key: 0,
                                    internal_key: None,
                                },
                                id,
                            ),
                        )
                    } else {
                        prev
                    },
                ),
                Outcome::Fail(_) => Outcome::Value(prev),
                Outcome::Halt => Outcome::Halt,
            },
            other => other,
        }
    }
}

/// Whether an event is kept in listings: it is not cancelled.
pub open spec fn not_cancelled(e: EventView) -> bool {
    e.status != Some(EventStatus::Cancelled)
}

/// The recurrences that the first `n` of `events` make, each read as the
/// record at the same place of `records`: for each event with rules, the
/// recurrences of its rules (see `rule_recurrences`), kept unless the event
/// is cancelled.
pub open spec fn listed_recurrences(events: Seq<EventView>, records: Seq<RecordView>, n: int) -> Outcome<
    Seq<RecurringView>,
>
    decreases n,
{
    if n <= 0 {
        Outcome::Value(Seq::empty())
    } else {
        match listed_recurrences(events, records, n - 1) {
            Outcome::Value(prev) => match events[n - 1].recurrence {
                Some(rules) => match rule_recurrences(
                    records[n - 1],
                    rules,
                    events[n - 1].id,
                    not_cancelled(events[n - 1]),
                    rules.len() as int,
                ) {
                    Outcome::Value(more) => Outcome::Value(prev + more),
                    other => other,
                },
                None => Outcome::Value(prev),
            },
            other => other,
        }
    }
}

/// The numbers by event id after the repeated events among the first `n`
/// of `events` were read.
pub open spec fn noted_repeated(m: Map<Seq<char>, u64>, events: Seq<EventView>, n: int) -> Map<
    Seq<char>,
    u64,
>
    decreases n,
{
    if n <= 0 {
        m
    } else if events[n - 1].recurrence is Some {
        noted(noted_repeated(m, events, n - 1), events[n - 1])
    } else {
        noted_repeated(m, events, n - 1)
    }
}

/// The views of a list of events.
pub open spec fn event_list(v: Seq<CalendarEvent>) -> Seq<EventView> {
    v.map_values(|e: CalendarEvent| e@)
}

/// The views of a list of recurrences.
pub open spec fn recurrence_list(v: Seq<RecurringRecord>) -> Seq<RecurringView> {
    v.map_values(|r: RecurringRecord| r@)
}

/// The recurrence that the repeated event `event`, read as `record`,
/// becomes (see `event_recurrence`).
pub fn recurrence_from(event: &CalendarEvent, record: Record) -> (res: Outcome<RecurringRecord>)
    ensures
        match event_recurrence(event@, record@) {
            Outcome::Value(v) => res matches Outcome::Value(r) && r@ == v,
            Outcome::Fail(e) => res == Outcome::<RecurringRecord>::Fail(e),
            Outcome::Halt => res is Halt,
        },
{
    let rules = match &event.recurrence {
        Some(r) => r,
        None => {
            return Outcome::Fail(SaturnError::NoRecurrenceData);
        },
    };
    let ghost rs = rules@.map_values(|s: String| s@);
    assert(event@.recurrence == Some(rs));
    let n = rules.len();
    let mut i: usize = 0;
    while i < n
        invariant
            n == rules@.len(),
            rs == rules@.map_values(|s: String| s@),
            event@.recurrence == Some(rs),
            i <= n,
            first_rule(record@, rs, 0) == first_rule(record@, rs, i as int),
        decreases n - i,
    {
        assert(rs[i as int] == rules@[i as int]@);
        match read_rrule(record.duplicate(), &rules[i]) {
            Outcome::Value(mut r) => {
                r.set_internal_key(crate::record::clone_opt_string(&event.id));
                return Outcome::Value(r);
            },
            Outcome::Fail(_) => {},
            Outcome::Halt => {
                return Outcome::Halt;
            },
        }
        i = i + 1;
    }
    Outcome::Fail(SaturnError::NoRecurrenceFound)
}

/// Appends the recurrences that every rule of `rules` that reads makes of
/// `record`, under the remote key `id`, when `keep` (see
/// `rule_recurrences`).
fn push_rule_recurrences(
    out: &mut Vec<RecurringRecord>,
    record: &Record,
    rules: &Vec<String>,
    id: &Option<String>,
    keep: bool,
) -> (res: bool)
    ensures
        match rule_recurrences(
            record@,
            rules@.map_values(|s: String| s@),
            opt_str(*id),
            keep,
            rules@.len() as int,
        ) {
            Outcome::Value(more) => res && recurrence_list(final(out)@) == recurrence_list(old(out)@)
                + more,
            _ => !res,
        },
{
    let ghost rs = rules@.map_values(|s: String| s@);
    let ghost start = recurrence_list(out@);
    let n = rules.len();
    let mut i: usize = 0;
    while i < n
        invariant
            n == rules@.len(),
            rs == rules@.map_values(|s: String| s@),
            i <= n,
            rule_recurrences(record@, rs, opt_str(*id), keep, i as int) matches Outcome::Value(
                more,
            ) && recurrence_list(out@) == start + more,
        decreases n - i,
    {
        assert(rs[i as int] == rules@[i as int]@);
        let ghost before = out@;
        match read_rrule(record.duplicate(), &rules[i]) {
            Outcome::Value(mut r) => {
                r.set_internal_key(crate::record::clone_opt_string(id));
                if keep {
                    out.push(r);
                    assert(recurrence_list(out@) =~= recurrence_list(before).push(r@));
                }
            },
            Outcome::Fail(_) => {},
            Outcome::Halt => {
                proof {
                    lemma_rules_stay_halted(record@, rs, opt_str(*id), keep, i + 1, n as int);
                }
                return false;
            },
        }
        i = i + 1;
    }
    true
}

impl GoogleClient {
    /// The recurrence that the repeated event `event` becomes: the event,
    /// read as a record against the local clock (see `event_to_record`),
    /// repeated by the first of its rules that reads, under the event's id.
    ///
    /// Where reading stops, the result is `OutOfRange`.
    pub fn recurrence_of_event(&mut self, event: &CalendarEvent) -> (res: Result<
        RecurringRecord,
        SaturnError,
    >)
        ensures
            res matches Ok(r) ==> exists|rv: RecordView|
                reads_as(event@, rv) && #[trigger] event_recurrence(event@, rv) == Outcome::Value(
                    r@,
                ),
            res matches Err(e) ==> e == SaturnError::OutOfRange || exists|rv: RecordView|
                reads_as(event@, rv) && #[trigger] event_recurrence(event@, rv)
                    == Outcome::<RecurringView>::Fail(e),
            res is Ok ==> final(self)@ == (GoogleView {
                ical_map: noted(old(self)@.ical_map, event@),
                ..old(self)@
            }),
            final(self)@ == old(self)@ || final(self)@ == (GoogleView {
                ical_map: noted(old(self)@.ical_map, event@),
                ..old(self)@
            }),
    {
        let record = match self.event_to_record(event) {
            Ok(r) => r,
            Err(e) => {
                return Err(e);
            },
        };
        let ghost rv = record@;
        match recurrence_from(event, record) {
            Outcome::Value(r) => {
                assert(event_recurrence(event@, rv) == Outcome::Value(r@));
                Ok(r)
            },
            Outcome::Fail(e) => {
                assert(event_recurrence(event@, rv) == Outcome::<RecurringView>::Fail(e));
                Err(e)
            },
            Outcome::Halt => Err(SaturnError::OutOfRange),
        }
    }

    /// The recurrences that the events `events` make: each event with rules
    /// is read as a record against the local clock (see `event_to_record`)
    /// and repeated by every one of its rules that reads, under its id,
    /// unless it is cancelled.
    ///
    /// Where reading stops, the result is `OutOfRange`.
    pub fn list_recurrences(&mut self, events: &Vec<CalendarEvent>) -> (res: Result<
        Vec<RecurringRecord>,
        SaturnError,
    >)
        ensures
            res is Err ==> res == Err::<Vec<RecurringRecord>, SaturnError>(SaturnError::OutOfRange),
            res is Ok ==> final(self)@ == (GoogleView {
                ical_map: noted_repeated(
                    old(self)@.ical_map,
                    event_list(events@),
                    events@.len() as int,
                ),
                ..old(self)@
            }),
            res matches Ok(v) ==> exists|records: Seq<RecordView>|
                records.len() == events@.len() && (forall|i: int|
                    0 <= i < events@.len() && events@[i]@.recurrence is Some ==> reads_as(
                        events@[i]@,
                        #[trigger] records[i],
                    )) && #[trigger] listed_recurrences(
                    event_list(events@),
                    records,
                    events@.len() as int,
                ) == Outcome::Value(recurrence_list(v@)),
    {
        let ghost evs = event_list(events@);
        let ghost mut records: Seq<RecordView> = Seq::empty();
        let mut out: Vec<RecurringRecord> = Vec::new();
        let n = events.len();
        let mut i: usize = 0;
        assert(recurrence_list(out@) =~= Seq::<RecurringView>::empty());
        while i < n
            invariant
                n == events@.len(),
                evs == event_list(events@),
                i <= n,
                records.len() == i,
                forall|j: int|
                    0 <= j < i && evs[j].recurrence is Some ==> reads_as(evs[j], #[trigger] records[j]),
                listed_recurrences(evs, records, i as int) == Outcome::Value(recurrence_list(out@)),
                self@ == (GoogleView {
                    ical_map: noted_repeated(old(self)@.ical_map, evs, i as int),
                    ..old(self)@
                }),
            decreases n - i,
        {
            let event = &events[i];
            assert(evs[i as int] == event@);
            let ghost prev_records = records;
            match &event.recurrence {
                Some(rules) => {
                    let record = match self.event_to_record(event) {
                        Ok(r) => r,
                        Err(e) => {
                            return Err(e);
                        },
                    };
                    proof {
                        records = records.push(record@);
                    }
                    let keep = match event.status {
                        Some(EventStatus::Cancelled) => false,
                        _ => true,
                    };
                    assert(keep == not_cancelled(evs[i as int]));
                    if !push_rule_recurrences(&mut out, &record, rules, &event.id, keep) {
                        return Err(SaturnError::OutOfRange);
                    }
                },
                None => {
                    proof {
                        records = records.push(blank_record(Date { year: 1970, month: 1, day: 1 }));
                    }
                },
            }
            assert(listed_recurrences(evs, prev_records, i as int) == listed_recurrences(
                evs,
                records,
                i as int,
            )) by {
                lemma_listed_prefix(evs, prev_records, records, i as int);
            }
            i = i + 1;
        }
        assert(records.len() == events@.len());
        Ok(out)
    }
}

/// Once reading the rules has stopped, reading more of them stays stopped.
proof fn lemma_rules_stay_halted(
    rv: RecordView,
    rules: Seq<Seq<char>>,
    id: Option<Seq<char>>,
    keep: bool,
    i: int,
    n: int,
)
    requires
        1 <= i <= n,
        rule_recurrences(rv, rules, id, keep, i) is Halt,
    ensures
        rule_recurrences(rv, rules, id, keep, n) is Halt,
    decreases n - i,
{
    if i < n {
        lemma_rules_stay_halted(rv, rules, id, keep, i + 1, n);
    }
}

/// The recurrences listed for the first `n` events depend only on the first
/// `n` records.
proof fn lemma_listed_prefix(events: Seq<EventView>, a: Seq<RecordView>, b: Seq<RecordView>, n: int)
    requires
        0 <= n <= a.len(),
        n <= b.len(),
        forall|j: int| 0 <= j < n ==> a[j] == b[j],
    ensures
        listed_recurrences(events, a, n) == listed_recurrences(events, b, n),
    decreases n,
{
    if n > 0 {
        lemma_listed_prefix(events, a, b, n - 1);
    }
}

// ------------------------------------------------------------------------
// Recurrences as events
// ------------------------------------------------------------------------

/// One day, in nanoseconds: the remote calendar's shortest repetition.
pub open spec fn one_day() -> int {
    86_400 * NANOS_PER_SEC as int
}

/// The event `ev` repeated by the rule of a recurrence of length `len`.
pub open spec fn with_rule(ev: EventView, len: int) -> EventView {
    EventView { recurrence: Some(seq![rule_text(len)]), ..ev }
}

/// The record of the recurrence `r`, under the recurrence's remote key.
pub open spec fn record_under_key(r: RecurringView) -> RecordView {
    RecordView { internal_key: r.internal_key, ..r.record }
}

/// Gives `event` the rule of a recurrence of `record`.
fn set_rule(event: &mut CalendarEvent, record: &RecurringRecord)
    ensures
        final(event)@ == with_rule(old(event)@, record@.recurrence),
{
    let mut rules: Vec<String> = Vec::new();
    rules.push(record.to_rrule());
    assert(rules@.map_values(|s: String| s@) =~= seq![rule_text(record@.recurrence)]);
    event.recurrence = Some(rules);
}

impl GoogleClient {
    /// The event that a new recurrence `record` becomes in the calendar
    /// `calendar_id`, given the event stored for its record, if any: its
    /// record's event (see `record_to_event`), whose identifier number is
    /// kept, with the recurrence's rule. A recurrence shorter than a day is
    /// refused.
    pub fn recurrence_to_event(
        &mut self,
        calendar_id: String,
        record: &RecurringRecord,
        existing: Option<CalendarEvent>,
    ) -> (res: Result<CalendarEvent, SaturnError>)
        requires
            record@.recurrence >= one_day() ==> record@.record.well_typed(),
            record@.recurrence >= one_day() && existing is None && needs_new_uid(
                old(self)@.ical_map,
                record@.record.internal_key,
            ) ==> greatest_value(old(self)@.ical_map) < u64::MAX,
        ensures
            record@.recurrence < one_day() ==> res == Err::<CalendarEvent, SaturnError>(
                SaturnError::RecurrenceTooShort,
            ),
            res is Err ==> final(self)@ == old(self)@,
            res matches Err(e) ==> e == SaturnError::RecurrenceTooShort || e
                == SaturnError::OutOfRange,
            res matches Ok(ev) ==> record@.recurrence >= one_day() && exists|o1: int, o2: int|
                #![trigger event_texts(record@.record, default_length(old(self)@.config), o1, o2)]
                {
                    let texts = event_texts(
                        record@.record,
                        default_length(old(self)@.config),
                        o1,
                        o2,
                    );
                    let filled = filled_event(
                        old(self)@.ical_map,
                        calendar_id@,
                        record@.record,
                        opt_event(existing),
                        texts->Some_0.0,
                        texts->Some_0.1,
                    );
                    &&& day_offset(o1)
                    &&& day_offset(o2)
                    &&& texts is Some
                    &&& ev@ == with_rule(filled, record@.recurrence)
                    &&& final(self)@ == (GoogleView {
                        ical_map: noted(
                            uids_after_fill(
                                old(self)@.ical_map,
                                record@.record.internal_key,
                                existing is Some,
                            ),
                            filled,
                        ),
                        ..old(self)@
                    })
                },
    {
        let day = Duration::try_days(1).unwrap();
        if record.recurrence().lt(&day) {
            return Err(SaturnError::RecurrenceTooShort);
        }
        let inner = record.record_copy();
        let mut event = match self.record_to_event(calendar_id, &inner, existing) {
            Ok(e) => e,
            Err(e) => {
                return Err(e);
            },
        };
        self.note_uid(&event);
        set_rule(&mut event, record);
        Ok(event)
    }

    /// The event that the recurrence `record` becomes when it is updated
    /// in the calendar `calendar_id`, given the event stored for it, if any:
    /// the event of its record under the recurrence's remote key (see
    /// `record_to_event`), with the recurrence's rule.
    pub fn recurrence_update_event(
        &mut self,
        calendar_id: String,
        record: &RecurringRecord,
        existing: Option<CalendarEvent>,
    ) -> (res: Result<CalendarEvent, SaturnError>)
        requires
            record@.record.well_typed(),
            existing is None && needs_new_uid(old(self)@.ical_map, record@.internal_key)
                ==> greatest_value(old(self)@.ical_map) < u64::MAX,
        ensures
            res is Err ==> res == Err::<CalendarEvent, SaturnError>(SaturnError::OutOfRange)
                && final(self)@ == old(self)@,
            res is Ok ==> final(self)@ == (GoogleView {
                ical_map: uids_after_fill(
                    old(self)@.ical_map,
                    record@.internal_key,
                    existing is Some,
                ),
                ..old(self)@
            }),
            res matches Ok(ev) ==> exists|o1: int, o2: int|
                #![trigger event_texts(record_under_key(record@), default_length(old(self)@.config), o1, o2)]
                {
                    let texts = event_texts(
                        record_under_key(record@),
                        default_length(old(self)@.config),
                        o1,
                        o2,
                    );
                    &&& day_offset(o1)
                    &&& day_offset(o2)
                    &&& texts is Some
                    &&& ev@ == with_rule(
                        filled_event(
                            old(self)@.ical_map,
                            calendar_id@,
                            record_under_key(record@),
                            opt_event(existing),
                            texts->Some_0.0,
                            texts->Some_0.1,
                        ),
                        record@.recurrence,
                    )
                },
    {
        let mut inner = record.record_copy();
        inner.set_internal_key(record.internal_key());
        let mut event = match self.record_to_event(calendar_id, &inner, existing) {
            Ok(e) => e,
            Err(e) => {
                return Err(e);
            },
        };
        set_rule(&mut event, record);
        Ok(event)
    }
}

// ------------------------------------------------------------------------
// What is due now
// ------------------------------------------------------------------------

/// Whether a record of the remote calendar is due at the moment `(nd, nt)`,
/// looking `last` nanoseconds ahead: it starts after now and within `last`
/// of now, or one of its notifications is now (see `notification_due`). A
/// record without its placement, or a moment that leaves the representable
/// days, stops the reading.
pub open spec fn remote_due(r: RecordView, last: int, nd: Date, nt: int) -> Outcome<bool> {
    if !r.well_typed() {
        Outcome::Halt
    } else {
        let st = r.start_time();
        let soon = if moment_before(nd, nt, r.date, st) {
            match shift_moment(r.date, st, -last) {
                None => Outcome::Halt,
                Some((ld, lt)) => Outcome::Value(moment_before(ld, lt, nd, nt)),
            }
        } else {
            Outcome::Value(false)
        };
        match soon {
            Outcome::Value(true) => Outcome::Value(true),
            Outcome::Value(false) => match r.notifications {
                Some(ns) => notification_due(r.date, st, ns, nd, nt, 0),
                None => Outcome::Value(false),
            },
            _ => Outcome::Halt,
        }
    }
}

/// The records among the first `n` of `rs` that are due at `(nd, nt)`, in
/// order (see `remote_due`).
pub open spec fn remote_due_records(rs: Seq<RecordView>, last: int, nd: Date, nt: int, n: int) -> Outcome<
    Seq<RecordView>,
>
    decreases n,
{
    if n <= 0 {
        Outcome::Value(Seq::empty())
    } else {
        match remote_due_records(rs, last, nd, nt, n - 1) {
            Outcome::Value(prev) => match remote_due(rs[n - 1], last, nd, nt) {
                Outcome::Value(b) => Outcome::Value(
                    if b {
                        prev.push(rs[n - 1])
                    } else {
                        prev
                    },
                ),
                _ => Outcome::Halt,
            },
            other => other,
        }
    }
}

/// Whether the record `r` is due at `now`, looking `last` ahead (see
/// `remote_due`).
fn remote_due_exec(r: &Record, last: &Duration, now: &DateTime) -> (res: Outcome<bool>)
    ensures
        res == remote_due(r@, last@, now.date, now.time@),
{
    if !r.is_well_typed() {
        return Outcome::Halt;
    }
    let dt = r.datetime();
    let soon = if now.is_before(&dt) {
        let neg = match Duration::from_nanos(-last.nanos()) {
            Some(v) => v,
            None => {
                return Outcome::Halt;
            },
        };
        match shift_exec(dt.date, dt.time, &neg) {
            Some(lo) => lo.is_before(now),
            None => {
                return Outcome::Halt;
            },
        }
    } else {
        false
    };
    if soon {
        return Outcome::Value(true);
    }
    match r.notifications() {
        Some(ns) => notifications_due_exec(dt.date, dt.time, &ns, now),
        None => Outcome::Value(false),
    }
}

/// The records of `records` that are due at `now`, looking `last` ahead,
/// in order (see `remote_due`); a stop where reading stops.
pub fn remote_events_due(records: &Vec<Record>, last: &Duration, now: &DateTime) -> (res: Outcome<
    Vec<Record>,
>)
    ensures
        match remote_due_records(
            records@.map_values(|r: Record| r@),
            last@,
            now.date,
            now.time@,
            records@.len() as int,
        ) {
            Outcome::Value(v) => res matches Outcome::Value(out) && out@.map_values(|r: Record| r@)
                == v,
            _ => res is Halt,
        },
{
    let ghost rs = records@.map_values(|r: Record| r@);
    let n = records.len();
    let mut out: Vec<Record> = Vec::new();
    let mut i: usize = 0;
    assert(out@.map_values(|r: Record| r@) =~= Seq::<RecordView>::empty());
    while i < n
        invariant
            n == records@.len(),
            rs == records@.map_values(|r: Record| r@),
            i <= n,
            remote_due_records(rs, last@, now.date, now.time@, i as int) == Outcome::Value(
                out@.map_values(|r: Record| r@),
            ),
        decreases n - i,
    {
        let r = &records[i];
        assert(rs[i as int] == r@);
        match remote_due_exec(r, last, now) {
            Outcome::Value(true) => {
                let ghost prev = out@;
                out.push(r.duplicate());
                assert(out@.map_values(|x: Record| x@) =~= prev.map_values(|x: Record| x@).push(
                    r@,
                ));
            },
            Outcome::Value(false) => {},
            _ => {
                proof {
                    lemma_due_stays_halted(rs, last@, now.date, now.time@, i + 1, n as int);
                }
                return Outcome::Halt;
            },
        }
        i = i + 1;
    }
    Outcome::Value(out)
}

/// Once reading what is due has stopped, reading more records stays
/// stopped.
proof fn lemma_due_stays_halted(rs: Seq<RecordView>, last: int, nd: Date, nt: int, i: int, n: int)
    requires
        1 <= i <= n,
        remote_due_records(rs, last, nd, nt, i) is Halt,
    ensures
        remote_due_records(rs, last, nd, nt, n) is Halt,
    decreases n - i,
{
    if i < n {
        lemma_due_stays_halted(rs, last, nd, nt, i + 1, n);
    }
}

// ------------------------------------------------------------------------
// Listing events over a span
// ------------------------------------------------------------------------

/// A reading of a local moment: year, month, day, and nanoseconds of the
/// day.
pub type MomentReading = (int, int, int, int);

/// Whether the day `a` (year, month, day) is strictly before the day `b`.
pub open spec fn ymd_before(a: (int, int, int), b: (int, int, int)) -> bool {
    ||| a.0 < b.0
    ||| (a.0 == b.0 && a.1 < b.1)
    ||| (a.0 == b.0 && a.1 == b.1 && a.2 < b.2)
}

/// The year, month and day of `d`.
pub open spec fn date_triple(d: Date) -> (int, int, int) {
    (d.year as int, d.month as int, d.day as int)
}

/// The reading of the moment `d`.
pub open spec fn moment_reading(d: DateTime) -> MomentReading {
    (d.date.year as int, d.date.month as int, d.date.day as int, d.time@)
}

/// Whether the reading `a` is strictly before the reading `b`.
pub open spec fn reading_before(a: MomentReading, b: MomentReading) -> bool {
    ymd_before((a.0, a.1, a.2), (b.0, b.1, b.2)) || ((a.0, a.1, a.2) == (b.0, b.1, b.2) && a.3
        < b.3)
}

/// Whether an occurrence `e` of a repeated event is listed for the span
/// from `lo` to `hi`, where `reading` is what its start moment reads as on
/// the local clock: it has a status other than cancelled, and it starts on
/// a day strictly between their days (when its start has a day), or else
/// at a moment strictly between them.
pub open spec fn occurrence_listed(
    e: EventView,
    lo: DateTime,
    hi: DateTime,
    reading: Option<MomentReading>,
) -> bool {
    &&& e.status is Some
    &&& e.status != Some(EventStatus::Cancelled)
    &&& match e.start {
        Some(st) => match st.date {
            Some(t) => match naive_date_reading(t) {
                Some(p) => ymd_before(date_triple(lo.date), p) && ymd_before(p, date_triple(hi.date)),
                None => false,
            },
            None => match (st.date_time, reading) {
                (Some(_), Some(r)) => reading_before(moment_reading(lo), r) && reading_before(
                    r,
                    moment_reading(hi),
                ),
                _ => false,
            },
        },
        None => false,
    }
}

/// The occurrences among the first `n` of `os` that are listed for the
/// span from `lo` to `hi`, with the readings `rs` (see `occurrence_listed`).
pub open spec fn occurrences_listed(
    os: Seq<EventView>,
    rs: Seq<Option<MomentReading>>,
    lo: DateTime,
    hi: DateTime,
    n: int,
) -> Seq<EventView>
    decreases n,
{
    if n <= 0 {
        Seq::empty()
    } else if occurrence_listed(os[n - 1], lo, hi, rs[n - 1]) {
        occurrences_listed(os, rs, lo, hi, n - 1).push(os[n - 1])
    } else {
        occurrences_listed(os, rs, lo, hi, n - 1)
    }
}

/// The events that the first `n` of `evs` contribute to a listing over the
/// span from `lo` to `hi`: for a repeated event, its listed occurrences
/// (fetched beside it, with the readings `rd`); another event itself,
/// unless it is cancelled.
pub open spec fn listing(
    evs: Seq<(EventView, Seq<EventView>)>,
    rd: Seq<Seq<Option<MomentReading>>>,
    lo: DateTime,
    hi: DateTime,
    n: int,
) -> Seq<EventView>
    decreases n,
{
    if n <= 0 {
        Seq::empty()
    } else {
        let prev = listing(evs, rd, lo, hi, n - 1);
        let e = evs[n - 1].0;
        if e.recurrence is Some {
            prev + occurrences_listed(
                evs[n - 1].1,
                rd[n - 1],
                lo,
                hi,
                evs[n - 1].1.len() as int,
            )
        } else if not_cancelled(e) {
            prev.push(e)
        } else {
            prev
        }
    }
}

/// Whether the event `e` reads against the clock alone: it has no moment
/// texts, and reads as a record whatever the clock shows.
pub open spec fn reads_without_clock(e: EventView) -> bool {
    &&& start_moment_text(e) is None
    &&& end_moment_text(e) is None
    &&& forall|now: DateTime| now.date.valid() ==> (#[trigger] event_outcome(e, None, None, now)) is Value
}

/// Whether every event of `evs`, and every occurrence fetched beside it,
/// reads against the clock alone.
pub open spec fn all_read_without_clock(evs: Seq<(EventView, Seq<EventView>)>) -> bool {
    forall|i: int|
        0 <= i < evs.len() ==> reads_without_clock((#[trigger] evs[i]).0) && forall|j: int|
            0 <= j < evs[i].1.len() ==> reads_without_clock(#[trigger] evs[i].1[j])
}

/// The numbers by event id after the first `n` events of `es` were read.
pub open spec fn noted_all(m: Map<Seq<char>, u64>, es: Seq<EventView>, n: int) -> Map<Seq<char>, u64>
    decreases n,
{
    if n <= 0 {
        m
    } else {
        noted(noted_all(m, es, n - 1), es[n - 1])
    }
}

/// The views of events fetched with their occurrences.
pub open spec fn fetched_list(v: Seq<(CalendarEvent, Vec<CalendarEvent>)>) -> Seq<
    (EventView, Seq<EventView>),
> {
    v.map_values(|p: (CalendarEvent, Vec<CalendarEvent>)| (p.0@, event_list(p.1@)))
}

/// The reading of the start moment of an occurrence on the local clock,
/// for the occurrences whose start has a moment but no day.
fn start_reading(e: &CalendarEvent) -> (res: Option<(i32, u32, u32, u128)>)
    ensures
        res is Some ==> (e@.start matches Some(st) && st.date is None && st.date_time is Some),
        res matches Some(r) ==> exists|off: int|
            day_offset(off) && #[trigger] text_moment(e@.start.unwrap().date_time.unwrap(), off)
                == Outcome::Value(
                Some((Date { year: r.0, month: r.1, day: r.2 }, r.3 as int)),
            ),
{
    match &e.start {
        Some(st) => match (&st.date, &st.date_time) {
            (None, Some(t)) => match local_moment(t) {
                Ok(Some(m)) => Some((m.date.year, m.date.month, m.date.day, m.time.nanos_of_day() as u128)),
                _ => None,
            },
            _ => None,
        },
        None => None,
    }
}

/// The ghost view of an optional start reading.
pub open spec fn opt_reading(r: Option<(i32, u32, u32, u128)>) -> Option<MomentReading> {
    match r {
        Some(p) => Some((p.0 as int, p.1 as int, p.2 as int, p.3 as int)),
        None => None,
    }
}

/// Whether the day `p` is strictly between the days of `lo` and `hi`.
fn day_between(p: (i32, u32, u32), lo: &DateTime, hi: &DateTime) -> (res: bool)
    ensures
        res == (ymd_before(date_triple(lo.date), (p.0 as int, p.1 as int, p.2 as int))
            && ymd_before((p.0 as int, p.1 as int, p.2 as int), date_triple(hi.date))),
{
    let a = lo.date;
    let b = hi.date;
    let after = a.year < p.0 || (a.year == p.0 && a.month < p.1) || (a.year == p.0 && a.month
        == p.1 && a.day < p.2);
    let before = p.0 < b.year || (p.0 == b.year && p.1 < b.month) || (p.0 == b.year && p.1
        == b.month && p.2 < b.day);
    after && before
}

/// Whether the reading `r` is strictly between the moments `lo` and `hi`.
fn moment_between(r: (i32, u32, u32, u128), lo: &DateTime, hi: &DateTime) -> (res: bool)
    ensures
        res == (reading_before(moment_reading(*lo), opt_reading(Some(r)).unwrap())
            && reading_before(opt_reading(Some(r)).unwrap(), moment_reading(*hi))),
{
    let p = (r.0, r.1, r.2);
    let a = lo.date;
    let b = hi.date;
    let lt = lo.time.nanos_of_day() as u128;
    let ht = hi.time.nanos_of_day() as u128;
    let day_after = a.year < p.0 || (a.year == p.0 && a.month < p.1) || (a.year == p.0 && a.month
        == p.1 && a.day < p.2);
    let same_lo = a.year == p.0 && a.month == p.1 && a.day == p.2;
    let day_before = p.0 < b.year || (p.0 == b.year && p.1 < b.month) || (p.0 == b.year && p.1
        == b.month && p.2 < b.day);
    let same_hi = b.year == p.0 && b.month == p.1 && b.day == p.2;
    (day_after || (same_lo && lt < r.3)) && (day_before || (same_hi && r.3 < ht))
}

/// Whether the occurrence `e` is listed for the span from `lo` to `hi`,
/// with the reading `reading` of its start moment (see
/// `occurrence_listed`).
fn occurrence_listed_exec(
    e: &CalendarEvent,
    lo: &DateTime,
    hi: &DateTime,
    reading: Option<(i32, u32, u32, u128)>,
) -> (res: bool)
    ensures
        res == occurrence_listed(e@, *lo, *hi, opt_reading(reading)),
{
    let status_ok = match e.status {
        Some(EventStatus::Cancelled) => false,
        Some(_) => true,
        None => false,
    };
    let in_span = match &e.start {
        Some(st) => match &st.date {
            Some(t) => match naive_date_parts(t.as_str()) {
                Some(p) => day_between(p, lo, hi),
                None => false,
            },
            None => match (&st.date_time, reading) {
                (Some(_), Some(r)) => moment_between(r, lo, hi),
                _ => false,
            },
        },
        None => false,
    };
    status_ok && in_span
}

impl GoogleClient {
    /// The records that the events `events`, each fetched with its
    /// occurrences, make for the span from `lo` to `hi`: a repeated event
    /// gives its occurrences that are listed (see `occurrence_listed`, with
    /// the start moments read on the local clock), another event itself
    /// unless it is cancelled; each is read as a record against the local
    /// clock (see `event_to_record`).
    ///
    /// Where reading stops, the result is `OutOfRange`; where every event
    /// and occurrence reads against the clock alone (see
    /// `reads_without_clock`), it does not stop.
    pub fn list_events(
        &mut self,
        events: &Vec<(CalendarEvent, Vec<CalendarEvent>)>,
        lo: &DateTime,
        hi: &DateTime,
    ) -> (res: Result<Vec<Record>, SaturnError>)
        ensures
            res is Err ==> res == Err::<Vec<Record>, SaturnError>(SaturnError::OutOfRange),
            all_read_without_clock(fetched_list(events@)) ==> res is Ok,
            res matches Ok(v) ==> exists|rd: Seq<Seq<Option<MomentReading>>>|
                {
                    let sel = #[trigger] listing(
                        fetched_list(events@),
                        rd,
                        *lo,
                        *hi,
                        events@.len() as int,
                    );
                    &&& sel.len() == v@.len()
                    &&& forall|i: int| 0 <= i < sel.len() ==> reads_as(sel[i], #[trigger] v@[i]@)
                    &&& final(self)@ == (GoogleView {
                        ical_map: noted_all(old(self)@.ical_map, sel, sel.len() as int),
                        ..old(self)@
                    })
                },
    {
        let ghost evs = fetched_list(events@);
        let ghost mut rd: Seq<Seq<Option<MomentReading>>> = Seq::empty();
        let mut out: Vec<Record> = Vec::new();
        let n = events.len();
        let mut i: usize = 0;
        while i < n
            invariant
                n == events@.len(),
                evs == fetched_list(events@),
                i <= n,
                rd.len() == i,
                ({
                    let sel = listing(evs, rd, *lo, *hi, i as int);
                    &&& sel.len() == out@.len()
                    &&& forall|j: int| 0 <= j < sel.len() ==> reads_as(sel[j], #[trigger] out@[j]@)
                    &&& self@ == (GoogleView {
                        ical_map: noted_all(old(self)@.ical_map, sel, sel.len() as int),
                        ..old(self)@
                    })
                }),
            decreases n - i,
        {
            let pair = &events[i];
            let event = &pair.0;
            assert(evs[i as int] == (event@, event_list(pair.1@)));
            let ghost sel0 = listing(evs, rd, *lo, *hi, i as int);
            let ghost mut row: Seq<Option<MomentReading>> = Seq::empty();
            let ghost mut picked: Seq<EventView> = Seq::empty();
            if event.recurrence.is_some() {
                let occ = &pair.1;
                let ghost os = event_list(occ@);
                let m = occ.len();
                let mut k: usize = 0;
                while k < m
                    invariant
                        m == occ@.len(),
                        os == event_list(occ@),
                        i < n,
                        n == events@.len(),
                        evs == fetched_list(events@),
                        evs[i as int] == (event@, os),
                        k <= m,
                        row.len() == k,
                        picked == occurrences_listed(os, row, *lo, *hi, k as int),
                        sel0.len() + picked.len() == out@.len(),
                        forall|j: int|
                            0 <= j < sel0.len() + picked.len() ==> reads_as(
                                (sel0 + picked)[j],
                                #[trigger] out@[j]@,
                            ),
                        self@ == (GoogleView {
                            ical_map: noted_all(
                                old(self)@.ical_map,
                                sel0 + picked,
                                (sel0.len() + picked.len()) as int,
                            ),
                            ..old(self)@
                        }),
                    decreases m - k,
                {
                    let o = &occ[k];
                    assert(os[k as int] == o@);
                    let reading = start_reading(o);
                    let ghost prev_row = row;
                    proof {
                        row = row.push(opt_reading(reading));
                    }
                    assert(occurrences_listed(os, prev_row, *lo, *hi, k as int) == occurrences_listed(
                        os,
                        row,
                        *lo,
                        *hi,
                        k as int,
                    )) by {
                        lemma_occurrences_prefix(os, prev_row, row, *lo, *hi, k as int);
                    }
                    if occurrence_listed_exec(o, lo, hi, reading) {
                        let ghost before = sel0 + picked;
                        let r = match self.event_to_record(o) {
                            Ok(r) => r,
                            Err(e) => {
                                assert(!reads_without_clock(evs[i as int].1[k as int]));
                                return Err(e);
                            },
                        };
                        out.push(r);
                        proof {
                            picked = picked.push(o@);
                            assert(sel0 + picked =~= before.push(o@));
                            lemma_noted_all_prefix(
                                old(self)@.ical_map,
                                before,
                                sel0 + picked,
                                before.len() as int,
                            );
                        }
                    }
                    k = k + 1;
                }
            } else {
                let keep = match event.status {
                    Some(EventStatus::Cancelled) => false,
                    _ => true,
                };
                if keep {
                    let ghost before = sel0;
                    let r = match self.event_to_record(event) {
                        Ok(r) => r,
                        Err(e) => {
                            assert(!reads_without_clock(evs[i as int].0));
                            return Err(e);
                        },
                    };
                    out.push(r);
                    proof {
                        picked = seq![event@];
                        assert(sel0 + picked =~= before.push(event@));
                        lemma_noted_all_prefix(
                            old(self)@.ical_map,
                            before,
                            sel0 + picked,
                            before.len() as int,
                        );
                    }
                } else {
                    assert(sel0 + picked =~= sel0);
                }
            }
            let ghost prev_rd = rd;
            proof {
                rd = rd.push(row);
                lemma_listing_prefix(evs, prev_rd, rd, *lo, *hi, i as int);
                assert(listing(evs, rd, *lo, *hi, i + 1) =~= sel0 + picked);
            }
            i = i + 1;
        }
        Ok(out)
    }
}

/// The numbers after reading the first `n` events depend only on those
/// events.
proof fn lemma_noted_all_prefix(m: Map<Seq<char>, u64>, a: Seq<EventView>, b: Seq<EventView>, n: int)
    requires
        0 <= n <= a.len(),
        n <= b.len(),
        forall|j: int| 0 <= j < n ==> a[j] == b[j],
    ensures
        noted_all(m, a, n) == noted_all(m, b, n),
    decreases n,
{
    if n > 0 {
        lemma_noted_all_prefix(m, a, b, n - 1);
    }
}

/// The occurrences listed among the first `n` depend only on the first `n`
/// readings.
proof fn lemma_occurrences_prefix(
    os: Seq<EventView>,
    a: Seq<Option<MomentReading>>,
    b: Seq<Option<MomentReading>>,
    lo: DateTime,
    hi: DateTime,
    n: int,
)
    requires
        0 <= n <= a.len(),
        n <= b.len(),
        forall|j: int| 0 <= j < n ==> a[j] == b[j],
    ensures
        occurrences_listed(os, a, lo, hi, n) == occurrences_listed(os, b, lo, hi, n),
    decreases n,
{
    if n > 0 {
        lemma_occurrences_prefix(os, a, b, lo, hi, n - 1);
    }
}

/// The listing of the first `n` events depends only on the first `n` rows
/// of readings.
proof fn lemma_listing_prefix(
    evs: Seq<(EventView, Seq<EventView>)>,
    a: Seq<Seq<Option<MomentReading>>>,
    b: Seq<Seq<Option<MomentReading>>>,
    lo: DateTime,
    hi: DateTime,
    n: int,
)
    requires
        0 <= n <= a.len(),
        n <= b.len(),
        forall|j: int| 0 <= j < n ==> a[j] == b[j],
    ensures
        listing(evs, a, lo, hi, n) == listing(evs, b, lo, hi, n),
    decreases n,
{
    if n > 0 {
        lemma_listing_prefix(evs, a, b, lo, hi, n - 1);
    }
}

// ------------------------------------------------------------------------
// Access tokens
// ------------------------------------------------------------------------

/// One hour, in nanoseconds.
pub open spec fn one_hour() -> int {
    3600 * NANOS_PER_SEC as int
}

/// Whether an access token that expires at `expires` is to be refreshed at
/// the moment `now` (both on the UTC clock): it expires within the hour.
/// `None` where an hour before the expiry is not a representable moment.
pub open spec fn token_expiring_at(expires: Option<DateTime>, now: DateTime) -> Option<bool> {
    match expires {
        None => Some(false),
        Some(e) => match shift_moment(e.date, e.time@, -one_hour()) {
            Some((d, t)) => Some(moment_before(d, t, now.date, now.time@)),
            None => None,
        },
    }
}

/// Whether `x` is the moment `now` moved forward by `secs` seconds.
pub open spec fn moved_by(x: DateTime, now: DateTime, secs: int) -> bool {
    shift_moment(now.date, now.time@, secs * NANOS_PER_SEC as int) == Some((x.date, x.time@))
}

/// Whether a token that lasts `secs` seconds from `now` has a
/// representable expiry.
pub open spec fn expiry_fits(now: DateTime, secs: int) -> bool {
    crate::time::duration_in_range(secs * NANOS_PER_SEC as int) && shift_moment(
        now.date,
        now.time@,
        secs * NANOS_PER_SEC as int,
    ) is Some
}

/// The moment `now` moved forward by `secs` seconds, when representable.
fn expiry(now: DateTime, secs: i64) -> (res: Option<DateTime>)
    ensures
        res is Some <==> expiry_fits(now, secs as int),
        res matches Some(x) ==> moved_by(x, now, secs as int),
{
    match Duration::try_seconds(secs) {
        Some(d) => shift_exec(now.date, now.time, &d),
        None => None,
    }
}

impl GoogleClient {
    /// Whether the access token is to be refreshed at the moment `now` on
    /// the UTC clock (see `token_expiring_at`).
    pub fn token_expiring(&self, now: DateTime) -> (res: Option<bool>)
        ensures
            res == token_expiring_at(self@.config.access_token_expires_at, now),
    {
        match self.config.access_token_expires_at() {
            None => Some(false),
            Some(e) => {
                let back = Duration::try_hours(1).unwrap();
                let neg = Duration::zero().checked_sub(&back).unwrap();
                match shift_exec(e.date, e.time, &neg) {
                    Some(x) => Some(x.is_before(&now)),
                    None => None,
                }
            },
        }
    }

    /// Keeps a refreshed access token captured at the moment `now` on the
    /// UTC clock: the token and its expiry `expires_in` seconds on; with a
    /// refresh token, that token and its expiry `refresh_expires_in`
    /// seconds on, or an hour on when none is given.
    ///
    /// Where an expiry is not a representable moment the result is
    /// `OutOfRange` and the settings stay as they were.
    pub fn apply_token(
        &mut self,
        access_token: String,
        expires_in: i64,
        refresh_token: Option<String>,
        refresh_expires_in: Option<i64>,
        now: DateTime,
    ) -> (res: Result<(), SaturnError>)
        ensures
            ({
                let refresh_secs = match refresh_expires_in {
                    Some(s) => s as int,
                    None => 3600,
                };
                res is Ok <==> expiry_fits(now, expires_in as int) && (refresh_token is Some
                    ==> expiry_fits(now, refresh_secs))
            }),
            res is Err ==> res == Err::<(), SaturnError>(SaturnError::OutOfRange) && final(self)@
                == old(self)@,
            res is Ok ==> {
                let c = final(self)@.config;
                &&& final(self)@.ical_map == old(self)@.ical_map
                &&& c.access_token == Some(access_token@)
                &&& c.access_token_expires_at matches Some(x) && moved_by(
                    x,
                    now,
                    expires_in as int,
                )
                &&& match refresh_token {
                    Some(t) => {
                        &&& c.refresh_token == Some(t@)
                        &&& c.refresh_token_expires_at matches Some(y) && moved_by(
                            y,
                            now,
                            match refresh_expires_in {
                                Some(s) => s as int,
                                None => 3600,
                            },
                        )
                    },
                    None => {
                        &&& c.refresh_token == old(self)@.config.refresh_token
                        &&& c.refresh_token_expires_at == old(
                            self,
                        )@.config.refresh_token_expires_at
                    },
                }
                &&& c == (ConfigView {
                    access_token: c.access_token,
                    access_token_expires_at: c.access_token_expires_at,
                    refresh_token: c.refresh_token,
                    refresh_token_expires_at: c.refresh_token_expires_at,
                    ..old(self)@.config
                })
            },
    {
        proof {
            use_type_invariant(&*self);
        }
        let access_expiry = match expiry(now, expires_in) {
            Some(x) => x,
            None => {
                return Err(SaturnError::OutOfRange);
            },
        };
        let refresh = match refresh_token {
            Some(t) => {
                let secs = match refresh_expires_in {
                    Some(s) => s,
                    None => 3600,
                };
                match expiry(now, secs) {
                    Some(y) => Some((t, y)),
                    None => {
                        return Err(SaturnError::OutOfRange);
                    },
                }
            },
            None => None,
        };
        let mut config = Config::new();
        std::mem::swap(&mut config, &mut self.config);
        config.set_access_token(Some(access_token));
        config.set_access_token_expires_at(Some(access_expiry));
        match refresh {
            Some((t, y)) => {
                config.set_refresh_token(Some(t));
                config.set_refresh_token_expires_at(Some(y));
            },
            None => {},
        }
        self.config = config;
        Ok(())
    }
}

// ------------------------------------------------------------------------
// Laws
// ------------------------------------------------------------------------

/// A number picked for a new event is one that no known event has: one
/// more than the largest known number is none of the known numbers.
pub proof fn law_new_uid_is_fresh(m: Map<Seq<char>, u64>)
    requires
        m.dom().finite(),
        greatest_value(m) < u64::MAX,
    ensures
        forall|k: Seq<char>| #[trigger] m.contains_key(k) ==> m[k] != greatest_value(m) + 1,
{
    crate::table::lemma_greatest_is_max(m);
}

} // verus!
