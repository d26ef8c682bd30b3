//! The entry language: a calendar entry written as words, such as
//! `tomorrow at 4pm Relax` or `recur 1w 12/25 from 7am to 12pm notify 1h
//! Christmas Morning`.
//!
//! The words are read by a state machine: an optional `recur <duration>`,
//! a date, `at <time>`, `all day` or `from <time> [to|until] <time>`, an
//! optional `notify [me] <duration>`, and the detail text.

use crate::duration::{duration_reading, duration_text_bounded, parse_duration};
use crate::error::{Outcome, SaturnError};
use crate::parse::{date_outcome, outcome_nanos, read_date, read_time, time_outcome};
use crate::record::{blank_record, push_all, Record, RecordView, RecurringRecord, RecurringView};
use crate::text::{chars_are, chars_lowercase, from_chars, lowercase, to_chars};
use crate::time::{now, Date, Duration, Time};
use vstd::prelude::*;

verus! {

/// Where the entry reader stands: what the next word is read as.
#[derive(Clone, Copy, Debug, PartialEq, Eq, Structural)]
pub enum EntryState {
    /// The duration after `recur`.
    Recur,
    /// The date, or `recur`.
    Date,
    /// `at`, `from` or `all`.
    Time,
    /// The time after `at`, or `day` after `all`.
    TimeAt,
    /// The first time after `from`.
    TimeScheduled,
    /// `to`, `until` or the second time after `from`.
    TimeScheduledHalf,
    /// `notify`, or the first word of the detail.
    Notify,
    /// `me`, or the duration before the entry to notify at.
    NotifyTime,
    /// A further word of the detail.
    Detail,
}

/// The abstract state of the entry reader between two words.
pub struct EntryProgress {
    pub state: EntryState,
    pub record: RecordView,
    pub scheduled_first: Option<int>,
    pub recurrence: Option<int>,
}

/// The abstract result of reading an entry.
pub struct EntryView {
    pub record: RecordView,
    pub recurrence: Option<RecurringView>,
}

/// A duration word read for the state machine: the program stops when the
/// amounts it holds overflow the reader (see `duration_text_bounded`).
pub open spec fn duration_word(arg: Seq<char>) -> Outcome<int> {
    if !duration_text_bounded(arg) {
        Outcome::Halt
    } else {
        match duration_reading(arg) {
            Some(n) => Outcome::Value(n),
            None => Outcome::Fail(SaturnError::InvalidDuration),
        }
    }
}

/// The detail after the word `arg` is added: the word itself for an empty
/// detail, else the detail, a space and the word.
pub open spec fn detail_with(detail: Seq<char>, arg: Seq<char>) -> Seq<char> {
    if detail.len() == 0 {
        arg
    } else {
        detail + seq![' '] + arg
    }
}

/// One word `arg` read in the reader state `p`. Times are read on a
/// twelve-hour clock unless `use_24h_time`, on any day; `today` and
/// `afternoon` are what the clock shows.
pub open spec fn entry_step(
    p: EntryProgress,
    arg: Seq<char>,
    use_24h_time: bool,
    today: Date,
    afternoon: bool,
) -> Outcome<EntryProgress> {
    match p.state {
        EntryState::Recur => match duration_word(arg) {
            Outcome::Value(n) => Outcome::Value(
                EntryProgress { recurrence: Some(n), state: EntryState::Date, ..p },
            ),
            Outcome::Fail(e) => Outcome::Fail(e),
            Outcome::Halt => Outcome::Halt,
        },
        EntryState::Date => if lowercase(arg) == "recur"@ {
            Outcome::Value(EntryProgress { state: EntryState::Recur, ..p })
        } else {
            match date_outcome(arg, today) {
                Outcome::Value(d) => Outcome::Value(
                    EntryProgress {
                        record: RecordView { date: d, ..p.record },
                        state: EntryState::Time,
                        ..p
                    },
                ),
                Outcome::Fail(e) => Outcome::Fail(e),
                Outcome::Halt => Outcome::Halt,
            }
        },
        EntryState::Time => if arg == "all"@ {
            Outcome::Value(
                EntryProgress {
                    record: p.record.made_all_day(),
                    state: EntryState::TimeAt,
                    ..p
                },
            )
        } else if arg == "at"@ {
            Outcome::Value(EntryProgress { state: EntryState::TimeAt, ..p })
        } else if arg == "from"@ {
            Outcome::Value(EntryProgress { state: EntryState::TimeScheduled, ..p })
        } else {
            Outcome::Fail(SaturnError::TimeMustBeFromOrAt)
        },
        EntryState::TimeAt => if arg == "day"@ {
            Outcome::Value(EntryProgress { state: EntryState::Notify, ..p })
        } else {
            match time_outcome(arg, !use_24h_time, afternoon) {
                Outcome::Value(t) => Outcome::Value(
                    EntryProgress {
                        record: p.record.made_at(Some(t)),
                        state: EntryState::Notify,
                        ..p
                    },
                ),
                Outcome::Fail(e) => Outcome::Fail(e),
                Outcome::Halt => Outcome::Halt,
            }
        },
        EntryState::TimeScheduled => match time_outcome(arg, !use_24h_time, afternoon) {
            Outcome::Value(t) => Outcome::Value(
                EntryProgress {
                    scheduled_first: Some(t),
                    state: EntryState::TimeScheduledHalf,
                    ..p
                },
            ),
            Outcome::Fail(e) => Outcome::Fail(e),
            Outcome::Halt => Outcome::Halt,
        },
        EntryState::TimeScheduledHalf => if arg == "to"@ || arg == "until"@ {
            Outcome::Value(p)
        } else {
            match p.scheduled_first {
                Some(first) => match time_outcome(arg, !use_24h_time, afternoon) {
                    Outcome::Value(t) => Outcome::Value(
                        EntryProgress {
                            record: p.record.made_scheduled(Some((first, t))),
                            state: EntryState::Notify,
                            ..p
                        },
                    ),
                    Outcome::Fail(e) => Outcome::Fail(e),
                    Outcome::Halt => Outcome::Halt,
                },
                None => Outcome::Halt,
            }
        },
        EntryState::Notify => if arg == "notify"@ {
            Outcome::Value(EntryProgress { state: EntryState::NotifyTime, ..p })
        } else {
            Outcome::Value(
                EntryProgress {
                    record: RecordView { detail: arg, ..p.record },
                    state: EntryState::Detail,
                    ..p
                },
            )
        },
        EntryState::NotifyTime => if arg == "me"@ {
            Outcome::Value(p)
        } else {
            match duration_word(arg) {
                Outcome::Value(n) => Outcome::Value(
                    EntryProgress {
                        record: p.record.with_notification(n),
                        state: EntryState::Detail,
                        ..p
                    },
                ),
                Outcome::Fail(e) => Outcome::Fail(e),
                Outcome::Halt => Outcome::Halt,
            }
        },
        EntryState::Detail => Outcome::Value(
            EntryProgress {
                record: RecordView { detail: detail_with(p.record.detail, arg), ..p.record },
                ..p
            },
        ),
    }
}

/// The reader before the first word: a blank record for `today`, waiting
/// for the date.
pub open spec fn entry_start(today: Date) -> EntryProgress {
    EntryProgress {
        state: EntryState::Date,
        record: blank_record(today),
        scheduled_first: None,
        recurrence: None,
    }
}

/// The reader after the first `n` words of `args`.
pub open spec fn entry_progress(
    args: Seq<Seq<char>>,
    n: int,
    use_24h_time: bool,
    today: Date,
    afternoon: bool,
) -> Outcome<EntryProgress>
    decreases n,
{
    if n <= 0 {
        Outcome::Value(entry_start(today))
    } else {
        match entry_progress(args, n - 1, use_24h_time, today, afternoon) {
            Outcome::Value(p) => entry_step(p, args[n - 1], use_24h_time, today, afternoon),
            Outcome::Fail(e) => Outcome::Fail(e),
            Outcome::Halt => Outcome::Halt,
        }
    }
}

/// What reading the words `args` gives: the record, and with `recur` the
/// record repeated every given duration (no keys assigned yet).
pub open spec fn entry_outcome(
    args: Seq<Seq<char>>,
    use_24h_time: bool,
    today: Date,
    afternoon: bool,
) -> Outcome<EntryView> {
    match entry_progress(args, args.len() as int, use_24h_time, today, afternoon) {
        Outcome::Value(p) => Outcome::Value(
            EntryView {
                record: p.record,
                recurrence: match p.recurrence {
                    Some(n) => Some(
                        RecurringView {
                            record: p.record,
                            recurrence: n,
                            recurrence_key: 0,
                            internal_key: None,
                        },
                    ),
                    None => None,
                },
            },
        ),
        Outcome::Fail(e) => Outcome::Fail(e),
        Outcome::Halt => Outcome::Halt,
    }
}

/// Once the reader has failed or stopped, later words change nothing.
pub proof fn lemma_entry_stays_ended(
    args: Seq<Seq<char>>,
    i: int,
    n: int,
    use_24h_time: bool,
    today: Date,
    afternoon: bool,
)
    requires
        0 <= i <= n,
        !(entry_progress(args, i, use_24h_time, today, afternoon) is Value),
    ensures
        entry_progress(args, n, use_24h_time, today, afternoon) == entry_progress(
            args,
            i,
            use_24h_time,
            today,
            afternoon,
        ),
    decreases n - i,
{
    if n > i {
        lemma_entry_stays_ended(args, i, n - 1, use_24h_time, today, afternoon);
    }
}

/// The words of `args` as character sequences.
pub open spec fn words(args: Seq<String>) -> Seq<Seq<char>> {
    args.map_values(|s: String| s@)
}

/// A record read from the entry language, with its recurrence if any.
#[derive(Debug)]
pub struct EntryRecord {
    record: Record,
    recurrence: Option<RecurringRecord>,
}

impl View for EntryRecord {
    type V = EntryView;

    closed spec fn view(&self) -> EntryView {
        EntryView {
            record: self.record@,
            recurrence: match self.recurrence {
                Some(r) => Some(r@),
                None => None,
            },
        }
    }
}

impl EntryRecord {
    /// The record that was read.
    pub fn record(&self) -> (res: Record)
        ensures
            res@ == self@.record,
    {
        self.record.duplicate()
    }

    /// The recurrence that was read, if any.
    pub fn recurrence(&self) -> (res: Option<RecurringRecord>)
        ensures
            match self@.recurrence {
                Some(r) => res matches Some(x) && x@ == r,
                None => res is None,
            },
    {
        match &self.recurrence {
            Some(r) => Some(r.duplicate()),
            None => None,
        }
    }
}

/// The reader's state between two words.
struct Progress {
    state: EntryState,
    record: Record,
    scheduled_first: Option<Time>,
    recurrence: Option<Duration>,
}

impl View for Progress {
    type V = EntryProgress;

    closed spec fn view(&self) -> EntryProgress {
        EntryProgress {
            state: self.state,
            record: self.record@,
            scheduled_first: match self.scheduled_first {
                Some(t) => Some(t@),
                None => None,
            },
            recurrence: match self.recurrence {
                Some(d) => Some(d@),
                None => None,
            },
        }
    }
}

/// A progress outcome by its view.
spec fn progress_outcome(o: Outcome<Progress>) -> Outcome<EntryProgress> {
    match o {
        Outcome::Value(p) => Outcome::Value(p@),
        Outcome::Fail(e) => Outcome::Fail(e),
        Outcome::Halt => Outcome::Halt,
    }
}

/// Reads a duration word (see `duration_word`).
fn read_duration_word(arg: &str) -> (res: Outcome<Duration>)
    ensures
        match duration_word(arg@) {
            Outcome::Value(n) => res matches Outcome::Value(d) && d@ == n,
            Outcome::Fail(e) => res == Outcome::<Duration>::Fail(e),
            Outcome::Halt => res is Halt,
        },
{
    let chars = to_chars(arg);
    if !crate::duration::text_bounded(chars.as_slice()) {
        return Outcome::Halt;
    }
    match parse_duration(arg) {
        Some(d) => Outcome::Value(d),
        None => Outcome::Fail(SaturnError::InvalidDuration),
    }
}

/// Adds the word `arg` to the detail `detail`.
fn add_to_detail(detail: &String, arg: &String) -> (res: String)
    ensures
        res@ == detail_with(detail@, arg@),
{
    if detail.unicode_len() == 0 {
        arg.clone()
    } else {
        let mut v = to_chars(detail.as_str());
        v.push(' ');
        let a = to_chars(arg.as_str());
        push_all(&mut v, a.as_slice());
        assert(v@ =~= detail@ + seq![' '] + arg@);
        from_chars(v.as_slice())
    }
}

/// Reads the word `arg` in the reader state `p` (see `entry_step`).
fn step(p: Progress, arg: &String, use_24h_time: bool, today: Date, afternoon: bool) -> (res:
    Outcome<Progress>)
    requires
        today.valid(),
    ensures
        progress_outcome(res) == entry_step(p@, arg@, use_24h_time, today, afternoon),
{
    let mut p = p;
    let ghost p0 = p@;
    let word = to_chars(arg.as_str());
    match p.state {
        EntryState::Recur => match read_duration_word(arg.as_str()) {
            Outcome::Value(d) => {
                p.recurrence = Some(d);
                p.state = EntryState::Date;
                Outcome::Value(p)
            },
            Outcome::Fail(e) => Outcome::Fail(e),
            Outcome::Halt => Outcome::Halt,
        },
        EntryState::Date => {
            let l = chars_lowercase(word.as_slice());
            if chars_are(l.as_slice(), "recur") {
                p.state = EntryState::Recur;
                Outcome::Value(p)
            } else {
                match read_date(arg.as_str(), today) {
                    Outcome::Value(d) => {
                        p.record.set_date(d);
                        p.state = EntryState::Time;
                        Outcome::Value(p)
                    },
                    Outcome::Fail(e) => Outcome::Fail(e),
                    Outcome::Halt => Outcome::Halt,
                }
            }
        },
        EntryState::Time => {
            if chars_are(word.as_slice(), "all") {
                p.record.set_all_day();
                p.state = EntryState::TimeAt;
                Outcome::Value(p)
            } else if chars_are(word.as_slice(), "at") {
                p.state = EntryState::TimeAt;
                Outcome::Value(p)
            } else if chars_are(word.as_slice(), "from") {
                p.state = EntryState::TimeScheduled;
                Outcome::Value(p)
            } else {
                Outcome::Fail(SaturnError::TimeMustBeFromOrAt)
            }
        },
        EntryState::TimeAt => {
            if chars_are(word.as_slice(), "day") {
                p.state = EntryState::Notify;
                Outcome::Value(p)
            } else {
                let o = read_time(arg.as_str(), !use_24h_time, afternoon);
                match o {
                    Outcome::Value(t) => {
                        p.record.set_at(Some(t));
                        p.state = EntryState::Notify;
                        Outcome::Value(p)
                    },
                    Outcome::Fail(e) => Outcome::Fail(e),
                    Outcome::Halt => Outcome::Halt,
                }
            }
        },
        EntryState::TimeScheduled => {
            let o = read_time(arg.as_str(), !use_24h_time, afternoon);
            match o {
                Outcome::Value(t) => {
                    p.scheduled_first = Some(t);
                    p.state = EntryState::TimeScheduledHalf;
                    Outcome::Value(p)
                },
                Outcome::Fail(e) => Outcome::Fail(e),
                Outcome::Halt => Outcome::Halt,
            }
        },
        EntryState::TimeScheduledHalf => {
            if chars_are(word.as_slice(), "to") || chars_are(word.as_slice(), "until") {
                Outcome::Value(p)
            } else {
                match p.scheduled_first {
                    Some(first) => {
                        let o = read_time(arg.as_str(), !use_24h_time, afternoon);
                        match o {
                            Outcome::Value(t) => {
                                p.record.set_scheduled(Some((first, t)));
                                p.state = EntryState::Notify;
                                Outcome::Value(p)
                            },
                            Outcome::Fail(e) => Outcome::Fail(e),
                            Outcome::Halt => Outcome::Halt,
                        }
                    },
                    None => Outcome::Halt,
                }
            }
        },
        EntryState::Notify => {
            if chars_are(word.as_slice(), "notify") {
                p.state = EntryState::NotifyTime;
                Outcome::Value(p)
            } else {
                p.record.set_detail(arg.clone());
                p.state = EntryState::Detail;
                Outcome::Value(p)
            }
        },
        EntryState::NotifyTime => {
            if chars_are(word.as_slice(), "me") {
                Outcome::Value(p)
            } else {
                match read_duration_word(arg.as_str()) {
                    Outcome::Value(d) => {
                        p.record.add_notification(d);
                        p.state = EntryState::Detail;
                        Outcome::Value(p)
                    },
                    Outcome::Fail(e) => Outcome::Fail(e),
                    Outcome::Halt => Outcome::Halt,
                }
            }
        },
        EntryState::Detail => {
            let detail = p.record.detail();
            let joined = add_to_detail(&detail, arg);
            p.record.set_detail(joined);
            Outcome::Value(p)
        },
    }
}

/// Reads the entry written as the words `args`, with `today` the local
/// date and `afternoon` whether the clock is past noon.
pub fn read_entry(args: &Vec<String>, use_24h_time: bool, today: Date, afternoon: bool) -> (res:
    Outcome<EntryRecord>)
    requires
        today.valid(),
    ensures
        match entry_outcome(words(args@), use_24h_time, today, afternoon) {
            Outcome::Value(v) => res matches Outcome::Value(r) && r@ == v,
            Outcome::Fail(e) => res == Outcome::<EntryRecord>::Fail(e),
            Outcome::Halt => res is Halt,
        },
{
    let ghost ws = words(args@);
    let mut p = Progress {
        state: EntryState::Date,
        record: Record::for_date(today),
        scheduled_first: None,
        recurrence: None,
    };
    let n = args.len();
    let mut i: usize = 0;
    while i < n
        invariant
            n == args@.len(),
            ws == words(args@),
            today.valid(),
            i <= n,
            entry_progress(ws, i as int, use_24h_time, today, afternoon) == Outcome::Value(p@),
        decreases n - i,
    {
        assert(ws[i as int] == args@[i as int]@);
        let o = step(p, &args[i], use_24h_time, today, afternoon);
        match o {
            Outcome::Value(q) => {
                p = q;
            },
            Outcome::Fail(e) => {
                proof {
                    lemma_entry_stays_ended(ws, i + 1, n as int, use_24h_time, today, afternoon);
                }
                return Outcome::Fail(e);
            },
            Outcome::Halt => {
                proof {
                    lemma_entry_stays_ended(ws, i + 1, n as int, use_24h_time, today, afternoon);
                }
                return Outcome::Halt;
            },
        }
        i = i + 1;
    }
    let record = p.record.duplicate();
    let recurrence = match p.recurrence {
        Some(d) => Some(RecurringRecord::new(p.record, d)),
        None => None,
    };
    Outcome::Value(EntryRecord { record, recurrence })
}

/// The words of an entry and the clock convention to read them with.
#[derive(Debug)]
pub struct EntryParser {
    args: Vec<String>,
    use_24h_time: bool,
}

impl EntryParser {
    /// The words `args` to be read on a 24-hour clock when `use_24h_time`.
    pub fn new(args: Vec<String>, use_24h_time: bool) -> (res: EntryParser)
        ensures
            res.args() == words(args@),
            res.use_24h_time() == use_24h_time,
    {
        EntryParser { args, use_24h_time }
    }

    /// The words to be read.
    pub closed spec fn args(&self) -> Seq<Seq<char>> {
        words(self.args@)
    }

    /// Whether times are read on a 24-hour clock.
    pub closed spec fn use_24h_time(&self) -> bool {
        self.use_24h_time
    }

    /// Reads the entry against the local clock.
    ///
    /// Where reading would stop the program (a day or time out of range, a
    /// duration whose amounts overflow the reader) the result is
    /// `OutOfRange`.
    pub fn to_record(&self) -> (res: Result<EntryRecord, SaturnError>)
        ensures
            exists|today: Date, afternoon: bool|
                today.valid() && match #[trigger] entry_outcome(
                    self.args(),
                    self.use_24h_time(),
                    today,
                    afternoon,
                ) {
                    Outcome::Value(v) => res matches Ok(r) && r@ == v,
                    Outcome::Fail(e) => res == Err::<EntryRecord, SaturnError>(e),
                    Outcome::Halt => res == Err::<EntryRecord, SaturnError>(
                        SaturnError::OutOfRange,
                    ),
                },
    {
        let clock = now();
        let afternoon = clock.time.hour() >= 12;
        let res = match read_entry(&self.args, self.use_24h_time, clock.date, afternoon) {
            Outcome::Value(r) => Ok(r),
            Outcome::Fail(e) => Err(e),
            Outcome::Halt => Err(SaturnError::OutOfRange),
        };
        let ghost o = entry_outcome(self.args(), self.use_24h_time(), clock.date, afternoon);
        assert(match o {
            Outcome::Value(v) => res matches Ok(r) && r@ == v,
            Outcome::Fail(e) => res == Err::<EntryRecord, SaturnError>(e),
            Outcome::Halt => res == Err::<EntryRecord, SaturnError>(SaturnError::OutOfRange),
        });
        res
    }
}

/// A word read in any state but after `recur` keeps the recurrence the
/// reader holds, whatever it is, and leads to the date or to `recur` only
/// from the date.
proof fn lemma_step_keeps_recurrence(
    p: EntryProgress,
    r: Option<int>,
    arg: Seq<char>,
    use_24h_time: bool,
    today: Date,
    afternoon: bool,
)
    requires
        p.state != EntryState::Recur,
    ensures
        match entry_step(p, arg, use_24h_time, today, afternoon) {
            Outcome::Value(q) => {
                &&& entry_step(EntryProgress { recurrence: r, ..p }, arg, use_24h_time, today, afternoon)
                    == Outcome::Value(EntryProgress { recurrence: r, ..q })
                &&& q.recurrence == p.recurrence
                &&& p.state != EntryState::Date ==> q.state != EntryState::Date && q.state
                    != EntryState::Recur
                &&& p.state == EntryState::Date && lowercase(arg) != "recur"@ ==> q.state
                    == EntryState::Time
            },
            o => entry_step(EntryProgress { recurrence: r, ..p }, arg, use_24h_time, today, afternoon)
                == o,
        },
{
}

/// The words `rest` read after a `recur` clause `w d`: wherever reading
/// `rest` alone reaches, reading the clause and then `rest` reaches the same
/// place with the recurrence of `d` added, and `rest` alone never holds a
/// recurrence once past its first word.
proof fn lemma_recur_prefix(
    w: Seq<char>,
    d: Seq<char>,
    rest: Seq<Seq<char>>,
    k: int,
    use_24h_time: bool,
    today: Date,
    afternoon: bool,
)
    requires
        lowercase(w) == "recur"@,
        duration_word(d) is Value,
        rest.len() > 0 ==> lowercase(rest[0]) != "recur"@,
        0 <= k <= rest.len(),
    ensures
        ({
            let args = seq![w, d] + rest;
            let here = entry_progress(rest, k, use_24h_time, today, afternoon);
            let there = entry_progress(args, k + 2, use_24h_time, today, afternoon);
            match here {
                Outcome::Value(p) => {
                    &&& there == Outcome::Value(
                        EntryProgress { recurrence: Some(duration_word(d)->Value_0), ..p },
                    )
                    &&& p.recurrence is None
                    &&& k == 0 ==> p.state == EntryState::Date
                    &&& k >= 1 ==> p.state != EntryState::Date && p.state != EntryState::Recur
                },
                _ => there == here,
            }
        }),
    decreases k,
{
    let args = seq![w, d] + rest;
    if k == 0 {
        assert(args[0] == w);
        assert(args[1] == d);
        let start = entry_start(today);
        assert(entry_progress(args, 0, use_24h_time, today, afternoon) == Outcome::Value(start));
        let after_w = entry_step(start, w, use_24h_time, today, afternoon);
        assert(after_w == Outcome::Value(EntryProgress { state: EntryState::Recur, ..start }));
        assert(entry_progress(args, 1, use_24h_time, today, afternoon) == after_w);
        assert(entry_progress(rest, 0, use_24h_time, today, afternoon) == Outcome::Value(start));
    } else {
        lemma_recur_prefix(w, d, rest, k - 1, use_24h_time, today, afternoon);
        assert(args[k + 1] == rest[k - 1]);
        let here = entry_progress(rest, k - 1, use_24h_time, today, afternoon);
        if here is Value {
            let p = here->Value_0;
            lemma_step_keeps_recurrence(
                p,
                Some(duration_word(d)->Value_0),
                rest[k - 1],
                use_24h_time,
                today,
                afternoon,
            );
        }
    }
}

/// A `recur` clause (the word `recur` in any case, then a duration `d`)
/// ahead of an entry that does not itself begin with one leaves the record
/// that the entry reads as unchanged and only adds the recurrence of `d`,
/// with no keys yet; the entry read alone has no recurrence.
pub proof fn law_recur_clause_adds_recurrence(
    w: Seq<char>,
    d: Seq<char>,
    rest: Seq<Seq<char>>,
    use_24h_time: bool,
    today: Date,
    afternoon: bool,
)
    requires
        lowercase(w) == "recur"@,
        duration_word(d) is Value,
        rest.len() > 0 ==> lowercase(rest[0]) != "recur"@,
    ensures
        match entry_outcome(rest, use_24h_time, today, afternoon) {
            Outcome::Value(v) => {
                &&& v.recurrence is None
                &&& entry_outcome(seq![w, d] + rest, use_24h_time, today, afternoon)
                    == Outcome::Value(
                    EntryView {
                        record: v.record,
                        recurrence: Some(
                            RecurringView {
                                record: v.record,
                                recurrence: duration_word(d)->Value_0,
                                recurrence_key: 0,
                                internal_key: None,
                            },
                        ),
                    },
                )
            },
            o => entry_outcome(seq![w, d] + rest, use_24h_time, today, afternoon) == o,
        },
{
    lemma_recur_prefix(w, d, rest, rest.len() as int, use_24h_time, today, afternoon);
    assert((seq![w, d] + rest).len() == rest.len() + 2);
}

} // verus!
