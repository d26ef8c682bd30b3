//! The search language: words such as `date from today to tomorrow time
//! 8pm unfinished detail foobar` read into a list of conditions, and the
//! records that meet all of them.

use crate::error::{Outcome, SaturnError};
use crate::parse::{date_outcome, outcome_nanos, read_date, read_time, time_outcome};
use crate::record::{Record, RecordView};
use crate::text::{chars_are, chars_contain, chars_lowercase, contains_seq, lowercase, parse_u64, parse_unsigned, to_chars};
use crate::time::{now, Date, Time};
use vstd::prelude::*;

verus! {

/// Where the search reader stands: what the next word is read as.
#[derive(Clone, Copy, Debug, PartialEq, Eq, Structural)]
pub enum SearchParserState {
    /// `key` or `value` after `field`.
    Field,
    /// The key (or, after a value, the key that goes with it).
    FieldKey,
    /// `value`, or anything that ends a key-only field search.
    FieldKeyValue,
    /// The value (or, after a key, the value that goes with it).
    FieldValue,
    /// `key` after a value.
    FieldValueValue,
    /// A date, or `from`.
    Date,
    /// The first date of a range.
    FromDate,
    /// `to` in a date range.
    FromDateStartValue,
    /// The second date of a range.
    FromDateEndValue,
    /// A time, or `from`.
    Time,
    /// The first time of a range.
    FromTime,
    /// `to` in a time range.
    FromTimeStartValue,
    /// The second time of a range.
    FromTimeEndValue,
    /// The text to look for in the detail.
    Detail,
    /// The recurrence key.
    FromRecur,
}

/// One condition of a search.
#[derive(Debug, PartialEq, Eq)]
pub enum SearchParserAction {
    /// A field with this key, and this value when one is given.
    Field(String, Option<String>),
    /// Records on this date.
    Date(Date),
    /// Records from the first date to the second, both included.
    FromDate(Date, Date),
    /// Records starting at this time.
    Time(Time),
    /// Records starting from the first time to the second, both included.
    FromTime(Time, Time),
    /// Records whose detail contains this text, ignoring case.
    Detail(String),
    /// Records of this recurrence.
    Recur(u64),
    /// Records that are (or are not) completed.
    Done(bool),
}

/// The abstract form of a search condition; times are nanoseconds since
/// midnight.
pub enum ActionView {
    Field(Seq<char>, Option<Seq<char>>),
    Date(Date),
    FromDate(Date, Date),
    Time(int),
    FromTime(int, int),
    Detail(Seq<char>),
    Recur(u64),
    Done(bool),
}

impl View for SearchParserAction {
    type V = ActionView;

    open spec fn view(&self) -> ActionView {
        match self {
            SearchParserAction::Field(k, v) => ActionView::Field(
                k@,
                match v {
                    Some(s) => Some(s@),
                    None => None,
                },
            ),
            SearchParserAction::Date(d) => ActionView::Date(*d),
            SearchParserAction::FromDate(a, b) => ActionView::FromDate(*a, *b),
            SearchParserAction::Time(t) => ActionView::Time(t@),
            SearchParserAction::FromTime(a, b) => ActionView::FromTime(a@, b@),
            SearchParserAction::Detail(s) => ActionView::Detail(s@),
            SearchParserAction::Recur(k) => ActionView::Recur(*k),
            SearchParserAction::Done(b) => ActionView::Done(*b),
        }
    }
}

/// The abstract state of the search reader between two words.
pub struct SearchProgress {
    pub state: Option<SearchParserState>,
    pub kept: Option<Seq<char>>,
    pub actions: Seq<ActionView>,
}

/// A time in a search: read as a 24-hour time unless `am` or `pm` is given.
pub open spec fn search_time(s: Seq<char>) -> Outcome<int> {
    time_outcome(s, false, false)
}

/// The search reader after the word `cmd`, with `today` the local date.
pub open spec fn search_step(p: SearchProgress, cmd: Seq<char>, today: Date) -> Outcome<
    SearchProgress,
> {
    let acts = p.actions;
    match p.state {
        None => if cmd == "field"@ {
            Outcome::Value(SearchProgress { state: Some(SearchParserState::Field), ..p })
        } else if cmd == "date"@ {
            Outcome::Value(SearchProgress { state: Some(SearchParserState::Date), ..p })
        } else if cmd == "time"@ {
            Outcome::Value(SearchProgress { state: Some(SearchParserState::Time), ..p })
        } else if cmd == "detail"@ {
            Outcome::Value(SearchProgress { state: Some(SearchParserState::Detail), ..p })
        } else if cmd == "recur"@ {
            Outcome::Value(SearchProgress { state: Some(SearchParserState::FromRecur), ..p })
        } else if cmd == "finished"@ {
            Outcome::Value(SearchProgress { actions: acts.push(ActionView::Done(true)), ..p })
        } else if cmd == "unfinished"@ {
            Outcome::Value(SearchProgress { actions: acts.push(ActionView::Done(false)), ..p })
        } else {
            Outcome::Fail(SaturnError::InvalidSyntax)
        },
        Some(state) => match state {
            SearchParserState::Field => if cmd == "key"@ {
                Outcome::Value(SearchProgress { state: Some(SearchParserState::FieldKey), ..p })
            } else if cmd == "value"@ {
                Outcome::Value(SearchProgress { state: Some(SearchParserState::FieldValue), ..p })
            } else {
                Outcome::Fail(SaturnError::InvalidSyntax)
            },
            SearchParserState::FieldKey => match p.kept {
                Some(k) => Outcome::Value(
                    SearchProgress {
                        state: None,
                        kept: None,
                        actions: acts.push(ActionView::Field(cmd, Some(k))),
                    },
                ),
                None => Outcome::Value(
                    SearchProgress {
                        state: Some(SearchParserState::FieldKeyValue),
                        kept: Some(cmd),
                        ..p
                    },
                ),
            },
            SearchParserState::FieldKeyValue => if cmd == "value"@ {
                Outcome::Value(SearchProgress { state: Some(SearchParserState::FieldValue), ..p })
            } else {
                match p.kept {
                    Some(k) => Outcome::Value(
                        SearchProgress {
                            state: None,
                            kept: None,
                            actions: acts.push(ActionView::Field(k, None)),
                        },
                    ),
                    None => Outcome::Halt,
                }
            },
            SearchParserState::FieldValue => match p.kept {
                Some(k) => Outcome::Value(
                    SearchProgress {
                        state: None,
                        actions: acts.push(ActionView::Field(k, Some(cmd))),
                        ..p
                    },
                ),
                None => Outcome::Value(
                    SearchProgress {
                        state: Some(SearchParserState::FieldValueValue),
                        kept: Some(cmd),
                        ..p
                    },
                ),
            },
            SearchParserState::FieldValueValue => if cmd == "key"@ {
                Outcome::Value(SearchProgress { state: Some(SearchParserState::FieldKey), ..p })
            } else {
                Outcome::Fail(SaturnError::FieldSearchWithoutKey)
            },
            SearchParserState::Date => if cmd == "from"@ {
                Outcome::Value(SearchProgress { state: Some(SearchParserState::FromDate), ..p })
            } else {
                match date_outcome(cmd, today) {
                    Outcome::Value(d) => Outcome::Value(
                        SearchProgress { state: None, actions: acts.push(ActionView::Date(d)), ..p },
                    ),
                    Outcome::Fail(e) => Outcome::Fail(e),
                    Outcome::Halt => Outcome::Halt,
                }
            },
            SearchParserState::FromDate => Outcome::Value(
                SearchProgress {
                    state: Some(SearchParserState::FromDateStartValue),
                    kept: Some(cmd),
                    ..p
                },
            ),
            SearchParserState::FromDateStartValue => if cmd == "to"@ {
                Outcome::Value(
                    SearchProgress { state: Some(SearchParserState::FromDateEndValue), ..p },
                )
            } else {
                Outcome::Fail(SaturnError::DateRangeSyntax)
            },
            SearchParserState::FromDateEndValue => match p.kept {
                Some(k) => match date_outcome(k, today) {
                    Outcome::Value(a) => match date_outcome(cmd, today) {
                        Outcome::Value(b) => Outcome::Value(
                            SearchProgress {
                                state: None,
                                kept: None,
                                actions: acts.push(ActionView::FromDate(a, b)),
                            },
                        ),
                        Outcome::Fail(e) => Outcome::Fail(e),
                        Outcome::Halt => Outcome::Halt,
                    },
                    Outcome::Fail(e) => Outcome::Fail(e),
                    Outcome::Halt => Outcome::Halt,
                },
                None => Outcome::Halt,
            },
            SearchParserState::Time => if cmd == "from"@ {
                Outcome::Value(SearchProgress { state: Some(SearchParserState::FromTime), ..p })
            } else {
                match search_time(cmd) {
                    Outcome::Value(t) => Outcome::Value(
                        SearchProgress { state: None, actions: acts.push(ActionView::Time(t)), ..p },
                    ),
                    Outcome::Fail(e) => Outcome::Fail(e),
                    Outcome::Halt => Outcome::Halt,
                }
            },
            SearchParserState::FromTime => Outcome::Value(
                SearchProgress {
                    state: Some(SearchParserState::FromTimeStartValue),
                    kept: Some(cmd),
                    ..p
                },
            ),
            SearchParserState::FromTimeStartValue => if cmd == "to"@ {
                Outcome::Value(
                    SearchProgress { state: Some(SearchParserState::FromTimeEndValue), ..p },
                )
            } else {
                Outcome::Fail(SaturnError::TimeRangeSyntax)
            },
            SearchParserState::FromTimeEndValue => match p.kept {
                Some(k) => match search_time(k) {
                    Outcome::Value(a) => match search_time(cmd) {
                        Outcome::Value(b) => Outcome::Value(
                            SearchProgress {
                                state: None,
                                kept: None,
                                actions: acts.push(ActionView::FromTime(a, b)),
                            },
                        ),
                        Outcome::Fail(e) => Outcome::Fail(e),
                        Outcome::Halt => Outcome::Halt,
                    },
                    Outcome::Fail(e) => Outcome::Fail(e),
                    Outcome::Halt => Outcome::Halt,
                },
                None => Outcome::Halt,
            },
            SearchParserState::Detail => Outcome::Value(
                SearchProgress { state: None, kept: None, actions: acts.push(ActionView::Detail(cmd)) },
            ),
            SearchParserState::FromRecur => match parse_unsigned(cmd, u64::MAX as int) {
                Some(k) => Outcome::Value(
                    SearchProgress {
                        state: None,
                        kept: None,
                        actions: acts.push(ActionView::Recur(k as u64)),
                    },
                ),
                None => Outcome::Fail(SaturnError::InvalidNumber),
            },
        },
    }
}

/// The search reader after the first `n` words of `args`.
pub open spec fn search_progress(args: Seq<Seq<char>>, n: int, today: Date) -> Outcome<
    SearchProgress,
>
    decreases n,
{
    if n <= 0 {
        Outcome::Value(SearchProgress { state: None, kept: None, actions: Seq::empty() })
    } else {
        match search_progress(args, n - 1, today) {
            Outcome::Value(p) => search_step(p, args[n - 1], today),
            Outcome::Fail(e) => Outcome::Fail(e),
            Outcome::Halt => Outcome::Halt,
        }
    }
}

/// The conditions once all words are read: a key-only field search left
/// open at the end is completed, and a search with no condition is refused.
pub open spec fn search_finish(p: SearchProgress) -> Outcome<Seq<ActionView>> {
    let acts = if p.state == Some(SearchParserState::FieldKeyValue) && p.kept is Some {
        p.actions.push(ActionView::Field(p.kept.unwrap(), None))
    } else {
        p.actions
    };
    if acts.len() == 0 {
        Outcome::Fail(SaturnError::InvalidSyntax)
    } else {
        Outcome::Value(acts)
    }
}

/// The conditions that the words `args` give, with `today` the local date.
pub open spec fn search_outcome(args: Seq<Seq<char>>, today: Date) -> Outcome<Seq<ActionView>> {
    match search_progress(args, args.len() as int, today) {
        Outcome::Value(p) => search_finish(p),
        Outcome::Fail(e) => Outcome::Fail(e),
        Outcome::Halt => Outcome::Halt,
    }
}

/// Once the reader has failed or stopped, later words change nothing.
pub proof fn lemma_search_stays_ended(args: Seq<Seq<char>>, i: int, n: int, today: Date)
    requires
        0 <= i <= n,
        !(search_progress(args, i, today) is Value),
    ensures
        search_progress(args, n, today) == search_progress(args, i, today),
    decreases n - i,
{
    if n > i {
        lemma_search_stays_ended(args, i, n - 1, today);
    }
}

/// The views of a list of conditions.
pub open spec fn action_views(v: Seq<SearchParserAction>) -> Seq<ActionView> {
    v.map_values(|a: SearchParserAction| a@)
}

/// The words of `args` as character sequences.
pub open spec fn search_words(args: Seq<String>) -> Seq<Seq<char>> {
    args.map_values(|s: String| s@)
}

/// The reader's state between two words.
struct Reader {
    state: Option<SearchParserState>,
    kept: Option<String>,
    actions: Vec<SearchParserAction>,
}

impl View for Reader {
    type V = SearchProgress;

    closed spec fn view(&self) -> SearchProgress {
        SearchProgress {
            state: self.state,
            kept: match self.kept {
                Some(s) => Some(s@),
                None => None,
            },
            actions: action_views(self.actions@),
        }
    }
}

/// A reader outcome by its view.
spec fn reader_outcome(o: Outcome<Reader>) -> Outcome<SearchProgress> {
    match o {
        Outcome::Value(r) => Outcome::Value(r@),
        Outcome::Fail(e) => Outcome::Fail(e),
        Outcome::Halt => Outcome::Halt,
    }
}

/// Adds a condition.
fn add_action(r: &mut Reader, a: SearchParserAction)
    ensures
        final(r)@ == (SearchProgress { actions: old(r)@.actions.push(a@), ..old(r)@ }),
{
    r.actions.push(a);
    assert(action_views(r.actions@) =~= old(r)@.actions.push(a@));
}

/// Reads a time of a search (see `search_time`).
fn read_search_time(s: &str) -> (res: Outcome<Time>)
    ensures
        outcome_nanos(res) == search_time(s@),
{
    read_time(s, false, false)
}

/// Reads the word `cmd` in the reader state `r` (see `search_step`).
fn search_step_exec(r: Reader, cmd: &String, today: Date) -> (res: Outcome<Reader>)
    requires
        today.valid(),
    ensures
        reader_outcome(res) == search_step(r@, cmd@, today),
{
    let mut r = r;
    let w = to_chars(cmd.as_str());
    let w = w.as_slice();
    match r.state {
        None => {
            if chars_are(w, "field") {
                r.state = Some(SearchParserState::Field);
            } else if chars_are(w, "date") {
                r.state = Some(SearchParserState::Date);
            } else if chars_are(w, "time") {
                r.state = Some(SearchParserState::Time);
            } else if chars_are(w, "detail") {
                r.state = Some(SearchParserState::Detail);
            } else if chars_are(w, "recur") {
                r.state = Some(SearchParserState::FromRecur);
            } else if chars_are(w, "finished") {
                add_action(&mut r, SearchParserAction::Done(true));
            } else if chars_are(w, "unfinished") {
                add_action(&mut r, SearchParserAction::Done(false));
            } else {
                return Outcome::Fail(SaturnError::InvalidSyntax);
            }
            Outcome::Value(r)
        },
        Some(state) => match state {
            SearchParserState::Field => {
                if chars_are(w, "key") {
                    r.state = Some(SearchParserState::FieldKey);
                    Outcome::Value(r)
                } else if chars_are(w, "value") {
                    r.state = Some(SearchParserState::FieldValue);
                    Outcome::Value(r)
                } else {
                    Outcome::Fail(SaturnError::InvalidSyntax)
                }
            },
            SearchParserState::FieldKey => {
                match r.kept {
                    Some(k) => {
                        r.kept = None;
                        r.state = None;
                        add_action(&mut r, SearchParserAction::Field(cmd.clone(), Some(k)));
                    },
                    None => {
                        r.kept = Some(cmd.clone());
                        r.state = Some(SearchParserState::FieldKeyValue);
                    },
                }
                Outcome::Value(r)
            },
            SearchParserState::FieldKeyValue => {
                if chars_are(w, "value") {
                    r.state = Some(SearchParserState::FieldValue);
                    Outcome::Value(r)
                } else {
                    match r.kept {
                        Some(k) => {
                            r.kept = None;
                            r.state = None;
                            add_action(&mut r, SearchParserAction::Field(k, None));
                            Outcome::Value(r)
                        },
                        None => Outcome::Halt,
                    }
                }
            },
            SearchParserState::FieldValue => {
                match &r.kept {
                    Some(k) => {
                        let k = k.clone();
                        r.state = None;
                        add_action(&mut r, SearchParserAction::Field(k, Some(cmd.clone())));
                    },
                    None => {
                        r.kept = Some(cmd.clone());
                        r.state = Some(SearchParserState::FieldValueValue);
                    },
                }
                Outcome::Value(r)
            },
            SearchParserState::FieldValueValue => {
                if chars_are(w, "key") {
                    r.state = Some(SearchParserState::FieldKey);
                    Outcome::Value(r)
                } else {
                    Outcome::Fail(SaturnError::FieldSearchWithoutKey)
                }
            },
            SearchParserState::Date => {
                if chars_are(w, "from") {
                    r.state = Some(SearchParserState::FromDate);
                    Outcome::Value(r)
                } else {
                    match read_date(cmd.as_str(), today) {
                        Outcome::Value(d) => {
                            r.state = None;
                            add_action(&mut r, SearchParserAction::Date(d));
                            Outcome::Value(r)
                        },
                        Outcome::Fail(e) => Outcome::Fail(e),
                        Outcome::Halt => Outcome::Halt,
                    }
                }
            },
            SearchParserState::FromDate => {
                r.kept = Some(cmd.clone());
                r.state = Some(SearchParserState::FromDateStartValue);
                Outcome::Value(r)
            },
            SearchParserState::FromDateStartValue => {
                if chars_are(w, "to") {
                    r.state = Some(SearchParserState::FromDateEndValue);
                    Outcome::Value(r)
                } else {
                    Outcome::Fail(SaturnError::DateRangeSyntax)
                }
            },
            SearchParserState::FromDateEndValue => {
                match r.kept {
                    Some(k) => match read_date(k.as_str(), today) {
                        Outcome::Value(a) => match read_date(cmd.as_str(), today) {
                            Outcome::Value(b) => {
                                r.kept = None;
                                r.state = None;
                                add_action(&mut r, SearchParserAction::FromDate(a, b));
                                Outcome::Value(r)
                            },
                            Outcome::Fail(e) => Outcome::Fail(e),
                            Outcome::Halt => Outcome::Halt,
                        },
                        Outcome::Fail(e) => Outcome::Fail(e),
                        Outcome::Halt => Outcome::Halt,
                    },
                    None => Outcome::Halt,
                }
            },
            SearchParserState::Time => {
                if chars_are(w, "from") {
                    r.state = Some(SearchParserState::FromTime);
                    Outcome::Value(r)
                } else {
                    match read_search_time(cmd.as_str()) {
                        Outcome::Value(t) => {
                            r.state = None;
                            add_action(&mut r, SearchParserAction::Time(t));
                            Outcome::Value(r)
                        },
                        Outcome::Fail(e) => Outcome::Fail(e),
                        Outcome::Halt => Outcome::Halt,
                    }
                }
            },
            SearchParserState::FromTime => {
                r.kept = Some(cmd.clone());
                r.state = Some(SearchParserState::FromTimeStartValue);
                Outcome::Value(r)
            },
            SearchParserState::FromTimeStartValue => {
                if chars_are(w, "to") {
                    r.state = Some(SearchParserState::FromTimeEndValue);
                    Outcome::Value(r)
                } else {
                    Outcome::Fail(SaturnError::TimeRangeSyntax)
                }
            },
            SearchParserState::FromTimeEndValue => {
                match r.kept {
                    Some(k) => match read_search_time(k.as_str()) {
                        Outcome::Value(a) => match read_search_time(cmd.as_str()) {
                            Outcome::Value(b) => {
                                r.kept = None;
                                r.state = None;
                                add_action(&mut r, SearchParserAction::FromTime(a, b));
                                Outcome::Value(r)
                            },
                            Outcome::Fail(e) => Outcome::Fail(e),
                            Outcome::Halt => Outcome::Halt,
                        },
                        Outcome::Fail(e) => Outcome::Fail(e),
                        Outcome::Halt => Outcome::Halt,
                    },
                    None => Outcome::Halt,
                }
            },
            SearchParserState::Detail => {
                r.kept = None;
                r.state = None;
                add_action(&mut r, SearchParserAction::Detail(cmd.clone()));
                Outcome::Value(r)
            },
            SearchParserState::FromRecur => {
                match parse_u64(w) {
                    Some(k) => {
                        r.kept = None;
                        r.state = None;
                        add_action(&mut r, SearchParserAction::Recur(k));
                        Outcome::Value(r)
                    },
                    None => Outcome::Fail(SaturnError::InvalidNumber),
                }
            },
        },
    }
}

/// Reads the search written as the words `args`, with `today` the local
/// date.
pub fn read_search(args: &Vec<String>, today: Date) -> (res: Outcome<Vec<SearchParserAction>>)
    requires
        today.valid(),
    ensures
        match search_outcome(search_words(args@), today) {
            Outcome::Value(v) => res matches Outcome::Value(r) && action_views(r@) == v,
            Outcome::Fail(e) => res == Outcome::<Vec<SearchParserAction>>::Fail(e),
            Outcome::Halt => res is Halt,
        },
{
    let ghost ws = search_words(args@);
    let mut r = Reader { state: None, kept: None, actions: Vec::new() };
    assert(action_views(r.actions@) =~= Seq::<ActionView>::empty());
    let n = args.len();
    let mut i: usize = 0;
    while i < n
        invariant
            n == args@.len(),
            ws == search_words(args@),
            today.valid(),
            i <= n,
            search_progress(ws, i as int, today) == Outcome::Value(r@),
        decreases n - i,
    {
        assert(ws[i as int] == args@[i as int]@);
        match search_step_exec(r, &args[i], today) {
            Outcome::Value(q) => {
                r = q;
            },
            Outcome::Fail(e) => {
                proof {
                    lemma_search_stays_ended(ws, i + 1, n as int, today);
                }
                return Outcome::Fail(e);
            },
            Outcome::Halt => {
                proof {
                    lemma_search_stays_ended(ws, i + 1, n as int, today);
                }
                return Outcome::Halt;
            },
        }
        i = i + 1;
    }
    if r.state == Some(SearchParserState::FieldKeyValue) {
        match r.kept {
            Some(k) => {
                r.kept = None;
                add_action(&mut r, SearchParserAction::Field(k, None));
            },
            None => {},
        }
    }
    if r.actions.len() == 0 {
        Outcome::Fail(SaturnError::InvalidSyntax)
    } else {
        Outcome::Value(r.actions)
    }
}

/// Reads the search written as the words `args` against the local clock.
///
/// Where reading would stop the program (a date out of range) the result
/// is `OutOfRange`.
pub fn parse_search(args: Vec<String>) -> (res: Result<Vec<SearchParserAction>, SaturnError>)
    ensures
        exists|today: Date|
            today.valid() && match #[trigger] search_outcome(search_words(args@), today) {
                Outcome::Value(v) => res matches Ok(r) && action_views(r@) == v,
                Outcome::Fail(e) => res == Err::<Vec<SearchParserAction>, SaturnError>(e),
                Outcome::Halt => res == Err::<Vec<SearchParserAction>, SaturnError>(
                    SaturnError::OutOfRange,
                ),
            },
{
    let today = now().date;
    let res = match read_search(&args, today) {
        Outcome::Value(v) => Ok(v),
        Outcome::Fail(e) => Err(e),
        Outcome::Halt => Err(SaturnError::OutOfRange),
    };
    let ghost o = search_outcome(search_words(args@), today);
    assert(match o {
        Outcome::Value(v) => res matches Ok(r) && action_views(r@) == v,
        Outcome::Fail(e) => res == Err::<Vec<SearchParserAction>, SaturnError>(e),
        Outcome::Halt => res == Err::<Vec<SearchParserAction>, SaturnError>(
            SaturnError::OutOfRange,
        ),
    });
    res
}

// ------------------------------------------------------------------------
// Filtering
// ------------------------------------------------------------------------

/// Whether the record `r` meets the condition `a`; a time condition on a
/// record whose placement is missing stops the program.
pub open spec fn action_check(r: RecordView, a: ActionView) -> Outcome<bool> {
    match a {
        ActionView::Field(key, value) => Outcome::Value(
            r.fields.contains_key(key) && match value {
                Some(v) => r.fields[key] == v,
                None => true,
            },
        ),
        ActionView::Date(d) => Outcome::Value(r.date == d),
        ActionView::FromDate(start, end) => Outcome::Value(
            !r.date.before(start) && !end.before(r.date),
        ),
        ActionView::Time(t) => if r.well_typed() {
            Outcome::Value(r.start_time() == t)
        } else {
            Outcome::Halt
        },
        ActionView::FromTime(start, end) => if r.well_typed() {
            Outcome::Value(start <= r.start_time() <= end)
        } else {
            Outcome::Halt
        },
        ActionView::Detail(m) => Outcome::Value(contains_seq(lowercase(r.detail), lowercase(m))),
        ActionView::Recur(k) => Outcome::Value(r.recurrence_key == Some(k)),
        ActionView::Done(b) => Outcome::Value(r.completed == b),
    }
}

/// Whether `r` meets the conditions `acts` from index `j` on, checked in
/// order up to the first one it does not meet.
pub open spec fn record_check(r: RecordView, acts: Seq<ActionView>, j: int) -> Outcome<bool>
    decreases acts.len() - j,
{
    if j < 0 || j >= acts.len() {
        Outcome::Value(true)
    } else {
        match action_check(r, acts[j]) {
            Outcome::Value(true) => record_check(r, acts, j + 1),
            other => other,
        }
    }
}

/// The records among the first `n` of `recs` that meet all of `acts`, in
/// order; the program stops if checking one of them stops it.
pub open spec fn filter_prefix(recs: Seq<RecordView>, acts: Seq<ActionView>, n: int) -> Outcome<
    Seq<RecordView>,
>
    decreases n,
{
    if n <= 0 {
        Outcome::Value(Seq::empty())
    } else {
        match filter_prefix(recs, acts, n - 1) {
            Outcome::Value(kept) => match record_check(recs[n - 1], acts, 0) {
                Outcome::Value(true) => Outcome::Value(kept.push(recs[n - 1])),
                Outcome::Value(false) => Outcome::Value(kept),
                Outcome::Fail(e) => Outcome::Fail(e),
                Outcome::Halt => Outcome::Halt,
            },
            other => other,
        }
    }
}

/// The records of `recs` that meet all of `acts`.
pub open spec fn filter_outcome(recs: Seq<RecordView>, acts: Seq<ActionView>) -> Outcome<
    Seq<RecordView>,
> {
    filter_prefix(recs, acts, recs.len() as int)
}

/// The views of a list of records.
pub open spec fn record_views(v: Seq<Record>) -> Seq<RecordView> {
    v.map_values(|r: Record| r@)
}

/// Once filtering has stopped, later records change nothing.
pub proof fn lemma_filter_stays_ended(recs: Seq<RecordView>, acts: Seq<ActionView>, i: int, n: int)
    requires
        0 <= i <= n,
        !(filter_prefix(recs, acts, i) is Value),
    ensures
        filter_prefix(recs, acts, n) == filter_prefix(recs, acts, i),
    decreases n - i,
{
    if n > i {
        lemma_filter_stays_ended(recs, acts, i, n - 1);
    }
}

/// Checking records against conditions never fails with an error: it
/// keeps some records, or stops.
pub proof fn lemma_filter_never_fails(recs: Seq<RecordView>, acts: Seq<ActionView>, n: int)
    ensures
        !(filter_prefix(recs, acts, n) is Fail),
    decreases n,
{
    if n > 0 {
        lemma_filter_never_fails(recs, acts, n - 1);
        lemma_check_never_fails(recs[n - 1], acts, 0);
    }
}

/// Checking one record never fails with an error.
pub proof fn lemma_check_never_fails(r: RecordView, acts: Seq<ActionView>, j: int)
    ensures
        !(record_check(r, acts, j) is Fail),
    decreases acts.len() - j,
{
    if 0 <= j < acts.len() {
        lemma_check_never_fails(r, acts, j + 1);
    }
}

/// Whether `r` meets the condition `a` (see `action_check`).
fn check_action(r: &Record, a: &SearchParserAction) -> (res: Outcome<bool>)
    ensures
        res == action_check(r@, a@),
{
    match a {
        SearchParserAction::Field(key, value) => {
            let fields = r.fields();
            match fields.get(key) {
                Some(content) => match value {
                    Some(v) => Outcome::Value(content == *v),
                    None => Outcome::Value(true),
                },
                None => Outcome::Value(false),
            }
        },
        SearchParserAction::Date(d) => Outcome::Value(r.date().same_day(d)),
        SearchParserAction::FromDate(start, end) => {
            let date = r.date();
            Outcome::Value(!date.is_before(start) && !end.is_before(&date))
        },
        SearchParserAction::Time(t) => {
            if r.is_well_typed() {
                let st = r.datetime().time;
                Outcome::Value(st.same_time(t))
            } else {
                Outcome::Halt
            }
        },
        SearchParserAction::FromTime(start, end) => {
            if r.is_well_typed() {
                let st = r.datetime().time;
                Outcome::Value(!st.is_before(start) && !end.is_before(&st))
            } else {
                Outcome::Halt
            }
        },
        SearchParserAction::Detail(m) => {
            let d = to_chars(r.detail().as_str());
            let dl = chars_lowercase(d.as_slice());
            let mc = to_chars(m.as_str());
            let ml = chars_lowercase(mc.as_slice());
            Outcome::Value(chars_contain(dl.as_slice(), ml.as_slice()))
        },
        SearchParserAction::Recur(k) => Outcome::Value(
            match r.recurrence_key() {
                Some(key) => key == *k,
                None => false,
            },
        ),
        SearchParserAction::Done(b) => Outcome::Value(r.completed() == *b),
    }
}

/// Whether `r` meets all of `acts` (see `record_check`).
fn check_record(r: &Record, acts: &Vec<SearchParserAction>) -> (res: Outcome<bool>)
    ensures
        res == record_check(r@, action_views(acts@), 0),
{
    let ghost av = action_views(acts@);
    let n = acts.len();
    let mut j: usize = n;
    // checked from the last condition back, so that each step extends the
    // answer for the conditions after it
    let mut res: Outcome<bool> = Outcome::Value(true);
    while j > 0
        invariant
            n == acts@.len(),
            av == action_views(acts@),
            j <= n,
            res == record_check(r@, av, j as int),
        decreases j,
    {
        j = j - 1;
        let c = check_action(r, &acts[j as usize]);
        assert(av[j as int] == acts@[j as int]@);
        res = match c {
            Outcome::Value(true) => res,
            other => other,
        };
    }
    res
}

/// The records of `records` that meet all of `actions`, in order, or a stop
/// where filtering stops (see `filter_outcome`).
pub fn run_filter(records: &Vec<Record>, actions: &Vec<SearchParserAction>) -> (res: Outcome<
    Vec<Record>,
>)
    ensures
        match filter_outcome(record_views(records@), action_views(actions@)) {
            Outcome::Value(v) => res matches Outcome::Value(r) && record_views(r@) == v,
            Outcome::Fail(e) => res == Outcome::<Vec<Record>>::Fail(e),
            Outcome::Halt => res is Halt,
        },
{
    let ghost rv = record_views(records@);
    let ghost av = action_views(actions@);
    let mut out: Vec<Record> = Vec::new();
    let n = records.len();
    let mut i: usize = 0;
    assert(record_views(out@) =~= Seq::<RecordView>::empty());
    while i < n
        invariant
            n == records@.len(),
            rv == record_views(records@),
            av == action_views(actions@),
            i <= n,
            filter_prefix(rv, av, i as int) == Outcome::Value(record_views(out@)),
        decreases n - i,
    {
        assert(rv[i as int] == records@[i as int]@);
        match check_record(&records[i], actions) {
            Outcome::Value(true) => {
                let ghost before = out@;
                out.push(records[i].duplicate());
                assert(record_views(out@) =~= record_views(before).push(rv[i as int]));
            },
            Outcome::Value(false) => {},
            Outcome::Fail(e) => {
                proof {
                    lemma_filter_stays_ended(rv, av, i + 1, n as int);
                }
                return Outcome::Fail(e);
            },
            Outcome::Halt => {
                proof {
                    lemma_filter_stays_ended(rv, av, i + 1, n as int);
                }
                return Outcome::Halt;
            },
        }
        i = i + 1;
    }
    Outcome::Value(out)
}

/// The records of `to_search` that meet all of `actions`, in order.
pub fn filter(to_search: Vec<Record>, actions: Vec<SearchParserAction>) -> (res: Result<
    Vec<Record>,
    SaturnError,
>)
    requires
        !(filter_outcome(record_views(to_search@), action_views(actions@)) is Halt),
    ensures
        filter_outcome(record_views(to_search@), action_views(actions@)) matches Outcome::Value(v)
            && res matches Ok(r) && record_views(r@) == v,
{
    proof {
        lemma_filter_never_fails(
            record_views(to_search@),
            action_views(actions@),
            to_search@.len() as int,
        );
    }
    match run_filter(&to_search, &actions) {
        Outcome::Value(v) => Ok(v),
        Outcome::Fail(e) => Err(e),
        Outcome::Halt => Err(SaturnError::OutOfRange),
    }
}

/// The words of a search and the records to search.
#[derive(Debug)]
pub struct SearchParser {
    args: Vec<String>,
    to_search: Vec<Record>,
}

impl SearchParser {
    /// A search for the words `args` among `to_search`.
    pub fn new(args: Vec<String>, to_search: Vec<Record>) -> (res: SearchParser)
        ensures
            res.args() == search_words(args@),
            res.to_search() == record_views(to_search@),
    {
        SearchParser { args, to_search }
    }

    /// The words of the search.
    pub closed spec fn args(&self) -> Seq<Seq<char>> {
        search_words(self.args@)
    }

    /// The records to search.
    pub closed spec fn to_search(&self) -> Seq<RecordView> {
        record_views(self.to_search@)
    }

    /// Reads the search against the local clock and returns the records
    /// that meet it.
    ///
    /// Where reading stops (a date out of range, a time
    /// condition on a record whose placement is missing) the result is
    /// `OutOfRange`.
    pub fn perform(&self) -> (res: Result<Vec<Record>, SaturnError>)
        ensures
            exists|today: Date|
                today.valid() && match #[trigger] search_outcome(self.args(), today) {
                    Outcome::Value(acts) => match filter_outcome(self.to_search(), acts) {
                        Outcome::Value(v) => res matches Ok(r) && record_views(r@) == v,
                        Outcome::Fail(e) => res == Err::<Vec<Record>, SaturnError>(e),
                        Outcome::Halt => res == Err::<Vec<Record>, SaturnError>(
                            SaturnError::OutOfRange,
                        ),
                    },
                    Outcome::Fail(e) => res == Err::<Vec<Record>, SaturnError>(e),
                    Outcome::Halt => res == Err::<Vec<Record>, SaturnError>(
                        SaturnError::OutOfRange,
                    ),
                },
    {
        let today = now().date;
        let res = match read_search(&self.args, today) {
            Outcome::Value(actions) => match run_filter(&self.to_search, &actions) {
                Outcome::Value(v) => Ok(v),
                Outcome::Fail(e) => Err(e),
                Outcome::Halt => Err(SaturnError::OutOfRange),
            },
            Outcome::Fail(e) => Err(e),
            Outcome::Halt => Err(SaturnError::OutOfRange),
        };
        let ghost o = search_outcome(self.args(), today);
        assert(match o {
            Outcome::Value(acts) => match filter_outcome(self.to_search(), acts) {
                Outcome::Value(v) => res matches Ok(r) && record_views(r@) == v,
                Outcome::Fail(e) => res == Err::<Vec<Record>, SaturnError>(e),
                Outcome::Halt => res == Err::<Vec<Record>, SaturnError>(SaturnError::OutOfRange),
            },
            Outcome::Fail(e) => res == Err::<Vec<Record>, SaturnError>(e),
            Outcome::Halt => res == Err::<Vec<Record>, SaturnError>(SaturnError::OutOfRange),
        });
        res
    }
}

/// Every record a search keeps meets all of its conditions and is one of
/// the records searched.
pub proof fn law_filter_sound(recs: Seq<RecordView>, acts: Seq<ActionView>, n: int)
    requires
        filter_prefix(recs, acts, n) is Value,
        n <= recs.len(),
    ensures
        forall|i: int|
            0 <= i < filter_prefix(recs, acts, n)->Value_0.len() ==> record_check(
                #[trigger] filter_prefix(recs, acts, n)->Value_0[i],
                acts,
                0,
            ) == Outcome::Value(true) && exists|j: int|
                0 <= j < n && recs[j] == filter_prefix(recs, acts, n)->Value_0[i],
    decreases n,
{
    if n > 0 {
        law_filter_sound(recs, acts, n - 1);
        let prev = filter_prefix(recs, acts, n - 1)->Value_0;
        let cur = filter_prefix(recs, acts, n)->Value_0;
        assert forall|i: int| 0 <= i < cur.len() implies record_check(#[trigger] cur[i], acts, 0)
            == Outcome::Value(true) && exists|j: int| 0 <= j < n && recs[j] == cur[i] by {
            if i < prev.len() {
                assert(cur[i] == prev[i]);
                assert(record_check(prev[i], acts, 0) == Outcome::Value(true));
                let j = choose|j: int| 0 <= j < n - 1 && recs[j] == prev[i];
                assert(0 <= j < n && recs[j] == cur[i]);
            } else {
                assert(cur[i] == recs[n - 1]);
            }
        }
    }
}

/// The reader after `c1` and then the first `k` words of `c2`, where `c1`
/// ends with no clause open and no key held: where it reads `c2` alone,
/// with the conditions of `c1` ahead of those of `c2`.
proof fn lemma_search_after(c1: Seq<Seq<char>>, c2: Seq<Seq<char>>, k: int, today: Date)
    requires
        search_progress(c1, c1.len() as int, today) matches Outcome::Value(p) && p.state is None
            && p.kept is None,
        0 <= k <= c2.len(),
    ensures
        ({
            let a1 = search_progress(c1, c1.len() as int, today)->Value_0.actions;
            let here = search_progress(c2, k, today);
            let there = search_progress(c1 + c2, c1.len() + k, today);
            match here {
                Outcome::Value(q) => there == Outcome::Value(SearchProgress { actions: a1 + q.actions, ..q }),
                _ => there == here,
            }
        }),
    decreases k,
{
    let joined = c1 + c2;
    let a1 = search_progress(c1, c1.len() as int, today)->Value_0.actions;
    if k == 0 {
        assert forall|j: int| 0 <= j <= c1.len() implies search_progress(joined, j, today)
            == search_progress(c1, j, today) by {
            lemma_search_prefix(c1, c2, j, today);
        }
        assert(a1 + Seq::<ActionView>::empty() =~= a1);
    } else {
        lemma_search_after(c1, c2, k - 1, today);
        assert(joined[c1.len() + k - 1] == c2[k - 1]);
        let here = search_progress(c2, k - 1, today);
        if here is Value {
            let q = here->Value_0;
            let q2 = SearchProgress { actions: a1 + q.actions, ..q };
            let cmd = c2[k - 1];
            match search_step(q, cmd, today) {
                Outcome::Value(r) => {
                    assert forall|x: ActionView| (a1 + q.actions).push(x) =~= a1 + q.actions.push(x) by {}
                    assert(search_step(q2, cmd, today) == Outcome::Value(
                        SearchProgress { actions: a1 + r.actions, ..r },
                    ));
                },
                _ => {},
            }
        }
    }
}

/// Reading a prefix of `c1 + c2` that lies within `c1` is reading `c1`.
proof fn lemma_search_prefix(c1: Seq<Seq<char>>, c2: Seq<Seq<char>>, j: int, today: Date)
    requires
        0 <= j <= c1.len(),
    ensures
        search_progress(c1 + c2, j, today) == search_progress(c1, j, today),
    decreases j,
{
    if j > 0 {
        lemma_search_prefix(c1, c2, j - 1, today);
        assert((c1 + c2)[j - 1] == c1[j - 1]);
    }
}

/// Two lists of search words read one after the other give the conditions
/// of each, joined, where the first list ends with every clause closed and
/// no field key held over for a later clause.
pub proof fn law_search_joins(c1: Seq<Seq<char>>, c2: Seq<Seq<char>>, today: Date)
    requires
        search_progress(c1, c1.len() as int, today) matches Outcome::Value(p) && p.state is None
            && p.kept is None,
        search_outcome(c1, today) is Value,
        search_outcome(c2, today) is Value,
    ensures
        search_outcome(c1 + c2, today) == Outcome::Value(
            search_outcome(c1, today)->Value_0 + search_outcome(c2, today)->Value_0,
        ),
{
    lemma_search_after(c1, c2, c2.len() as int, today);
    assert((c1 + c2).len() == c1.len() + c2.len());
    let p = search_progress(c1, c1.len() as int, today)->Value_0;
    let q = search_progress(c2, c2.len() as int, today)->Value_0;
    if q.state == Some(SearchParserState::FieldKeyValue) && q.kept is Some {
        assert((p.actions + q.actions).push(ActionView::Field(q.kept.unwrap(), None)) =~= p.actions
            + q.actions.push(ActionView::Field(q.kept.unwrap(), None)));
    }
}

/// A detail condition ignores letter case on both sides: a record whose
/// detail, and a text to look for, read the same once lowercased as those of
/// another record and text meet the condition exactly when those do; and a
/// detail that holds the text as written always meets it.
pub proof fn law_detail_ignores_case(r: RecordView, d2: Seq<char>, m1: Seq<char>, m2: Seq<char>)
    requires
        lowercase(r.detail) == lowercase(d2),
        lowercase(m1) == lowercase(m2),
    ensures
        action_check(r, ActionView::Detail(m1)) == action_check(
            RecordView { detail: d2, ..r },
            ActionView::Detail(m2),
        ),
        action_check(r, ActionView::Detail(m1)) is Value,
{
}

/// A record with an ASCII detail meets a detail condition whose text
/// appears in its detail as written.
pub proof fn law_detail_found_as_written(r: RecordView, m: Seq<char>, i: int)
    requires
        crate::text::ascii_text(r.detail),
        0 <= i && i + m.len() <= r.detail.len(),
        r.detail.subrange(i, i + m.len()) == m,
    ensures
        action_check(r, ActionView::Detail(m)) == Outcome::Value(true),
{
    let d = r.detail;
    assert forall|j: int| 0 <= j < m.len() implies (#[trigger] m[j] as u32) < 128 by {
        assert(m[j] == d[i + j]);
    }
    let ld = lowercase(d);
    let lm = lowercase(m);
    assert(ld.subrange(i, i + lm.len()) =~= lm);
    assert(crate::text::occurs_at(ld, lm, i));
}

} // verus!
