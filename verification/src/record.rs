//! Calendar records: one-off entries, their presented (user-editable)
//! form, and recurring entries with their recurrence rules.

use crate::error::{Outcome, SaturnError};
use crate::text::{
    all_digits, ascii_lowercase, chars_are, chars_before, chars_eq, chars_lowercase,
    lemma_text_order, lemma_text_order_trans, text_before, digit_value, digits_value, from_chars, is_digit,
    lemma_split_by_join, lemma_split_without_separator, lowercase, parse_i64, parse_signed,
    split_at_char, split_on, to_chars,
};
use crate::time::{Date, DateTime, Duration, Time, NANOS_PER_DAY, NANOS_PER_SEC};
use std::cmp::Ordering;
use vstd::prelude::*;

verus! {

/// How a record is placed within its day.
#[derive(Clone, Copy, Debug, PartialEq, Eq, Structural)]
pub enum RecordType {
    /// At one time of day.
    At,
    /// From one time of day to another.
    Schedule,
    /// The whole day.
    AllDay,
}

// ------------------------------------------------------------------------
// Fields
// ------------------------------------------------------------------------

/// The map that the key/value pairs `e` give when inserted in order.
pub open spec fn pairs_map(e: Seq<(Seq<char>, Seq<char>)>) -> Map<Seq<char>, Seq<char>>
    decreases e.len(),
{
    if e.len() == 0 {
        Map::empty()
    } else {
        pairs_map(e.drop_last()).insert(e.last().0, e.last().1)
    }
}

/// The pairs that the entries `v` hold.
pub open spec fn string_pairs(v: Seq<(String, String)>) -> Seq<(Seq<char>, Seq<char>)> {
    v.map_values(|p: (String, String)| (p.0@, p.1@))
}

/// Whether the names of the pairs `e` strictly increase in the order of
/// `String` (see `text_before`).
pub open spec fn keys_ordered(e: Seq<(Seq<char>, Seq<char>)>) -> bool {
    forall|i: int, j: int| 0 <= i < j < e.len() ==> text_before(#[trigger] e[i].0, #[trigger] e[j].0)
}

/// Pairs in increasing name order give each name its own value, and no
/// other names.
proof fn lemma_ordered_pairs_map(e: Seq<(Seq<char>, Seq<char>)>)
    requires
        keys_ordered(e),
    ensures
        forall|i: int|
            0 <= i < e.len() ==> pairs_map(e).contains_key(#[trigger] e[i].0) && pairs_map(e)[e[i].0]
                == e[i].1,
        forall|x: Seq<char>| #[trigger]
            pairs_map(e).contains_key(x) ==> exists|i: int| 0 <= i < e.len() && e[i].0 == x,
    decreases e.len(),
{
    if e.len() > 0 {
        let d = e.drop_last();
        assert(keys_ordered(d)) by {
            assert forall|i: int, j: int| 0 <= i < j < d.len() implies text_before(
                #[trigger] d[i].0,
                #[trigger] d[j].0,
            ) by {
                assert(d[i] == e[i] && d[j] == e[j]);
            }
        }
        lemma_ordered_pairs_map(d);
        assert forall|i: int| 0 <= i < e.len() implies pairs_map(e).contains_key(
            #[trigger] e[i].0,
        ) && pairs_map(e)[e[i].0] == e[i].1 by {
            if i < e.len() - 1 {
                assert(d[i] == e[i]);
                assert(text_before(e[i].0, e[e.len() - 1].0));
                lemma_text_order(e[i].0, e[e.len() - 1].0);
            }
        }
        assert forall|x: Seq<char>| #[trigger]
            pairs_map(e).contains_key(x) implies exists|i: int| 0 <= i < e.len() && e[i].0 == x by {
            if x != e.last().0 {
                assert(pairs_map(d).contains_key(x));
                let i = choose|i: int| 0 <= i < d.len() && d[i].0 == x;
                assert(e[i] == d[i]);
            } else {
                assert(e[e.len() - 1].0 == x);
            }
        }
    }
}

/// Puts the pair `(k, v)` in its place among the pairs `res`, kept in
/// increasing name order: in place of the value of `k`, or before the
/// first greater name.
fn place(res: &mut Vec<(String, String)>, k: String, v: String)
    requires
        keys_ordered(string_pairs(old(res)@)),
    ensures
        keys_ordered(string_pairs(final(res)@)),
        pairs_map(string_pairs(final(res)@)) == pairs_map(string_pairs(old(res)@)).insert(k@, v@),
{
    let ghost before = string_pairs(res@);
    let ghost target = pairs_map(before).insert(k@, v@);
    proof {
        lemma_ordered_pairs_map(before);
    }
    let kc = to_chars(k.as_str());
    let n = res.len();
    let mut j: usize = 0;
    while j < n
        invariant
            n == res@.len(),
            j <= n,
            res@ == old(res)@,
            before == string_pairs(res@),
            keys_ordered(before),
            target == pairs_map(before).insert(k@, v@),
            kc@ == k@,
            forall|t: int| 0 <= t < j ==> text_before(#[trigger] before[t].0, k@),
        decreases n - j,
    {
        let name = to_chars(res[j].0.as_str());
        assert(before[j as int].0 == name@);
        if chars_eq(name.as_slice(), kc.as_slice()) {
            let ghost kk = k@;
            let ghost vv = v@;
            res.set(j, (k, v));
            proof {
                lemma_ordered_pairs_map(before);
                let after = string_pairs(res@);
                assert(after =~= before.update(j as int, (kk, vv)));
                assert(keys_ordered(after)) by {
                    assert forall|a: int, b: int| 0 <= a < b < after.len() implies text_before(
                        #[trigger] after[a].0,
                        #[trigger] after[b].0,
                    ) by {
                        assert(after[a].0 == before[a].0 && after[b].0 == before[b].0);
                    }
                }
                lemma_ordered_pairs_map(after);
                assert(before[j as int].0 == kk);
                assert(after[j as int] == (kk, vv));
                assert forall|x: Seq<char>| #[trigger]
                    pairs_map(after).contains_key(x) == target.contains_key(x) by {
                    if pairs_map(after).contains_key(x) {
                        let i = choose|i: int| 0 <= i < after.len() && after[i].0 == x;
                        if i != j as int {
                            assert(before[i] == after[i]);
                            assert(pairs_map(before).contains_key(before[i].0));
                        }
                    }
                    if target.contains_key(x) {
                        if x != kk {
                            assert(pairs_map(before).contains_key(x));
                            let i = choose|i: int| 0 <= i < before.len() && before[i].0 == x;
                            assert(after[i] == before[i]);
                            assert(pairs_map(after).contains_key(after[i].0));
                        } else {
                            assert(pairs_map(after).contains_key(after[j as int].0));
                        }
                    }
                }
                assert forall|x: Seq<char>| #[trigger]
                    pairs_map(after).contains_key(x) implies pairs_map(after)[x] == target[x] by {
                    let i = choose|i: int| 0 <= i < after.len() && after[i].0 == x;
                    assert(pairs_map(after)[after[i].0] == after[i].1);
                    if i != j as int {
                        assert(before[i] == after[i]);
                        if x == kk {
                            if i < j {
                                assert(text_before(before[i].0, before[j as int].0));
                            } else {
                                assert(text_before(before[j as int].0, before[i].0));
                            }
                            lemma_text_order(kk, kk);
                        }
                        assert(pairs_map(before)[before[i].0] == before[i].1);
                    }
                }
                assert(pairs_map(after) =~= target);
            }
            return;
        }
        if chars_before(kc.as_slice(), name.as_slice()) {
            let ghost kk = k@;
            let ghost vv = v@;
            res.insert(j, (k, v));
            proof {
                lemma_ordered_pairs_map(before);
                let after = string_pairs(res@);
                assert(after =~= before.insert(j as int, (kk, vv)));
                assert(keys_ordered(after)) by {
                    assert forall|a: int, b: int| 0 <= a < b < after.len() implies text_before(
                        #[trigger] after[a].0,
                        #[trigger] after[b].0,
                    ) by {
                        if b < j {
                            assert(after[a] == before[a] && after[b] == before[b]);
                        } else if b == j {
                            assert(after[a] == before[a]);
                        } else if a == j {
                            assert(after[b] == before[b - 1]);
                            if b - 1 > j {
                                assert(text_before(before[j as int].0, before[b - 1].0));
                                lemma_text_order_trans(kk, before[j as int].0, before[b - 1].0);
                            }
                        } else if a < j {
                            assert(after[a] == before[a] && after[b] == before[b - 1]);
                            assert(text_before(before[a].0, kk));
                            if b - 1 == j as int {
                                lemma_text_order_trans(before[a].0, kk, before[b - 1].0);
                            } else {
                                assert(text_before(before[a].0, before[b - 1].0));
                            }
                        } else {
                            assert(after[a] == before[a - 1] && after[b] == before[b - 1]);
                        }
                    }
                }
                lemma_ordered_pairs_map(after);
                assert forall|x: Seq<char>| #[trigger]
                    pairs_map(after).contains_key(x) == target.contains_key(x) by {
                    if pairs_map(after).contains_key(x) {
                        let i = choose|i: int| 0 <= i < after.len() && after[i].0 == x;
                        if i < j {
                            assert(before[i].0 == x);
                        } else if i > j {
                            assert(before[i - 1].0 == x);
                        }
                    }
                    if target.contains_key(x) && x != kk {
                        let i = choose|i: int| 0 <= i < before.len() && before[i].0 == x;
                        if i < j {
                            assert(after[i].0 == x);
                        } else {
                            assert(after[i + 1].0 == x);
                        }
                    }
                    if x == kk {
                        assert(after[j as int].0 == x);
                    }
                }
                assert forall|x: Seq<char>| #[trigger]
                    pairs_map(after).contains_key(x) implies pairs_map(after)[x] == target[x] by {
                    let i = choose|i: int| 0 <= i < after.len() && after[i].0 == x;
                    if i < j {
                        assert(before[i] == after[i]);
                        lemma_text_order(before[i].0, kk);
                    } else if i > j {
                        assert(before[i - 1] == after[i]);
                        assert(text_before(kk, before[j as int].0));
                        if i - 1 > j {
                            assert(text_before(before[j as int].0, before[i - 1].0));
                            lemma_text_order_trans(kk, before[j as int].0, before[i - 1].0);
                        }
                        lemma_text_order(kk, before[i - 1].0);
                    }
                }
                assert(pairs_map(after) =~= target);
            }
            return;
        }
        proof {
            lemma_text_order(name@, k@);
        }
        j = j + 1;
    }
    let ghost kk = k@;
    let ghost vv = v@;
    res.push((k, v));
    proof {
        let after = string_pairs(res@);
        assert(after =~= before.push((kk, vv)));
        assert(keys_ordered(after)) by {
            assert forall|a: int, b: int| 0 <= a < b < after.len() implies text_before(
                #[trigger] after[a].0,
                #[trigger] after[b].0,
            ) by {
                assert(after[a] == before[a]);
                if b < before.len() {
                    assert(after[b] == before[b]);
                }
            }
        }
        assert(after.drop_last() =~= before);
        assert(pairs_map(after) == target);
    }
}

/// Named text attached to a record (locations, links and the like): a map
/// from names to values.
#[derive(Debug, PartialEq, Eq)]
pub struct Fields {
    entries: Vec<(String, String)>,
}

impl Fields {
    /// The insertions made so far, in order.
    pub closed spec fn pairs(&self) -> Seq<(Seq<char>, Seq<char>)> {
        self.entries@.map_values(|p: (String, String)| (p.0@, p.1@))
    }
}

impl View for Fields {
    type V = Map<Seq<char>, Seq<char>>;

    closed spec fn view(&self) -> Map<Seq<char>, Seq<char>> {
        pairs_map(self.pairs())
    }
}

impl Fields {
    /// No fields.
    pub fn new() -> (res: Fields)
        ensures
            res@ == Map::<Seq<char>, Seq<char>>::empty(),
    {
        let res = Fields { entries: Vec::new() };
        assert(res.pairs() =~= Seq::<(Seq<char>, Seq<char>)>::empty());
        res
    }

    /// Sets `field` to `content`, replacing an earlier value.
    pub fn insert(&mut self, field: String, content: String)
        ensures
            final(self)@ == old(self)@.insert(field@, content@),
    {
        let ghost fv = field@;
        let ghost cv = content@;
        self.entries.push((field, content));
        assert(self.pairs().drop_last() =~= old(self).pairs());
    }

    /// The value of `field`, if it is set.
    pub fn get(&self, field: &String) -> (res: Option<String>)
        ensures
            res is Some <==> self@.contains_key(field@),
            res matches Some(v) ==> v@ == self@[field@],
    {
        let n = self.entries.len();
        let mut found: Option<usize> = None;
        for i in 0..n
            invariant
                n == self.entries@.len(),
                ({
                    let m = pairs_map(self.pairs().subrange(0, i as int));
                    &&& found is Some <==> m.contains_key(field@)
                    &&& found matches Some(j) ==> j < n && m[field@] == self.entries@[j as int].1@
                }),
        {
            let ghost pre = self.pairs().subrange(0, i as int);
            let ghost post = self.pairs().subrange(0, i + 1);
            assert(post.drop_last() =~= pre);
            if self.entries[i].0 == *field {
                found = Some(i);
            }
        }
        assert(self.pairs().subrange(0, n as int) =~= self.pairs());
        match found {
            Some(j) => Some(self.entries[j].1.clone()),
            None => None,
        }
    }

    /// The fields, one pair for each name with its value, in increasing
    /// order of names.
    pub fn entries(&self) -> (res: Vec<(String, String)>)
        ensures
            keys_ordered(string_pairs(res@)),
            pairs_map(string_pairs(res@)) == self@,
    {
        let d = self.duplicate_entries();
        let ghost all = string_pairs(d@);
        let mut res: Vec<(String, String)> = Vec::new();
        let n = d.len();
        let mut i: usize = 0;
        while i < n
            invariant
                n == d@.len(),
                i <= n,
                all == string_pairs(d@),
                all == self.pairs(),
                keys_ordered(string_pairs(res@)),
                pairs_map(string_pairs(res@)) == pairs_map(all.take(i as int)),
            decreases n - i,
        {
            assert(all.take(i + 1).drop_last() =~= all.take(i as int));
            assert(all[i as int] == (d[i as int].0@, d[i as int].1@));
            place(&mut res, d[i].0.clone(), d[i].1.clone());
            i = i + 1;
        }
        assert(all.take(n as int) =~= all);
        res
    }

    fn duplicate_entries(&self) -> (res: Vec<(String, String)>)
        ensures
            res@.map_values(|p: (String, String)| (p.0@, p.1@)) == self.pairs(),
    {
        let mut entries: Vec<(String, String)> = Vec::new();
        let n = self.entries.len();
        let mut i: usize = 0;
        while i < n
            invariant
                n == self.entries@.len(),
                i <= n,
                entries@.len() == i,
                forall|k: int|
                    0 <= k < i ==> (#[trigger] entries@[k]).0@ == self.entries@[k].0@
                        && entries@[k].1@ == self.entries@[k].1@,
            decreases n - i,
        {
            let k = self.entries[i].0.clone();
            let v = self.entries[i].1.clone();
            entries.push((k, v));
            i = i + 1;
        }
        assert(entries@.map_values(|p: (String, String)| (p.0@, p.1@)) =~= self.pairs());
        entries
    }

    /// An equal set of fields.
    pub fn duplicate(&self) -> (res: Fields)
        ensures
            res@ == self@,
    {
        let entries = self.duplicate_entries();
        let res = Fields { entries };
        assert(res.pairs() =~= self.pairs());
        res
    }
}

// ------------------------------------------------------------------------
// Records
// ------------------------------------------------------------------------

/// The abstract content of a record; times are nanoseconds since midnight
/// and durations nanoseconds.
pub struct RecordView {
    pub primary_key: u64,
    pub recurrence_key: Option<u64>,
    pub internal_key: Option<Seq<char>>,
    pub internal_recurrence_key: Option<Seq<char>>,
    pub date: Date,
    pub typ: RecordType,
    pub at: Option<int>,
    pub scheduled: Option<(int, int)>,
    pub detail: Seq<char>,
    pub fields: Map<Seq<char>, Seq<char>>,
    pub notifications: Option<Seq<int>>,
    pub completed: bool,
}

/// The view of an optional string.
pub open spec fn opt_str(o: Option<String>) -> Option<Seq<char>> {
    match o {
        Some(s) => Some(s@),
        None => None,
    }
}

/// The view of an optional time.
pub open spec fn opt_time(o: Option<Time>) -> Option<int> {
    match o {
        Some(t) => Some(t@),
        None => None,
    }
}

/// The view of an optional schedule.
pub open spec fn opt_schedule(o: Option<(Time, Time)>) -> Option<(int, int)> {
    match o {
        Some(s) => Some((s.0@, s.1@)),
        None => None,
    }
}

/// The view of optional notification offsets.
pub open spec fn opt_durations(o: Option<Vec<Duration>>) -> Option<Seq<int>> {
    match o {
        Some(v) => Some(v@.map_values(|d: Duration| d@)),
        None => None,
    }
}

/// A calendar record.
#[derive(Debug, PartialEq, Eq)]
pub struct Record {
    primary_key: u64,
    recurrence_key: Option<u64>,
    internal_key: Option<String>,
    internal_recurrence_key: Option<String>,
    date: Date,
    typ: RecordType,
    at: Option<Time>,
    scheduled: Option<(Time, Time)>,
    detail: String,
    fields: Fields,
    notifications: Option<Vec<Duration>>,
    completed: bool,
}

impl View for Record {
    type V = RecordView;

    closed spec fn view(&self) -> RecordView {
        RecordView {
            primary_key: self.primary_key,
            recurrence_key: self.recurrence_key,
            internal_key: opt_str(self.internal_key),
            internal_recurrence_key: opt_str(self.internal_recurrence_key),
            date: self.date,
            typ: self.typ,
            at: opt_time(self.at),
            scheduled: opt_schedule(self.scheduled),
            detail: self.detail@,
            fields: self.fields@,
            notifications: opt_durations(self.notifications),
            completed: self.completed,
        }
    }
}

impl RecordView {
    /// Whether the placement matches the type: an `At` record has a time,
    /// a `Schedule` record has a schedule.
    pub open spec fn well_typed(self) -> bool {
        &&& self.typ == RecordType::At ==> self.at is Some
        &&& self.typ == RecordType::Schedule ==> self.scheduled is Some
    }

    /// The time of day the record starts at: its time, the start of its
    /// schedule, or midnight for a whole-day record.
    pub open spec fn start_time(self) -> int {
        match self.typ {
            RecordType::At => self.at.unwrap(),
            RecordType::Schedule => self.scheduled.unwrap().0,
            RecordType::AllDay => 0,
        }
    }

    /// The record as it is after `set_all_day`.
    pub open spec fn made_all_day(self) -> RecordView {
        RecordView { at: None, scheduled: None, typ: RecordType::AllDay, ..self }
    }

    /// The record as it is after `set_at(at)`.
    pub open spec fn made_at(self, at: Option<int>) -> RecordView {
        RecordView { at: at, scheduled: None, typ: RecordType::At, ..self }
    }

    /// The record as it is after `set_scheduled(s)`.
    pub open spec fn made_scheduled(self, s: Option<(int, int)>) -> RecordView {
        RecordView { scheduled: s, at: None, typ: RecordType::Schedule, ..self }
    }

    /// The record as it is after `add_notification(n)`.
    pub open spec fn with_notification(self, n: int) -> RecordView {
        RecordView {
            notifications: Some(
                match self.notifications {
                    Some(v) => v.push(n),
                    None => seq![n],
                },
            ),
            ..self
        }
    }
}

/// A whole-day record for `date` with nothing else set.
pub open spec fn blank_record(date: Date) -> RecordView {
    RecordView {
        primary_key: 0,
        recurrence_key: None,
        internal_key: None,
        internal_recurrence_key: None,
        date: date,
        typ: RecordType::AllDay,
        at: None,
        scheduled: None,
        detail: Seq::empty(),
        fields: Map::empty(),
        notifications: None,
        completed: false,
    }
}

/// Clones an optional string.
pub fn clone_opt_string(o: &Option<String>) -> (res: Option<String>)
    ensures
        opt_str(res) == opt_str(*o),
{
    match o {
        Some(s) => Some(s.clone()),
        None => None,
    }
}

/// Copies optional notification offsets.
pub fn clone_notifications(o: &Option<Vec<Duration>>) -> (res: Option<Vec<Duration>>)
    ensures
        opt_durations(res) == opt_durations(*o),
{
    match o {
        Some(v) => {
            let mut w: Vec<Duration> = Vec::new();
            for i in 0..v.len()
                invariant
                    w@ == v@.subrange(0, i as int),
            {
                w.push(v[i]);
                assert(w@ =~= v@.subrange(0, i + 1));
            }
            assert(w@ =~= v@);
            Some(w)
        },
        None => None,
    }
}

impl Record {
    /// A new whole-day record for `date`, with nothing else set.
    pub fn for_date(date: Date) -> (res: Record)
        ensures
            res@ == blank_record(date),
    {
        Record {
            primary_key: 0,
            recurrence_key: None,
            internal_key: None,
            internal_recurrence_key: None,
            date,
            typ: RecordType::AllDay,
            at: None,
            scheduled: None,
            detail: String::new(),
            fields: Fields::new(),
            notifications: None,
            completed: false,
        }
    }

    /// A new whole-day record for today, with nothing else set.
    pub fn build() -> (res: Record)
        ensures
            res@ == blank_record(res@.date),
            res@.date.valid(),
    {
        Record::for_date(crate::time::now().date)
    }

    /// An equal record.
    pub fn duplicate(&self) -> (res: Record)
        ensures
            res@ == self@,
    {
        Record {
            primary_key: self.primary_key,
            recurrence_key: self.recurrence_key,
            internal_key: clone_opt_string(&self.internal_key),
            internal_recurrence_key: clone_opt_string(&self.internal_recurrence_key),
            date: self.date,
            typ: self.typ,
            at: self.at,
            scheduled: self.scheduled,
            detail: self.detail.clone(),
            fields: self.fields.duplicate(),
            notifications: clone_notifications(&self.notifications),
            completed: self.completed,
        }
    }

    pub fn primary_key(&self) -> (res: u64)
        ensures
            res == self@.primary_key,
    {
        self.primary_key
    }

    pub fn recurrence_key(&self) -> (res: Option<u64>)
        ensures
            res == self@.recurrence_key,
    {
        self.recurrence_key
    }

    pub fn internal_recurrence_key(&self) -> (res: Option<String>)
        ensures
            opt_str(res) == self@.internal_recurrence_key,
    {
        clone_opt_string(&self.internal_recurrence_key)
    }

    pub fn internal_key(&self) -> (res: Option<String>)
        ensures
            opt_str(res) == self@.internal_key,
    {
        clone_opt_string(&self.internal_key)
    }

    pub fn set_internal_key(&mut self, key: Option<String>)
        ensures
            final(self)@ == (RecordView { internal_key: opt_str(key), ..old(self)@ }),
    {
        self.internal_key = key;
    }

    pub fn record_type(&self) -> (res: RecordType)
        ensures
            res == self@.typ,
    {
        self.typ
    }

    /// Whether the placement matches the type (see `RecordView::well_typed`).
    pub fn is_well_typed(&self) -> (res: bool)
        ensures
            res == self@.well_typed(),
    {
        match self.typ {
            RecordType::At => self.at.is_some(),
            RecordType::Schedule => self.scheduled.is_some(),
            RecordType::AllDay => true,
        }
    }

    /// The date and starting time of the record.
    pub fn datetime(&self) -> (res: DateTime)
        requires
            self@.well_typed(),
        ensures
            res.date == self@.date,
            res.time@ == self@.start_time(),
    {
        let time = match self.typ {
            RecordType::At => self.at.unwrap(),
            RecordType::AllDay => Time::midnight(),
            RecordType::Schedule => self.scheduled.unwrap().0,
        };
        DateTime { date: self.date, time }
    }

    pub fn completed(&self) -> (res: bool)
        ensures
            res == self@.completed,
    {
        self.completed
    }

    pub fn date(&self) -> (res: Date)
        ensures
            res == self@.date,
    {
        self.date
    }

    pub fn at(&self) -> (res: Option<Time>)
        ensures
            opt_time(res) == self@.at,
    {
        self.at
    }

    pub fn scheduled(&self) -> (res: Option<(Time, Time)>)
        ensures
            opt_schedule(res) == self@.scheduled,
    {
        self.scheduled
    }

    pub fn all_day(&self) -> (res: bool)
        ensures
            res == (self@.typ == RecordType::AllDay),
    {
        self.typ == RecordType::AllDay
    }

    pub fn detail(&self) -> (res: String)
        ensures
            res@ == self@.detail,
    {
        self.detail.clone()
    }

    pub fn fields(&self) -> (res: Fields)
        ensures
            res@ == self@.fields,
    {
        self.fields.duplicate()
    }

    pub fn notifications(&self) -> (res: Option<Vec<Duration>>)
        ensures
            opt_durations(res) == self@.notifications,
    {
        clone_notifications(&self.notifications)
    }

    pub fn set_internal_recurrence_key(&mut self, internal_recurrence_key: Option<String>)
        ensures
            final(self)@ == (RecordView {
                internal_recurrence_key: opt_str(internal_recurrence_key),
                ..old(self)@
            }),
    {
        self.internal_recurrence_key = internal_recurrence_key;
    }

    pub fn set_primary_key(&mut self, primary_key: u64) -> (ret: &mut Self)
        ensures
            ret@ == (RecordView { primary_key: primary_key, ..old(self)@ }),
            *final(self) == *final(ret),
    {
        self.primary_key = primary_key;
        self
    }

    pub fn set_recurrence_key(&mut self, key: Option<u64>) -> (ret: &mut Self)
        ensures
            ret@ == (RecordView { recurrence_key: key, ..old(self)@ }),
            *final(self) == *final(ret),
    {
        self.recurrence_key = key;
        self
    }

    pub fn set_record_type(&mut self, typ: RecordType) -> (ret: &mut Self)
        ensures
            ret@ == (RecordView { typ: typ, ..old(self)@ }),
            *final(self) == *final(ret),
    {
        self.typ = typ;
        self
    }

    /// Makes the record a whole-day record.
    pub fn set_all_day(&mut self) -> (ret: &mut Self)
        ensures
            ret@ == old(self)@.made_all_day(),
            *final(self) == *final(ret),
    {
        self.at = None;
        self.scheduled = None;
        self.typ = RecordType::AllDay;
        self
    }

    pub fn set_completed(&mut self, completed: bool) -> (ret: &mut Self)
        ensures
            ret@ == (RecordView { completed: completed, ..old(self)@ }),
            *final(self) == *final(ret),
    {
        self.completed = completed;
        self
    }

    pub fn set_date(&mut self, date: Date) -> (ret: &mut Self)
        ensures
            ret@ == (RecordView { date: date, ..old(self)@ }),
            *final(self) == *final(ret),
    {
        self.date = date;
        self
    }

    /// Places the record at a time of day.
    pub fn set_at(&mut self, at: Option<Time>) -> (ret: &mut Self)
        ensures
            ret@ == old(self)@.made_at(opt_time(at)),
            *final(self) == *final(ret),
    {
        self.at = at;
        self.scheduled = None;
        self.typ = RecordType::At;
        self
    }

    /// Places the record within a span of the day.
    pub fn set_scheduled(&mut self, schedule: Option<(Time, Time)>) -> (ret: &mut Self)
        ensures
            ret@ == old(self)@.made_scheduled(opt_schedule(schedule)),
            *final(self) == *final(ret),
    {
        self.scheduled = schedule;
        self.at = None;
        self.typ = RecordType::Schedule;
        self
    }

    pub fn set_detail(&mut self, detail: String) -> (ret: &mut Self)
        ensures
            ret@ == (RecordView { detail: detail@, ..old(self)@ }),
            *final(self) == *final(ret),
    {
        self.detail = detail;
        self
    }

    /// Sets the field `field` to `content`.
    pub fn add_field(&mut self, field: String, content: String) -> (ret: &mut Self)
        ensures
            ret@ == (RecordView {
                fields: old(self)@.fields.insert(field@, content@),
                ..old(self)@
            }),
            *final(self) == *final(ret),
    {
        self.fields.insert(field, content);
        self
    }

    /// Adds a notification `notification` before the record.
    pub fn add_notification(&mut self, notification: Duration) -> (ret: &mut Self)
        ensures
            ret@ == old(self)@.with_notification(notification@),
            *final(self) == *final(ret),
    {
        match &mut self.notifications {
            Some(v) => {
                v.push(notification);
            },
            None => {
                let mut v: Vec<Duration> = Vec::new();
                v.push(notification);
                self.notifications = Some(v);
            },
        }
        proof {
            let o = old(self)@.notifications;
            if let Some(w) = o {
                assert(opt_durations(self.notifications) =~~= Some(w.push(notification@)));
            } else {
                assert(opt_durations(self.notifications) =~~= Some(seq![notification@]));
            }
        }
        self
    }

    pub fn set_notifications(&mut self, notifications: Option<Vec<Duration>>)
        ensures
            final(self)@ == (RecordView {
                notifications: opt_durations(notifications),
                ..old(self)@
            }),
    {
        self.notifications = notifications;
    }
}

impl Default for Record {
    /// A new whole-day record for today, with nothing else set.
    fn default() -> (res: Record)
        ensures
            res@ == blank_record(res@.date),
            res@.date.valid(),
    {
        Record::build()
    }
}

// ------------------------------------------------------------------------
// Presented records
// ------------------------------------------------------------------------

/// The character of the decimal digit `d`.
pub open spec fn digit_char(d: int) -> char {
    if d == 0 {
        '0'
    } else if d == 1 {
        '1'
    } else if d == 2 {
        '2'
    } else if d == 3 {
        '3'
    } else if d == 4 {
        '4'
    } else if d == 5 {
        '5'
    } else if d == 6 {
        '6'
    } else if d == 7 {
        '7'
    } else if d == 8 {
        '8'
    } else {
        '9'
    }
}

/// The character of the decimal digit `d`.
pub fn digit_to_char(d: u64) -> (res: char)
    requires
        d < 10,
    ensures
        res == digit_char(d as int),
{
    if d == 0 {
        '0'
    } else if d == 1 {
        '1'
    } else if d == 2 {
        '2'
    } else if d == 3 {
        '3'
    } else if d == 4 {
        '4'
    } else if d == 5 {
        '5'
    } else if d == 6 {
        '6'
    } else if d == 7 {
        '7'
    } else if d == 8 {
        '8'
    } else {
        '9'
    }
}

/// A time of day written as `HH:MM`, zero-padded.
pub open spec fn hour_minute_text(t: int) -> Seq<char> {
    let h = t / (3600 * NANOS_PER_SEC as int);
    let m = (t / (60 * NANOS_PER_SEC as int)) % 60;
    seq![digit_char(h / 10), digit_char(h % 10), ':', digit_char(m / 10), digit_char(m % 10)]
}

/// Writes a time of day as `HH:MM`.
pub fn format_hour_minute(t: &Time) -> (res: Vec<char>)
    ensures
        res@ == hour_minute_text(t@),
{
    let h = t.hour() as u64;
    let m = t.minute() as u64;
    let mut v: Vec<char> = Vec::new();
    v.push(digit_to_char(h / 10));
    v.push(digit_to_char(h % 10));
    v.push(':');
    v.push(digit_to_char(m / 10));
    v.push(digit_to_char(m % 10));
    assert(v@ =~= hour_minute_text(t@));
    v
}

/// A span of the day, as the user edits it.
#[derive(Clone, Copy, Debug, PartialEq, Eq)]
pub struct PresentedSchedule {
    start: Time,
    stop: Time,
}

impl View for PresentedSchedule {
    type V = (int, int);

    closed spec fn view(&self) -> (int, int) {
        (self.start@, self.stop@)
    }
}

/// The view of an optional presented schedule.
pub open spec fn opt_presented(o: Option<PresentedSchedule>) -> Option<(int, int)> {
    match o {
        Some(s) => Some(s@),
        None => None,
    }
}

impl PresentedSchedule {
    /// The presented form of a schedule.
    pub fn from_schedule(s: (Time, Time)) -> (res: PresentedSchedule)
        ensures
            res@ == (s.0@, s.1@),
    {
        PresentedSchedule { start: s.0, stop: s.1 }
    }

    /// The schedule this presents.
    pub fn to_schedule(&self) -> (res: (Time, Time))
        ensures
            (res.0@, res.1@) == self@,
    {
        (self.start, self.stop)
    }

    /// The span written as `HH:MM - HH:MM`.
    pub fn to_string(&self) -> (res: String)
        ensures
            res@ == hour_minute_text(self@.0) + seq![' ', '-', ' '] + hour_minute_text(self@.1),
    {
        let mut v = format_hour_minute(&self.start);
        v.push(' ');
        v.push('-');
        v.push(' ');
        let w = format_hour_minute(&self.stop);
        let mut i: usize = 0;
        let ghost base = v@;
        while i < w.len()
            invariant
                i <= w@.len(),
                v@ == base + w@.subrange(0, i as int),
            decreases w@.len() - i,
        {
            v.push(w[i]);
            i = i + 1;
            assert(v@ =~= base + w@.subrange(0, i as int));
        }
        assert(w@.subrange(0, w@.len() as int) =~= w@);
        from_chars(v.as_slice())
    }
}

/// A record as the user edits it: everything but its keys.
#[derive(Debug, PartialEq, Eq)]
pub struct PresentedRecord {
    pub date: Date,
    pub typ: RecordType,
    pub at: Option<Time>,
    pub scheduled: Option<PresentedSchedule>,
    pub detail: String,
    pub fields: Fields,
    pub notifications: Option<Vec<Duration>>,
    pub completed: bool,
}

impl PresentedRecord {
    /// The presented form of `value`.
    pub fn from_record(value: Record) -> (res: PresentedRecord)
        ensures
            res.date == value@.date,
            res.typ == value@.typ,
            opt_time(res.at) == value@.at,
            opt_presented(res.scheduled) == value@.scheduled,
            res.detail@ == value@.detail,
            res.fields@ == value@.fields,
            opt_durations(res.notifications) == value@.notifications,
            res.completed == value@.completed,
    {
        PresentedRecord {
            date: value.date,
            typ: value.typ,
            at: value.at,
            scheduled: match value.scheduled {
                Some(s) => Some(PresentedSchedule::from_schedule(s)),
                None => None,
            },
            detail: value.detail,
            fields: value.fields,
            notifications: value.notifications,
            completed: value.completed,
        }
    }

    /// The record this presents, under the given keys.
    pub fn to_record(
        self,
        primary_key: u64,
        recurrence_key: Option<u64>,
        internal_key: Option<String>,
        internal_recurrence_key: Option<String>,
    ) -> (res: Record)
        ensures
            res@ == (RecordView {
                primary_key: primary_key,
                recurrence_key: recurrence_key,
                internal_key: opt_str(internal_key),
                internal_recurrence_key: opt_str(internal_recurrence_key),
                date: self.date,
                typ: self.typ,
                at: opt_time(self.at),
                scheduled: opt_presented(self.scheduled),
                detail: self.detail@,
                fields: self.fields@,
                notifications: opt_durations(self.notifications),
                completed: self.completed,
            }),
    {
        Record {
            primary_key,
            recurrence_key,
            internal_key,
            internal_recurrence_key,
            date: self.date,
            typ: self.typ,
            at: self.at,
            scheduled: match self.scheduled {
                Some(s) => Some(s.to_schedule()),
                None => None,
            },
            detail: self.detail,
            fields: self.fields,
            notifications: self.notifications,
            completed: self.completed,
        }
    }
}

/// Presenting a record and reading it back under its own keys gives the
/// same record.
pub proof fn lemma_present_round_trip(r: RecordView, p: PresentedRecord, back: RecordView)
    requires
        p.date == r.date,
        p.typ == r.typ,
        opt_time(p.at) == r.at,
        opt_presented(p.scheduled) == r.scheduled,
        p.detail@ == r.detail,
        p.fields@ == r.fields,
        opt_durations(p.notifications) == r.notifications,
        p.completed == r.completed,
        back == (RecordView {
            primary_key: r.primary_key,
            recurrence_key: r.recurrence_key,
            internal_key: r.internal_key,
            internal_recurrence_key: r.internal_recurrence_key,
            date: p.date,
            typ: p.typ,
            at: opt_time(p.at),
            scheduled: opt_presented(p.scheduled),
            detail: p.detail@,
            fields: p.fields@,
            notifications: opt_durations(p.notifications),
            completed: p.completed,
        }),
    ensures
        back == r,
{
}

// ------------------------------------------------------------------------
// Recurring records
// ------------------------------------------------------------------------

/// The abstract content of a recurring record.
pub struct RecurringView {
    pub record: RecordView,
    pub recurrence: int,
    pub recurrence_key: u64,
    pub internal_key: Option<Seq<char>>,
}

/// A record that repeats every `recurrence`.
#[derive(Debug, PartialEq, Eq)]
pub struct RecurringRecord {
    record: Record,
    recurrence: Duration,
    recurrence_key: u64,
    internal_key: Option<String>,
}

impl View for RecurringRecord {
    type V = RecurringView;

    closed spec fn view(&self) -> RecurringView {
        RecurringView {
            record: self.record@,
            recurrence: self.recurrence@,
            recurrence_key: self.recurrence_key,
            internal_key: opt_str(self.internal_key),
        }
    }
}

/// How often a recurrence rule repeats.
#[derive(Clone, Copy, Debug, PartialEq, Eq, Structural)]
pub enum RuleFrequency {
    Daily,
    Monthly,
    Weekly,
    Yearly,
}

/// The frequency a rule names, read without regard to case.
pub open spec fn frequency_named(s: Seq<char>) -> Option<RuleFrequency> {
    let l = lowercase(s);
    if l == "daily"@ {
        Some(RuleFrequency::Daily)
    } else if l == "yearly"@ {
        Some(RuleFrequency::Yearly)
    } else if l == "monthly"@ {
        Some(RuleFrequency::Monthly)
    } else if l == "weekly"@ {
        Some(RuleFrequency::Weekly)
    } else {
        None
    }
}

/// Reads a rule frequency, without regard to case.
pub fn parse_frequency(s: &[char]) -> (res: Result<RuleFrequency, SaturnError>)
    ensures
        res matches Ok(f) ==> frequency_named(s@) == Some(f),
        res is Err ==> frequency_named(s@) is None && res == Err::<RuleFrequency, SaturnError>(
            SaturnError::InvalidFrequency,
        ),
{
    let l = chars_lowercase(s);
    if chars_are(l.as_slice(), "daily") {
        Ok(RuleFrequency::Daily)
    } else if chars_are(l.as_slice(), "yearly") {
        Ok(RuleFrequency::Yearly)
    } else if chars_are(l.as_slice(), "monthly") {
        Ok(RuleFrequency::Monthly)
    } else if chars_are(l.as_slice(), "weekly") {
        Ok(RuleFrequency::Weekly)
    } else {
        Err(SaturnError::InvalidFrequency)
    }
}

/// The length in nanoseconds of `interval` repetitions of `freq`, or a halt
/// where the duration arithmetic leaves its range: a month counts 30 days
/// and a year 52 weeks.
pub open spec fn rule_duration(freq: RuleFrequency, interval: int) -> Outcome<int> {
    match freq {
        RuleFrequency::Daily => if crate::time::duration_in_range(interval * 86400 * NANOS_PER_SEC) {
            Outcome::Value(interval * 86400 * NANOS_PER_SEC)
        } else {
            Outcome::Halt
        },
        RuleFrequency::Weekly => if crate::time::duration_in_range(
            interval * 604800 * NANOS_PER_SEC,
        ) {
            Outcome::Value(interval * 604800 * NANOS_PER_SEC)
        } else {
            Outcome::Halt
        },
        RuleFrequency::Monthly => if crate::time::duration_in_range(
            interval * 86400 * NANOS_PER_SEC,
        ) && crate::time::duration_in_range(interval * 86400 * NANOS_PER_SEC * 30) {
            Outcome::Value(interval * 86400 * NANOS_PER_SEC * 30)
        } else {
            Outcome::Halt
        },
        RuleFrequency::Yearly => if crate::time::duration_in_range(
            interval * 604800 * NANOS_PER_SEC,
        ) && crate::time::duration_in_range(interval * 604800 * NANOS_PER_SEC * 52) {
            Outcome::Value(interval * 604800 * NANOS_PER_SEC * 52)
        } else {
            Outcome::Halt
        },
    }
}


/// One `KEY=VALUE` token of a rule applied to the frequency and interval
/// read so far.
pub open spec fn rule_token_step(
    token: Seq<char>,
    freq: Option<RuleFrequency>,
    interval: Option<int>,
) -> Outcome<(Option<RuleFrequency>, Option<int>)> {
    let pair = split_at_char(token, '=');
    if pair[0] == "FREQ"@ {
        if pair.len() < 2 {
            Outcome::Halt
        } else {
            match frequency_named(pair[1]) {
                Some(f) => Outcome::Value((Some(f), interval)),
                None => Outcome::Fail(SaturnError::InvalidFrequency),
            }
        }
    } else if pair[0] == "INTERVAL"@ {
        if pair.len() < 2 {
            Outcome::Halt
        } else {
            match parse_signed(pair[1], i64::MIN as int, i64::MAX as int) {
                Some(v) => Outcome::Value((freq, Some(v))),
                None => Outcome::Fail(SaturnError::InvalidNumber),
            }
        }
    } else {
        Outcome::Value((freq, interval))
    }
}

/// Reads the tokens from index `i` on, stopping once both a frequency and
/// an interval are known.
pub open spec fn rule_scan(
    tokens: Seq<Seq<char>>,
    i: int,
    freq: Option<RuleFrequency>,
    interval: Option<int>,
) -> Outcome<(Option<RuleFrequency>, Option<int>)>
    decreases tokens.len() - i,
{
    if i >= tokens.len() || i < 0 {
        Outcome::Value((freq, interval))
    } else {
        match rule_token_step(tokens[i], freq, interval) {
            Outcome::Value((f, iv)) => if f is Some && iv is Some {
                Outcome::Value((f, iv))
            } else {
                rule_scan(tokens, i + 1, f, iv)
            },
            Outcome::Fail(e) => Outcome::Fail(e),
            Outcome::Halt => Outcome::Halt,
        }
    }
}

/// The result of the scan once the frequency `freq` and interval
/// `interval` have been read from the tokens before index `i`.
pub open spec fn rule_scan_from(
    tokens: Seq<Seq<char>>,
    i: int,
    freq: Option<RuleFrequency>,
    interval: Option<int>,
) -> Outcome<(Option<RuleFrequency>, Option<int>)> {
    if freq is Some && interval is Some {
        Outcome::Value((freq, interval))
    } else {
        rule_scan(tokens, i, freq, interval)
    }
}

/// The recurrence length that a finished scan of the rule's tokens gives:
/// both a frequency and an interval are needed.
pub open spec fn rule_conclude(scan: Outcome<(Option<RuleFrequency>, Option<int>)>) -> Outcome<int> {
    match scan {
        Outcome::Value((Some(f), Some(i))) => rule_duration(f, i),
        Outcome::Value(_) => Outcome::Fail(SaturnError::RecurrenceUnparsable),
        Outcome::Fail(e) => Outcome::Fail(e),
        Outcome::Halt => Outcome::Halt,
    }
}

/// The recurrence length that the rule text `rrule` (such as
/// `RRULE:FREQ=DAILY;INTERVAL=2`) gives.
pub open spec fn rule_recurrence(rrule: Seq<char>) -> Outcome<int> {
    let parts = split_at_char(rrule, ':');
    if parts[0] == "RRULE"@ {
        if parts.len() < 2 {
            Outcome::Halt
        } else {
            rule_conclude(rule_scan(split_at_char(parts[1], ';'), 0, None, None))
        }
    } else {
        Outcome::Fail(SaturnError::RecurrenceUnparsable)
    }
}

/// The duration of `interval` repetitions of `freq`, or `None` where
/// `rule_duration` stops.
fn rule_duration_opt(freq: RuleFrequency, interval: i64) -> (res: Option<Duration>)
    ensures
        match rule_duration(freq, interval as int) {
            Outcome::Value(n) => res matches Some(d) && d@ == n,
            _ => res is None,
        },
{
    match freq {
        RuleFrequency::Daily => Duration::try_days(interval),
        RuleFrequency::Weekly => Duration::try_weeks(interval),
        RuleFrequency::Monthly => match Duration::try_days(interval) {
            Some(d) => d.checked_mul(30),
            None => None,
        },
        RuleFrequency::Yearly => match Duration::try_weeks(interval) {
            Some(d) => d.checked_mul(52),
            None => None,
        },
    }
}

/// `record` repeated as the rule text `rrule` says (see `rule_recurrence`),
/// or a stop where reading the rule stops.
pub fn read_rrule(record: Record, rrule: &String) -> (res: Outcome<RecurringRecord>)
    ensures
        match rule_recurrence(rrule@) {
            Outcome::Value(n) => res matches Outcome::Value(r) && r@ == (RecurringView {
                record: record@,
                recurrence: n,
                recurrence_key: 0,
                internal_key: None,
            }),
            Outcome::Fail(e) => res == Outcome::<RecurringRecord>::Fail(e),
            Outcome::Halt => res is Halt,
        },
{
    let text = to_chars(rrule.as_str());
    let parts = split_on(text.as_slice(), ':');
    proof {
        crate::text::lemma_split_by_nonempty(text@, seq![':']);
    }
    if !chars_are(parts[0].as_slice(), "RRULE") {
        return Outcome::Fail(SaturnError::RecurrenceUnparsable);
    }
    if parts.len() < 2 {
        return Outcome::Halt;
    }
    let tokens = split_on(parts[1].as_slice(), ';');
    let ghost tok = split_at_char(parts@[1]@, ';');
    let mut freq: Option<RuleFrequency> = None;
    let mut interval: Option<i64> = None;
    let mut i: usize = 0;
    while i < tokens.len() && !(freq.is_some() && interval.is_some())
        invariant
            tokens@.len() == tok.len(),
            forall|k: int| 0 <= k < tokens@.len() ==> #[trigger] tokens@[k]@ == tok[k],
            i <= tokens@.len(),
            rule_recurrence(rrule@) == rule_conclude(rule_scan(tok, 0, None, None)),
            rule_scan(tok, 0, None, None) == rule_scan_from(
                tok,
                i as int,
                freq,
                match interval {
                    Some(v) => Some(v as int),
                    None => None,
                },
            ),
        decreases tokens@.len() - i,
    {
        let ghost iv = match interval {
            Some(v) => Some(v as int),
            None => None::<int>,
        };
        let pair = split_on(tokens[i].as_slice(), '=');
        let ghost p = split_at_char(tok[i as int], '=');
        proof {
            crate::text::lemma_split_by_nonempty(tok[i as int], seq!['=']);
        }
        assert(pair@.len() == p.len());
        assert(pair@[0]@ == p[0]);
        if chars_are(pair[0].as_slice(), "FREQ") {
            if pair.len() < 2 {
                assert(rule_token_step(tok[i as int], freq, iv) is Halt);
                return Outcome::Halt;
            }
            assert(pair@[1]@ == p[1]);
            match parse_frequency(pair[1].as_slice()) {
                Ok(f) => {
                    freq = Some(f);
                },
                Err(e) => {
                    assert(rule_token_step(tok[i as int], freq, iv) == Outcome::<
                        (Option<RuleFrequency>, Option<int>),
                    >::Fail(e));
                    return Outcome::Fail(e);
                },
            }
        } else if chars_are(pair[0].as_slice(), "INTERVAL") {
            if pair.len() < 2 {
                assert(rule_token_step(tok[i as int], freq, iv) is Halt);
                return Outcome::Halt;
            }
            assert(pair@[1]@ == p[1]);
            match parse_i64(pair[1].as_slice()) {
                Some(v) => {
                    interval = Some(v);
                },
                None => {
                    assert(rule_token_step(tok[i as int], freq, iv) == Outcome::<
                        (Option<RuleFrequency>, Option<int>),
                    >::Fail(SaturnError::InvalidNumber));
                    return Outcome::Fail(SaturnError::InvalidNumber);
                },
            }
        }
        i = i + 1;
    }
    match (freq, interval) {
        (Some(f), Some(v)) => match rule_duration_opt(f, v) {
            Some(d) => Outcome::Value(RecurringRecord::new(record, d)),
            None => Outcome::Halt,
        },
        _ => Outcome::Fail(SaturnError::RecurrenceUnparsable),
    }
}

/// The text of the decimal number `n`.
pub open spec fn nat_text(n: nat) -> Seq<char>
    decreases n,
{
    if n < 10 {
        seq![digit_char(n as int)]
    } else {
        nat_text((n / 10) as nat).push(digit_char((n % 10) as int))
    }
}

/// The text of the decimal number `n`, with a leading `-` when negative.
pub open spec fn int_text(n: int) -> Seq<char> {
    if n < 0 {
        seq!['-'] + nat_text((-n) as nat)
    } else {
        nat_text(n as nat)
    }
}

/// Writes `n` in decimal.
pub fn format_u64(n: u64) -> (res: Vec<char>)
    ensures
        res@ == nat_text(n as nat),
    decreases n,
{
    if n < 10 {
        let mut v: Vec<char> = Vec::new();
        v.push(digit_to_char(n));
        v
    } else {
        let mut v = format_u64(n / 10);
        v.push(digit_to_char(n % 10));
        v
    }
}

/// Writes `n` in decimal, with a leading `-` when negative.
pub fn format_i64(n: i64) -> (res: Vec<char>)
    ensures
        res@ == int_text(n as int),
{
    if n < 0 {
        let m: u64 = if n == i64::MIN {
            9_223_372_036_854_775_808u64
        } else {
            (-n) as u64
        };
        let digits = format_u64(m);
        let mut v: Vec<char> = Vec::new();
        v.push('-');
        let mut i: usize = 0;
        while i < digits.len()
            invariant
                i <= digits@.len(),
                v@ == seq!['-'] + digits@.subrange(0, i as int),
            decreases digits@.len() - i,
        {
            v.push(digits[i]);
            i = i + 1;
            assert(v@ =~= seq!['-'] + digits@.subrange(0, i as int));
        }
        assert(digits@.subrange(0, digits@.len() as int) =~= digits@);
        v
    } else {
        format_u64(n as u64)
    }
}

/// Appends the characters of `w` to `v`.
pub fn push_all(v: &mut Vec<char>, w: &[char])
    ensures
        final(v)@ == old(v)@ + w@,
{
    let mut i: usize = 0;
    while i < w.len()
        invariant
            i <= w@.len(),
            v@ == old(v)@ + w@.subrange(0, i as int),
        decreases w@.len() - i,
    {
        v.push(w[i]);
        i = i + 1;
        assert(v@ =~= old(v)@ + w@.subrange(0, i as int));
    }
    assert(w@.subrange(0, w@.len() as int) =~= w@);
}

/// The frequency name and interval a rule is written with for a
/// recurrence of `d` nanoseconds: daily below 30 days, monthly (30 days)
/// below 52 weeks, yearly otherwise.
pub open spec fn rule_parts(d: int) -> (Seq<char>, int) {
    let secs = crate::time::trunc_div(d, NANOS_PER_SEC as int);
    let days = crate::time::trunc_div(secs, 86400);
    if d < 30 * 86400 * NANOS_PER_SEC as int {
        ("DAILY"@, days)
    } else if d < 52 * 7 * 86400 * NANOS_PER_SEC as int {
        ("MONTHLY"@, crate::time::trunc_div(days, 30))
    } else {
        ("YEARLY"@, crate::time::trunc_div(days, 7) * 52)
    }
}

/// The rule text written for a recurrence of `d` nanoseconds.
pub open spec fn rule_text(d: int) -> Seq<char> {
    "RRULE:FREQ="@ + rule_parts(d).0 + ";INTERVAL="@ + int_text(rule_parts(d).1)
}

/// The decimal text of `n` is a nonempty run of digits that reads as `n`.
proof fn lemma_nat_text_reads(n: nat)
    ensures
        nat_text(n).len() > 0,
        all_digits(nat_text(n)),
        digits_value(nat_text(n)) == n,
    decreases n,
{
    let d = n % 10;
    assert(is_digit(digit_char(d as int)) && digit_value(digit_char(d as int)) == d) by {
        assert(d == 0 || d == 1 || d == 2 || d == 3 || d == 4 || d == 5 || d == 6 || d == 7 || d
            == 8 || d == 9);
    }
    if n >= 10 {
        let p = nat_text((n / 10) as nat);
        lemma_nat_text_reads((n / 10) as nat);
        let t = nat_text(n);
        assert(t == p.push(digit_char(d as int)));
        assert(t.drop_last() =~= p);
        assert forall|i: int| 0 <= i < t.len() implies is_digit(#[trigger] t[i]) by {
            if i < p.len() {
                assert(t[i] == p[i]);
            }
        }
        assert(digits_value(t) == digits_value(p) * 10 + d);
    } else {
        assert(nat_text(n).drop_last() =~= Seq::<char>::empty());
        assert(digits_value(nat_text(n)) == digits_value(Seq::<char>::empty()) * 10 + d);
    }
}

/// The decimal text of an integer in the range of `i64` reads back as that
/// integer, and holds nothing but digits and a leading `-`.
proof fn lemma_int_text_reads(n: int)
    requires
        i64::MIN <= n <= i64::MAX,
    ensures
        parse_signed(int_text(n), i64::MIN as int, i64::MAX as int) == Some(n),
        forall|i: int|
            0 <= i < int_text(n).len() ==> is_digit(#[trigger] int_text(n)[i]) || int_text(n)[i]
                == '-',
{
    if n < 0 {
        let m = (-n) as nat;
        lemma_nat_text_reads(m);
        assert(int_text(n).drop_first() =~= nat_text(m));
        assert forall|i: int| 0 <= i < int_text(n).len() implies is_digit(
            #[trigger] int_text(n)[i],
        ) || int_text(n)[i] == '-' by {
            if i > 0 {
                assert(int_text(n)[i] == nat_text(m)[i - 1]);
            }
        }
    } else {
        lemma_nat_text_reads(n as nat);
        assert(is_digit(int_text(n)[0]));
    }
}

/// The interval written for a recurrence of `d` nanoseconds fits in an
/// `i64`.
proof fn lemma_rule_interval_fits(d: int)
    requires
        crate::time::duration_in_range(d),
    ensures
        i64::MIN <= rule_parts(d).1 <= i64::MAX,
{
    let secs = crate::time::trunc_div(d, NANOS_PER_SEC as int);
    let days = crate::time::trunc_div(secs, 86400);
    assert(-10_000_000_000_000_000 <= secs <= 10_000_000_000_000_000);
    assert(-1_000_000_000_000 <= days <= 1_000_000_000_000);
    let weeks = crate::time::trunc_div(days, 7);
    assert(-1_000_000_000_000 <= weeks <= 1_000_000_000_000);
    assert(-52_000_000_000_000 <= weeks * 52 <= 52_000_000_000_000);
}

/// What reading a rule text gives, once the text is known to name the
/// frequency `name` and the interval `k`.
pub open spec fn rule_named(name: Seq<char>, k: int) -> Outcome<int> {
    match frequency_named(name) {
        Some(f) => rule_duration(f, k),
        None => Outcome::Fail(SaturnError::InvalidFrequency),
    }
}

/// Reading back the rule text written for a recurrence of `d` nanoseconds
/// gives what the frequency and interval written there give. Where `d` is
/// a whole number of days under 30 days, that is a daily rule, and where
/// it is a whole number of 30-day months from 30 days up to (not
/// including) 52 weeks, a monthly one; either interval gives `d` back.
pub proof fn law_rule_text_reads_back(d: int)
    requires
        crate::time::duration_in_range(d),
    ensures
        rule_recurrence(rule_text(d)) == rule_named(rule_parts(d).0, rule_parts(d).1),
        d % (NANOS_PER_DAY as int) == 0 && d < 30 * NANOS_PER_DAY ==> rule_parts(d).0 == "DAILY"@
            && rule_duration(RuleFrequency::Daily, rule_parts(d).1) == Outcome::Value(d),
        d % (30 * NANOS_PER_DAY as int) == 0 && 30 * NANOS_PER_DAY <= d < 364 * NANOS_PER_DAY
            ==> rule_parts(d).0 == "MONTHLY"@ && rule_duration(
            RuleFrequency::Monthly,
            rule_parts(d).1,
        ) == Outcome::Value(d),
{
    reveal_strlit("RRULE:FREQ=");
    reveal_strlit(";INTERVAL=");
    reveal_strlit("RRULE");
    reveal_strlit("FREQ");
    reveal_strlit("INTERVAL");
    reveal_strlit("DAILY");
    reveal_strlit("MONTHLY");
    reveal_strlit("YEARLY");
    let name = rule_parts(d).0;
    let k = rule_parts(d).1;
    lemma_rule_interval_fits(d);
    lemma_int_text_reads(k);
    let num = int_text(k);
    assert(name == "DAILY"@ || name == "MONTHLY"@ || name == "YEARLY"@);
    assert forall|i: int| 0 <= i < name.len() implies 'A' <= #[trigger] name[i] <= 'Z' by {
        if name == "DAILY"@ {
        } else if name == "MONTHLY"@ {
        } else {
        }
    }
    // The text is `RRULE` `:` `FREQ` `=` name `;` `INTERVAL` `=` number.
    let freq_token = "FREQ"@ + seq!['='] + name;
    let interval_token = "INTERVAL"@ + seq!['='] + num;
    let body = freq_token + seq![';'] + interval_token;
    assert(rule_text(d) =~= "RRULE"@ + seq![':'] + body);
    // Splitting at `:`.
    let colon = seq![':'];
    assert forall|i: int| 0 <= i < "RRULE"@.len() implies !colon.contains(#[trigger] "RRULE"@[i]) by {
        if colon.contains("RRULE"@[i]) {
            assert(colon[0] == ':');
        }
    }
    assert forall|i: int| 0 <= i < body.len() implies !colon.contains(#[trigger] body[i]) by {
        if colon.contains(body[i]) {
            assert(body[i] == ':');
            if i >= freq_token.len() + 1 + 9 {
                assert(body[i] == num[i - freq_token.len() - 10]);
            } else if i > 4 && i < freq_token.len() {
                assert(body[i] == name[i - 5]);
            }
        }
    }
    assert(colon.contains(':')) by {
        assert(colon[0] == ':');
    }
    lemma_split_by_join("RRULE"@, ':', body, colon);
    lemma_split_without_separator("RRULE"@, colon);
    lemma_split_without_separator(body, colon);
    let parts = split_at_char(rule_text(d), ':');
    assert(parts =~= seq!["RRULE"@, body]);
    // Splitting the body at `;`.
    let semi = seq![';'];
    assert(semi.contains(';')) by {
        assert(semi[0] == ';');
    }
    assert forall|i: int| 0 <= i < freq_token.len() implies !semi.contains(#[trigger] freq_token[i]) by {
        if semi.contains(freq_token[i]) {
            assert(freq_token[i] == ';');
            if i > 4 {
                assert(freq_token[i] == name[i - 5]);
            }
        }
    }
    assert forall|i: int| 0 <= i < interval_token.len() implies !semi.contains(
        #[trigger] interval_token[i],
    ) by {
        if semi.contains(interval_token[i]) {
            assert(interval_token[i] == ';');
            if i > 8 {
                assert(interval_token[i] == num[i - 9]);
            }
        }
    }
    lemma_split_by_join(freq_token, ';', interval_token, semi);
    lemma_split_without_separator(freq_token, semi);
    lemma_split_without_separator(interval_token, semi);
    let tokens = split_at_char(body, ';');
    assert(tokens =~= seq![freq_token, interval_token]);
    // Splitting each token at `=`.
    let eq = seq!['='];
    assert(eq.contains('=')) by {
        assert(eq[0] == '=');
    }
    assert forall|i: int| 0 <= i < "FREQ"@.len() implies !eq.contains(#[trigger] "FREQ"@[i]) by {
        if eq.contains("FREQ"@[i]) {
            assert(eq[0] == '=');
        }
    }
    assert forall|i: int| 0 <= i < name.len() implies !eq.contains(#[trigger] name[i]) by {
        if eq.contains(name[i]) {
            assert(eq[0] == '=');
        }
    }
    assert forall|i: int| 0 <= i < "INTERVAL"@.len() implies !eq.contains(
        #[trigger] "INTERVAL"@[i],
    ) by {
        if eq.contains("INTERVAL"@[i]) {
            assert(eq[0] == '=');
        }
    }
    assert forall|i: int| 0 <= i < num.len() implies !eq.contains(#[trigger] num[i]) by {
        if eq.contains(num[i]) {
            assert(eq[0] == '=');
        }
    }
    lemma_split_by_join("FREQ"@, '=', name, eq);
    lemma_split_without_separator("FREQ"@, eq);
    lemma_split_without_separator(name, eq);
    assert(split_at_char(freq_token, '=') =~= seq!["FREQ"@, name]);
    lemma_split_by_join("INTERVAL"@, '=', num, eq);
    lemma_split_without_separator("INTERVAL"@, eq);
    lemma_split_without_separator(num, eq);
    assert(split_at_char(interval_token, '=') =~= seq!["INTERVAL"@, num]);
    assert("INTERVAL"@ != "FREQ"@);
    // The scan reads the frequency, then the interval.
    match frequency_named(name) {
        Some(f) => {
            assert(rule_token_step(freq_token, None, None) == Outcome::Value(
                (Some(f), None::<int>),
            ));
            assert(rule_token_step(interval_token, Some(f), None) == Outcome::Value(
                (Some(f), Some(k)),
            ));
            assert(rule_scan(tokens, 1, Some(f), None) == Outcome::Value((Some(f), Some(k))));
        },
        None => {
            assert(rule_token_step(freq_token, None, None) == Outcome::<
                (Option<RuleFrequency>, Option<int>),
            >::Fail(SaturnError::InvalidFrequency));
        },
    }
    // The intervals of daily and monthly rules.
    let secs = crate::time::trunc_div(d, NANOS_PER_SEC as int);
    let days = crate::time::trunc_div(secs, 86400);
    if d % (NANOS_PER_DAY as int) == 0 && d < 30 * NANOS_PER_DAY {
        let m = d / (NANOS_PER_DAY as int);
        assert(d == m * 86400 * 1_000_000_000);
        if d >= 0 {
            assert(secs == m * 86400);
        } else {
            assert(secs == m * 86400);
        }
        assert(days == m);
    }
    if d % (30 * NANOS_PER_DAY as int) == 0 && 30 * NANOS_PER_DAY <= d < 364 * NANOS_PER_DAY {
        let j = d / (30 * NANOS_PER_DAY as int);
        assert(d == j * 30 * 86400 * 1_000_000_000);
        assert(secs == j * 30 * 86400);
        assert(days == j * 30);
        assert(crate::time::trunc_div(days, 30) == j);
    }
}

/// A daily rule of `n` days under 30, or a monthly rule of `n` months whose
/// 30-day months come to less than 52 weeks, reads as a recurrence whose
/// rule text is that rule again.
pub proof fn law_rule_reads_and_writes_back(name: Seq<char>, n: int)
    requires
        (name == "DAILY"@ && 1 <= n < 30) || (name == "MONTHLY"@ && 1 <= n && 30 * n < 364),
    ensures
        ({
            let text = "RRULE:FREQ="@ + name + ";INTERVAL="@ + int_text(n);
            rule_recurrence(text) matches Outcome::Value(d) && rule_text(d) == text
        }),
{
    reveal_strlit("DAILY");
    reveal_strlit("MONTHLY");
    reveal_strlit("daily");
    reveal_strlit("monthly");
    reveal_strlit("yearly");
    reveal_strlit("weekly");
    let day = NANOS_PER_DAY as int;
    let d = if name == "DAILY"@ {
        n * day
    } else {
        n * 30 * day
    };
    assert(crate::time::duration_in_range(d));
    law_rule_text_reads_back(d);
    if name == "DAILY"@ {
        assert(d % day == 0) by (nonlinear_arith)
            requires
                d == n * day,
                day > 0,
        ;
        assert(rule_parts(d).0 == "DAILY"@);
        assert(rule_parts(d).1 * 86400 * NANOS_PER_SEC == d);
        assert(rule_parts(d).1 == n);
        assert(ascii_lowercase(name) =~= "daily"@);
        assert(frequency_named(name) == Some(RuleFrequency::Daily));
    } else {
        assert(d == n * (30 * day)) by (nonlinear_arith)
            requires
                d == n * 30 * day,
        ;
        vstd::arithmetic::div_mod::lemma_mod_multiples_basic(n, 30 * day);
        assert(rule_parts(d).0 == "MONTHLY"@);
        assert(rule_parts(d).1 * 86400 * NANOS_PER_SEC * 30 == d);
        assert(rule_parts(d).1 == n);
        assert(ascii_lowercase(name) =~= "monthly"@);
        assert(frequency_named(name) == Some(RuleFrequency::Monthly));
    }
    assert(rule_text(d) =~= "RRULE:FREQ="@ + name + ";INTERVAL="@ + int_text(n));
}

impl RecurringRecord {
    /// `record` repeated every `recurrence`, with no keys assigned.
    pub fn new(record: Record, recurrence: Duration) -> (res: RecurringRecord)
        ensures
            res@ == (RecurringView {
                record: record@,
                recurrence: recurrence@,
                recurrence_key: 0,
                internal_key: None,
            }),
    {
        RecurringRecord { record, recurrence, recurrence_key: 0, internal_key: None }
    }

    /// A recurrence made of the given parts, as stored.
    pub fn from_parts(
        record: Record,
        recurrence: Duration,
        recurrence_key: u64,
        internal_key: Option<String>,
    ) -> (res: RecurringRecord)
        ensures
            res@ == (RecurringView {
                record: record@,
                recurrence: recurrence@,
                recurrence_key: recurrence_key,
                internal_key: opt_str(internal_key),
            }),
    {
        RecurringRecord { record, recurrence, recurrence_key, internal_key }
    }

    /// `record` repeated as the rule text `rrule` says.
    pub fn from_rrule(record: Record, rrule: String) -> (res: Result<RecurringRecord, SaturnError>)
        requires
            !(rule_recurrence(rrule@) is Halt),
        ensures
            match rule_recurrence(rrule@) {
                Outcome::Value(n) => res matches Ok(r) && r@ == (RecurringView {
                    record: record@,
                    recurrence: n,
                    recurrence_key: 0,
                    internal_key: None,
                }),
                Outcome::Fail(e) => res == Err::<RecurringRecord, SaturnError>(e),
                Outcome::Halt => false,
            },
    {
        match read_rrule(record, &rrule) {
            Outcome::Value(r) => Ok(r),
            Outcome::Fail(e) => Err(e),
            Outcome::Halt => Err(SaturnError::RecurrenceUnparsable),
        }
    }

    /// The rule text for this recurrence.
    pub fn to_rrule(&self) -> (res: String)
        ensures
            res@ == rule_text(self@.recurrence),
    {
        let recur = self.recurrence;
        let days30 = Duration::try_days(30).unwrap();
        let weeks52 = Duration::try_weeks(52).unwrap();
        let (name, count): (&str, i64) = if recur.lt(&days30) {
            ("DAILY", recur.num_days())
        } else if recur.lt(&weeks52) {
            ("MONTHLY", recur.num_days() / 30)
        } else {
            ("YEARLY", recur.num_weeks() * 52)
        };
        let mut v = to_chars("RRULE:FREQ=");
        let n = to_chars(name);
        push_all(&mut v, n.as_slice());
        let mid = to_chars(";INTERVAL=");
        push_all(&mut v, mid.as_slice());
        let c = format_i64(count);
        push_all(&mut v, c.as_slice());
        from_chars(v.as_slice())
    }

    /// The repeated record, for changing in place.
    pub fn record(&mut self) -> (ret: &mut Record)
        ensures
            ret@ == old(self)@.record,
            final(self)@ == (RecurringView { record: final(ret)@, ..old(self)@ }),
    {
        &mut self.record
    }

    /// A copy of the repeated record.
    pub fn record_copy(&self) -> (res: Record)
        ensures
            res@ == self@.record,
    {
        self.record.duplicate()
    }

    pub fn recurrence(&self) -> (res: Duration)
        ensures
            res@ == self@.recurrence,
    {
        self.recurrence
    }

    pub fn recurrence_key(&self) -> (res: u64)
        ensures
            res == self@.recurrence_key,
    {
        self.recurrence_key
    }

    pub fn set_record(&mut self, record: Record)
        ensures
            final(self)@ == (RecurringView { record: record@, ..old(self)@ }),
    {
        self.record = record;
    }

    /// Sets the recurrence key, on the recurrence and on its record.
    pub fn set_recurrence_key(&mut self, key: u64)
        ensures
            final(self)@ == (RecurringView {
                recurrence_key: key,
                record: RecordView { recurrence_key: Some(key), ..old(self)@.record },
                ..old(self)@
            }),
    {
        self.recurrence_key = key;
        self.record.set_recurrence_key(Some(key));
    }

    pub fn internal_key(&self) -> (res: Option<String>)
        ensures
            opt_str(res) == self@.internal_key,
    {
        clone_opt_string(&self.internal_key)
    }

    /// Sets the remote key, on the recurrence and as its record's remote
    /// recurrence key.
    pub fn set_internal_key(&mut self, key: Option<String>)
        ensures
            final(self)@ == (RecurringView {
                internal_key: opt_str(key),
                record: RecordView { internal_recurrence_key: opt_str(key), ..old(self)@.record },
                ..old(self)@
            }),
    {
        let copy = clone_opt_string(&key);
        self.internal_key = key;
        self.record.set_internal_recurrence_key(copy);
    }

    /// An equal recurring record.
    pub fn duplicate(&self) -> (res: RecurringRecord)
        ensures
            res@ == self@,
    {
        RecurringRecord {
            record: self.record.duplicate(),
            recurrence: self.recurrence,
            recurrence_key: self.recurrence_key,
            internal_key: clone_opt_string(&self.internal_key),
        }
    }

    /// The occurrence of this recurrence that starts at `from`, under the
    /// primary key `primary_key`.
    pub fn record_from(&self, primary_key: u64, from: DateTime) -> (res: Record)
        requires
            self@.record.typ == RecordType::Schedule ==> self@.record.scheduled is Some,
        ensures
            res@ == occurrence_at(self@, primary_key, from.date, from.time@),
            res@.well_typed(),
    {
        let mut record = self.record.duplicate();
        record.set_primary_key(primary_key);
        record.set_recurrence_key(Some(self.recurrence_key));
        record.set_internal_recurrence_key(clone_opt_string(&self.internal_key));
        record.set_date(from.date);
        match record.record_type() {
            RecordType::At => {
                record.set_at(Some(from.time));
            },
            RecordType::AllDay => {},
            RecordType::Schedule => {
                let schedule = record.scheduled().unwrap();
                let duration = schedule.1.since(&schedule.0);
                record.set_scheduled(Some((from.time, from.time.add_duration(&duration))));
            },
        }
        record
    }
}

/// The occurrence of the recurrence `r` that starts at time of day `t` on
/// `date`, under the primary key `pk`.
pub open spec fn occurrence_at(r: RecurringView, pk: u64, date: Date, t: int) -> RecordView {
    let base = RecordView {
        primary_key: pk,
        recurrence_key: Some(r.recurrence_key),
        internal_recurrence_key: r.internal_key,
        date: date,
        ..r.record
    };
    match r.record.typ {
        RecordType::At => base.made_at(Some(t)),
        RecordType::AllDay => base,
        RecordType::Schedule => {
            let s = r.record.scheduled.unwrap();
            base.made_scheduled(Some((t, (t + (s.1 - s.0)) % (NANOS_PER_DAY as int))))
        },
    }
}

/// A recurring record as the user edits it.
#[derive(Debug, PartialEq, Eq)]
pub struct PresentedRecurringRecord {
    pub record: PresentedRecord,
    pub recurrence: Duration,
}

impl PresentedRecurringRecord {
    /// The presented form of `value`.
    pub fn from_recurring(value: RecurringRecord) -> (res: PresentedRecurringRecord)
        ensures
            res.record.date == value@.record.date,
            res.record.typ == value@.record.typ,
            opt_time(res.record.at) == value@.record.at,
            opt_presented(res.record.scheduled) == value@.record.scheduled,
            res.record.detail@ == value@.record.detail,
            res.record.fields@ == value@.record.fields,
            opt_durations(res.record.notifications) == value@.record.notifications,
            res.record.completed == value@.record.completed,
            res.recurrence@ == value@.recurrence,
    {
        PresentedRecurringRecord {
            record: PresentedRecord::from_record(value.record),
            recurrence: value.recurrence,
        }
    }

    /// The recurring record this presents, under the given keys.
    pub fn to_record(
        self,
        primary_key: u64,
        recurrence_key: u64,
        internal_key: Option<String>,
        internal_recurrence_key: Option<String>,
    ) -> (res: RecurringRecord)
        ensures
            res@ == (RecurringView {
                internal_key: opt_str(internal_key),
                recurrence_key: recurrence_key,
                record: RecordView {
                    primary_key: primary_key,
                    recurrence_key: Some(recurrence_key),
                    internal_key: opt_str(internal_key),
                    internal_recurrence_key: opt_str(internal_recurrence_key),
                    date: self.record.date,
                    typ: self.record.typ,
                    at: opt_time(self.record.at),
                    scheduled: opt_presented(self.record.scheduled),
                    detail: self.record.detail@,
                    fields: self.record.fields@,
                    notifications: opt_durations(self.record.notifications),
                    completed: self.record.completed,
                },
                recurrence: self.recurrence@,
            }),
    {
        let copy = clone_opt_string(&internal_key);
        RecurringRecord {
            internal_key: copy,
            recurrence_key,
            record: self.record.to_record(
                primary_key,
                Some(recurrence_key),
                internal_key,
                internal_recurrence_key,
            ),
            recurrence: self.recurrence,
        }
    }
}

// ------------------------------------------------------------------------
// Ordering
// ------------------------------------------------------------------------

/// Compares two integers.
pub open spec fn compare_ints(a: int, b: int) -> Ordering {
    if a < b {
        Ordering::Less
    } else if a == b {
        Ordering::Equal
    } else {
        Ordering::Greater
    }
}

/// Compares two dates in calendar order.
pub open spec fn compare_dates(a: Date, b: Date) -> Ordering {
    if a.before(b) {
        Ordering::Less
    } else if a == b {
        Ordering::Equal
    } else {
        Ordering::Greater
    }
}

/// Compares two unsigned keys.
pub open spec fn compare_keys(a: u64, b: u64) -> Ordering {
    if a < b {
        Ordering::Less
    } else if a == b {
        Ordering::Equal
    } else {
        Ordering::Greater
    }
}

/// The order in which records are listed: by date, then within a day by
/// how the first record is placed.
pub open spec fn record_order(a: RecordView, b: RecordView) -> Ordering {
    let c = compare_dates(a.date, b.date);
    if c != Ordering::Equal {
        c
    } else {
        match a.typ {
            RecordType::At => match a.at {
                Some(x) => match b.at {
                    Some(y) => compare_ints(x, y),
                    None => match b.scheduled {
                        Some(s) => compare_ints(x, s.0),
                        None => Ordering::Equal,
                    },
                },
                None => Ordering::Equal,
            },
            RecordType::AllDay => if b.typ == RecordType::AllDay {
                compare_keys(a.primary_key, b.primary_key)
            } else {
                Ordering::Less
            },
            RecordType::Schedule => match a.scheduled {
                Some(s) => match b.scheduled {
                    Some(t) => compare_ints(s.0, t.0),
                    None => match b.at {
                        Some(y) => compare_ints(s.0, y),
                        None => Ordering::Equal,
                    },
                },
                None => Ordering::Equal,
            },
        }
    }
}

fn compare_times(a: &Time, b: &Time) -> (res: Ordering)
    ensures
        res == compare_ints(a@, b@),
{
    if a.is_before(b) {
        Ordering::Less
    } else if a.same_time(b) {
        Ordering::Equal
    } else {
        Ordering::Greater
    }
}

/// Orders two records for listing.
pub fn sort_records(a: &Record, b: &Record) -> (res: Ordering)
    ensures
        res == record_order(a@, b@),
{
    let ad = a.date();
    let bd = b.date();
    if ad.is_before(&bd) {
        return Ordering::Less;
    }
    if !ad.same_day(&bd) {
        return Ordering::Greater;
    }
    match a.record_type() {
        RecordType::At => match a.at() {
            Some(x) => match b.at() {
                Some(y) => compare_times(&x, &y),
                None => match b.scheduled() {
                    Some(s) => compare_times(&x, &s.0),
                    None => Ordering::Equal,
                },
            },
            None => Ordering::Equal,
        },
        RecordType::AllDay => if b.record_type() == RecordType::AllDay {
            let x = a.primary_key();
            let y = b.primary_key();
            if x < y {
                Ordering::Less
            } else if x == y {
                Ordering::Equal
            } else {
                Ordering::Greater
            }
        } else {
            Ordering::Less
        },
        RecordType::Schedule => match a.scheduled() {
            Some(s) => match b.scheduled() {
                Some(t) => compare_times(&s.0, &t.0),
                None => match b.at() {
                    Some(y) => compare_times(&s.0, &y),
                    None => Ordering::Equal,
                },
            },
            None => Ordering::Equal,
        },
    }
}

} // verus!
