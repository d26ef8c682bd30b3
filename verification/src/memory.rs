//! The local calendar database: records and recurrences kept by key.

use crate::entry::{entry_outcome, EntryParser, EntryRecord, EntryView};
use crate::error::{Outcome, SaturnError};
use crate::record::{
    occurrence_at, opt_durations, Record, RecordType, RecordView, RecurringRecord, RecurringView,
};
use crate::table::{entries_map, keys_sorted, lemma_entries_mapped, lemma_sorted_distinct, KeyTable};
use crate::time::{date_le, lemma_shift_later, plus_days_in_range, Date, DateTime, Duration, Time, NANOS_PER_DAY, NANOS_PER_SEC};
use vstd::prelude::*;

verus! {

/// The abstract content of the local database: the last keys handed out,
/// and the records and recurrences in increasing key order.
pub struct MemoryView {
    pub primary_key: u64,
    pub recurrence_key: u64,
    pub records: Seq<(u64, RecordView)>,
    pub recurring: Seq<(u64, RecurringView)>,
}

impl MemoryView {
    /// The records by key.
    pub open spec fn record_map(self) -> Map<u64, RecordView> {
        entries_map(self.records)
    }

    /// The recurrences by key.
    pub open spec fn recurring_map(self) -> Map<u64, RecurringView> {
        entries_map(self.recurring)
    }

    /// Whether both tables are in strictly increasing key order.
    pub open spec fn wf(self) -> bool {
        keys_sorted(self.records) && keys_sorted(self.recurring)
    }
}

/// Record entries by their views.
pub open spec fn record_pairs(s: Seq<(u64, Record)>) -> Seq<(u64, RecordView)> {
    s.map_values(|p: (u64, Record)| (p.0, p.1@))
}

/// Recurrence entries by their views.
pub open spec fn recurring_pairs(s: Seq<(u64, RecurringRecord)>) -> Seq<(u64, RecurringView)> {
    s.map_values(|p: (u64, RecurringRecord)| (p.0, p.1@))
}

/// Whether `r` is listed: completed records only when asked for.
pub open spec fn shown(r: RecordView, include_completed: bool) -> bool {
    include_completed || !r.completed
}

/// The records among the first `n` entries of `s` that are listed, in
/// key order.
pub open spec fn listed(s: Seq<(u64, RecordView)>, include_completed: bool, n: int) -> Seq<
    RecordView,
>
    decreases n,
{
    if n <= 0 {
        Seq::empty()
    } else {
        let prev = listed(s, include_completed, n - 1);
        if shown(s[n - 1].1, include_completed) {
            prev.push(s[n - 1].1)
        } else {
            prev
        }
    }
}

/// The records on the date `day` among the first `n` entries of `s` that
/// are listed, in key order.
pub open spec fn listed_on(
    s: Seq<(u64, RecordView)>,
    include_completed: bool,
    day: Date,
    n: int,
) -> Seq<RecordView>
    decreases n,
{
    if n <= 0 {
        Seq::empty()
    } else {
        let prev = listed_on(s, include_completed, day, n - 1);
        if s[n - 1].1.date == day && shown(s[n - 1].1, include_completed) {
            prev.push(s[n - 1].1)
        } else {
            prev
        }
    }
}

/// The first record from entry `i` on whose primary key is `pk`.
pub open spec fn find_primary(s: Seq<(u64, RecordView)>, pk: u64, i: int) -> Option<RecordView>
    decreases s.len() - i,
{
    if i < 0 || i >= s.len() {
        None
    } else if s[i].1.primary_key == pk {
        Some(s[i].1)
    } else {
        find_primary(s, pk, i + 1)
    }
}

/// `r` marked completed when its primary key is `pk`.
pub open spec fn completed_if(r: RecordView, pk: u64) -> RecordView {
    if r.primary_key == pk {
        RecordView { completed: true, ..r }
    } else {
        r
    }
}

/// The views of a list of records.
pub open spec fn record_list(v: Seq<Record>) -> Seq<RecordView> {
    v.map_values(|r: Record| r@)
}

/// The views of a list of recurrences.
pub open spec fn recurring_list(v: Seq<RecurringRecord>) -> Seq<RecurringView> {
    v.map_values(|r: RecurringRecord| r@)
}

// ------------------------------------------------------------------------
// Filling in the occurrences of recurrences
// ------------------------------------------------------------------------

/// The record keys and records while occurrences are filled in.
pub struct FillState {
    pub primary_key: u64,
    pub records: Map<u64, RecordView>,
}

/// Whether a record of `snap` with the recurrence key `rk` starts at the
/// moment `(date, t)`; the program stops if a record with that recurrence
/// key has a missing placement.
pub open spec fn snapshot_check(snap: Seq<RecordView>, rk: u64, date: Date, t: int) -> Outcome<bool> {
    if exists|i: int|
        0 <= i < snap.len() && #[trigger] snap[i].recurrence_key == Some(rk)
            && !snap[i].well_typed() {
        Outcome::Halt
    } else {
        Outcome::Value(
            exists|i: int|
                0 <= i < snap.len() && #[trigger] snap[i].recurrence_key == Some(rk) && snap[i].date
                    == date && snap[i].start_time() == t,
        )
    }
}

/// Fills in the occurrences of `r` from the moment `(date, t)` up to the
/// day `last`: each occurrence that is not among the records `snap` is
/// added under the next primary key. The program stops when `r` does not
/// move forward in time or leaves the representable days.
pub open spec fn fill_from(
    st: FillState,
    r: RecurringView,
    snap: Seq<RecordView>,
    last: Date,
    date: Date,
    t: int,
) -> Outcome<FillState>
    decreases last.year - date.year, 12 - date.month, 31 - date.day, NANOS_PER_DAY - t,
{
    if !date_le(date, last) || !date.valid() || !(0 <= t < NANOS_PER_DAY) {
        Outcome::Value(st)
    } else {
        match snapshot_check(snap, r.recurrence_key, date, t) {
            Outcome::Value(found) => {
                if !found && st.primary_key == u64::MAX {
                    Outcome::Halt
                } else {
                    let st2 = if found {
                        st
                    } else {
                        let k = (st.primary_key + 1) as u64;
                        FillState {
                            primary_key: k,
                            records: st.records.insert(k, occurrence_at(r, k, date, t)),
                        }
                    };
                    if r.recurrence <= 0 {
                        Outcome::Halt
                    } else {
                        let n = (t + r.recurrence) / (NANOS_PER_DAY as int);
                        if !plus_days_in_range(date, n) {
                            Outcome::Halt
                        } else {
                            let date2 = date.plus_days(n);
                            let t2 = (t + r.recurrence) % (NANOS_PER_DAY as int);
                            if date_le(date2, last) {
                                proof {
                                    lemma_shift_later(date, t, r.recurrence);
                                    crate::time::lemma_plus_days_valid(date, n);
                                }
                                fill_from(st2, r, snap, last, date2, t2)
                            } else {
                                Outcome::Value(st2)
                            }
                        }
                    }
                }
            },
            _ => Outcome::Halt,
        }
    }
}

/// Fills in the occurrences of `r` up to the day after `today`, starting
/// at the record's own moment.
pub open spec fn fill_recurrence(st: FillState, r: RecurringView, snap: Seq<RecordView>, today: Date) -> Outcome<FillState> {
    if !r.record.well_typed() || today.is_max() {
        Outcome::Halt
    } else {
        fill_from(st, r, snap, today.next_day(), r.record.date, r.record.start_time())
    }
}

/// Fills in the occurrences of the first `n` recurrences of `recs`, in
/// order, against the records `snap` as they were before.
pub open spec fn fill_all(
    st: FillState,
    recs: Seq<RecurringView>,
    snap: Seq<RecordView>,
    today: Date,
    n: int,
) -> Outcome<FillState>
    decreases n,
{
    if n <= 0 {
        Outcome::Value(st)
    } else {
        match fill_all(st, recs, snap, today, n - 1) {
            Outcome::Value(s) => fill_recurrence(s, recs[n - 1], snap, today),
            other => other,
        }
    }
}

/// The record keys and records after the occurrences of every recurrence
/// up to the day after `today` are filled in.
pub open spec fn recurrence_update(db: MemoryView, today: Date) -> Outcome<FillState> {
    fill_all(
        FillState { primary_key: db.primary_key, records: db.record_map() },
        db.recurring.map_values(|p: (u64, RecurringView)| p.1),
        db.records.map_values(|p: (u64, RecordView)| p.1),
        today,
        db.recurring.len() as int,
    )
}

/// Once filling in has stopped, later recurrences change nothing.
pub proof fn lemma_fill_stays_ended(
    st: FillState,
    recs: Seq<RecurringView>,
    snap: Seq<RecordView>,
    today: Date,
    i: int,
    n: int,
)
    requires
        0 <= i <= n,
        !(fill_all(st, recs, snap, today, i) is Value),
    ensures
        fill_all(st, recs, snap, today, n) == fill_all(st, recs, snap, today, i),
    decreases n - i,
{
    if n > i {
        lemma_fill_stays_ended(st, recs, snap, today, i, n - 1);
    }
}

/// Whether every key that `st` holds is at most its last key handed out.
spec fn keys_handed_out(st: FillState) -> bool {
    forall|k: u64| #[trigger] st.records.contains_key(k) ==> k <= st.primary_key
}

/// Whether filling in takes a step at the moment `(date, t)` before the
/// day `last` is passed.
spec fn fill_steps(last: Date, date: Date, t: int) -> bool {
    date_le(date, last) && date.valid() && 0 <= t < NANOS_PER_DAY
}

/// Whether `x` is the occurrence of the recurrence key `rk` at `(d, t)`.
spec fn at_moment(x: RecordView, rk: u64, d: Date, t: int) -> bool {
    x.recurrence_key == Some(rk) && x.date == d && x.start_time() == t
}

/// Whether `m` holds the occurrence of the recurrence key `rk` at `(d, t)`.
spec fn holds_at(m: Map<u64, RecordView>, rk: u64, d: Date, t: int) -> bool {
    exists|k: u64| #[trigger] m.contains_key(k) && at_moment(m[k], rk, d, t)
}

/// Whether every record of `snap` with the recurrence key `rk` has the
/// placement its type asks for.
spec fn typed_for(snap: Seq<RecordView>, rk: u64) -> bool {
    forall|i: int|
        0 <= i < snap.len() && #[trigger] snap[i].recurrence_key == Some(rk) ==> snap[i].well_typed()
}

/// Whether `m` keeps every record of `base` under its key, and the records
/// it holds beyond them are well-typed.
spec fn keeps_and_types(base: Map<u64, RecordView>, m: Map<u64, RecordView>) -> bool {
    &&& forall|k: u64| #[trigger]
        base.contains_key(k) ==> m.contains_key(k) && m[k] == base[k]
    &&& forall|k: u64| #[trigger]
        m.contains_key(k) && !base.contains_key(k) ==> m[k].well_typed()
}

/// Whether `snap` holds the records of the table `tbl`, each of which `m`
/// holds under its key.
spec fn held_by(snap: Seq<RecordView>, tbl: Seq<(u64, RecordView)>, m: Map<u64, RecordView>) -> bool {
    &&& snap.len() == tbl.len()
    &&& forall|x: int|
        0 <= x < tbl.len() ==> #[trigger] snap[x] == tbl[x].1 && m.contains_key(tbl[x].0)
            && m[tbl[x].0] == tbl[x].1
}

/// Whether every record that `m` holds is among `snap`.
spec fn listed_in(m: Map<u64, RecordView>, snap: Seq<RecordView>) -> bool {
    forall|k: u64| #[trigger]
        m.contains_key(k) ==> exists|x: int| 0 <= x < snap.len() && snap[x] == m[k]
}

/// Whether `m` holds every occurrence of `r` that filling in visits from
/// the moment `(date, t)` up to the day `last`.
spec fn covered(r: RecurringView, m: Map<u64, RecordView>, last: Date, date: Date, t: int) -> bool
    decreases last.year - date.year, 12 - date.month, 31 - date.day, NANOS_PER_DAY - t,
{
    if !fill_steps(last, date, t) {
        true
    } else {
        &&& holds_at(m, r.recurrence_key, date, t)
        &&& if r.recurrence <= 0 {
            true
        } else {
            let n = (t + r.recurrence) / (NANOS_PER_DAY as int);
            if !plus_days_in_range(date, n) {
                true
            } else {
                let date2 = date.plus_days(n);
                let t2 = (t + r.recurrence) % (NANOS_PER_DAY as int);
                if date_le(date2, last) {
                    proof {
                        lemma_shift_later(date, t, r.recurrence);
                        crate::time::lemma_plus_days_valid(date, n);
                    }
                    covered(r, m, last, date2, t2)
                } else {
                    true
                }
            }
        }
    }
}

/// What `m` covers, a map that keeps all of `m` covers too.
proof fn lemma_covered_kept(
    r: RecurringView,
    m: Map<u64, RecordView>,
    m2: Map<u64, RecordView>,
    last: Date,
    date: Date,
    t: int,
)
    requires
        covered(r, m, last, date, t),
        forall|k: u64| #[trigger] m.contains_key(k) ==> m2.contains_key(k) && m2[k] == m[k],
    ensures
        covered(r, m2, last, date, t),
    decreases last.year - date.year, 12 - date.month, 31 - date.day, NANOS_PER_DAY - t,
{
    if fill_steps(last, date, t) {
        let k = choose|k: u64| #[trigger] m.contains_key(k) && at_moment(m[k], r.recurrence_key, date, t);
        assert(m2.contains_key(k));
        if r.recurrence > 0 {
            let n = (t + r.recurrence) / (NANOS_PER_DAY as int);
            if plus_days_in_range(date, n) {
                let date2 = date.plus_days(n);
                let t2 = (t + r.recurrence) % (NANOS_PER_DAY as int);
                if date_le(date2, last) {
                    lemma_shift_later(date, t, r.recurrence);
                    crate::time::lemma_plus_days_valid(date, n);
                    lemma_covered_kept(r, m, m2, last, date2, t2);
                }
            }
        }
    }
}

/// Filling in from a state whose keys were all handed out, and which holds
/// every record of `snap`, keeps every record, adds only well-typed ones
/// under fresh keys, leaves the keys handed out, and then holds every
/// occurrence it visits; where it takes a step, the records of `snap` with
/// that recurrence key are well-typed.
proof fn lemma_fill_from_grows(
    st: FillState,
    r: RecurringView,
    snap: Seq<RecordView>,
    tbl: Seq<(u64, RecordView)>,
    last: Date,
    date: Date,
    t: int,
)
    requires
        fill_from(st, r, snap, last, date, t) is Value,
        keys_handed_out(st),
        held_by(snap, tbl, st.records),
        r.record.typ == RecordType::AllDay ==> t == 0 && r.recurrence % (NANOS_PER_DAY as int) == 0,
    ensures
        keys_handed_out(fill_from(st, r, snap, last, date, t)->Value_0),
        keeps_and_types(st.records, fill_from(st, r, snap, last, date, t)->Value_0.records),
        covered(r, fill_from(st, r, snap, last, date, t)->Value_0.records, last, date, t),
        fill_steps(last, date, t) ==> typed_for(snap, r.recurrence_key),
    decreases last.year - date.year, 12 - date.month, 31 - date.day, NANOS_PER_DAY - t,
{
    let res = fill_from(st, r, snap, last, date, t)->Value_0;
    if fill_steps(last, date, t) {
        let found = snapshot_check(snap, r.recurrence_key, date, t)->Value_0;
        assert(typed_for(snap, r.recurrence_key));
        let st2 = if found {
            st
        } else {
            let k = (st.primary_key + 1) as u64;
            FillState { primary_key: k, records: st.records.insert(k, occurrence_at(r, k, date, t)) }
        };
        assert(keys_handed_out(st2));
        assert(keeps_and_types(st.records, st2.records));
        assert(holds_at(st2.records, r.recurrence_key, date, t)) by {
            if found {
                let x = choose|x: int|
                    0 <= x < snap.len() && #[trigger] snap[x].recurrence_key == Some(r.recurrence_key)
                        && snap[x].date == date && snap[x].start_time() == t;
                let k = tbl[x].0;
                assert(snap[x] == tbl[x].1);
                assert(st2.records.contains_key(k) && st2.records[k] == snap[x]);
            } else {
                let k = (st.primary_key + 1) as u64;
                assert(st2.records.contains_key(k));
                assert(at_moment(st2.records[k], r.recurrence_key, date, t));
            }
        }
        assert forall|x: int|
            0 <= x < tbl.len() implies #[trigger] snap[x] == tbl[x].1 && st2.records.contains_key(
                tbl[x].0,
            ) && st2.records[tbl[x].0] == tbl[x].1 by {
            assert(snap[x] == tbl[x].1);
        }
        assert(held_by(snap, tbl, st2.records));
        let n = (t + r.recurrence) / (NANOS_PER_DAY as int);
        let date2 = date.plus_days(n);
        let t2 = (t + r.recurrence) % (NANOS_PER_DAY as int);
        if date_le(date2, last) {
            lemma_shift_later(date, t, r.recurrence);
            crate::time::lemma_plus_days_valid(date, n);
            lemma_fill_from_grows(st2, r, snap, tbl, last, date2, t2);
            assert(res == fill_from(st2, r, snap, last, date2, t2)->Value_0);
            let k = choose|k: u64| #[trigger]
                st2.records.contains_key(k) && at_moment(st2.records[k], r.recurrence_key, date, t);
            assert(res.records.contains_key(k));
            assert(keeps_and_types(st.records, res.records)) by {
                assert forall|k: u64| #[trigger]
                    res.records.contains_key(k) && !st.records.contains_key(k) implies res.records[k].well_typed() by {
                    if st2.records.contains_key(k) {
                        assert(res.records[k] == st2.records[k]);
                    }
                }
            }
        } else {
            assert(res == st2);
        }
    } else {
        assert(res == st);
    }
}

/// Filling in again changes nothing, where the first fill went through,
/// `m` holds every occurrence that it visits and `snap1` holds every record
/// of `m`, with only well-typed records of that recurrence key.
proof fn lemma_fill_from_settled(
    st: FillState,
    st1: FillState,
    r: RecurringView,
    snap: Seq<RecordView>,
    snap1: Seq<RecordView>,
    m: Map<u64, RecordView>,
    last: Date,
    date: Date,
    t: int,
)
    requires
        fill_from(st, r, snap, last, date, t) is Value,
        fill_steps(last, date, t) ==> typed_for(snap1, r.recurrence_key),
        covered(r, m, last, date, t),
        listed_in(m, snap1),
    ensures
        fill_from(st1, r, snap1, last, date, t) == Outcome::Value(st1),
    decreases last.year - date.year, 12 - date.month, 31 - date.day, NANOS_PER_DAY - t,
{
    if fill_steps(last, date, t) {
        let found = snapshot_check(snap, r.recurrence_key, date, t)->Value_0;
        let st2 = if found {
            st
        } else {
            let k = (st.primary_key + 1) as u64;
            FillState { primary_key: k, records: st.records.insert(k, occurrence_at(r, k, date, t)) }
        };
        let k = choose|k: u64| #[trigger] m.contains_key(k) && at_moment(m[k], r.recurrence_key, date, t);
        let x = choose|x: int| 0 <= x < snap1.len() && snap1[x] == m[k];
        assert(snap1[x].recurrence_key == Some(r.recurrence_key));
        assert(snapshot_check(snap1, r.recurrence_key, date, t) == Outcome::Value(true));
        let n = (t + r.recurrence) / (NANOS_PER_DAY as int);
        let date2 = date.plus_days(n);
        let t2 = (t + r.recurrence) % (NANOS_PER_DAY as int);
        if date_le(date2, last) {
            lemma_shift_later(date, t, r.recurrence);
            crate::time::lemma_plus_days_valid(date, n);
            lemma_fill_from_settled(st2, st1, r, snap, snap1, m, last, date2, t2);
        }
    }
}

/// What the first `i` recurrences of a fill that went through leave: every
/// record kept, only well-typed ones added, keys handed out, every
/// occurrence they visit held, and for each recurrence that takes a step,
/// only well-typed records with its key in `snap`.
proof fn lemma_fill_all_grows(
    st0: FillState,
    recs: Seq<RecurringView>,
    snap: Seq<RecordView>,
    tbl: Seq<(u64, RecordView)>,
    today: Date,
    i: int,
)
    requires
        fill_all(st0, recs, snap, today, i) is Value,
        keys_handed_out(st0),
        0 <= i <= recs.len(),
        held_by(snap, tbl, st0.records),
        forall|j: int|
            0 <= j < recs.len() && (#[trigger] recs[j]).record.typ == RecordType::AllDay
                ==> recs[j].recurrence % (NANOS_PER_DAY as int) == 0,
    ensures
        keys_handed_out(fill_all(st0, recs, snap, today, i)->Value_0),
        keeps_and_types(st0.records, fill_all(st0, recs, snap, today, i)->Value_0.records),
        forall|j: int|
            0 <= j < i ==> covered(
                #[trigger] recs[j],
                fill_all(st0, recs, snap, today, i)->Value_0.records,
                today.next_day(),
                recs[j].record.date,
                recs[j].record.start_time(),
            ),
        forall|j: int|
            0 <= j < i && fill_steps(
                today.next_day(),
                recs[j].record.date,
                recs[j].record.start_time(),
            ) ==> typed_for(snap, #[trigger] recs[j].recurrence_key),
    decreases i,
{
    if i > 0 {
        let prev = fill_all(st0, recs, snap, today, i - 1);
        if !(prev is Value) {
            lemma_fill_stays_ended(st0, recs, snap, today, i - 1, i);
        }
        lemma_fill_all_grows(st0, recs, snap, tbl, today, i - 1);
        let s = prev->Value_0;
        let r = recs[i - 1];
        let last = today.next_day();
        let res = fill_all(st0, recs, snap, today, i)->Value_0;
        assert(res == fill_recurrence(s, r, snap, today)->Value_0);
        assert forall|x: int|
            0 <= x < tbl.len() implies #[trigger] snap[x] == tbl[x].1 && s.records.contains_key(
                tbl[x].0,
            ) && s.records[tbl[x].0] == tbl[x].1 by {
            assert(snap[x] == tbl[x].1);
        }
        assert(held_by(snap, tbl, s.records));
        lemma_fill_from_grows(s, r, snap, tbl, last, r.record.date, r.record.start_time());
        assert(keeps_and_types(st0.records, res.records)) by {
            assert forall|k: u64| #[trigger]
                res.records.contains_key(k) && !st0.records.contains_key(k) implies res.records[k].well_typed() by {
                if s.records.contains_key(k) {
                    assert(res.records[k] == s.records[k]);
                }
            }
        }
        assert forall|j: int|
            0 <= j < i implies covered(
                #[trigger] recs[j],
                res.records,
                today.next_day(),
                recs[j].record.date,
                recs[j].record.start_time(),
            ) by {
            if j < i - 1 {
                lemma_covered_kept(
                    recs[j],
                    s.records,
                    res.records,
                    last,
                    recs[j].record.date,
                    recs[j].record.start_time(),
                );
            }
        }
    }
}

/// Filling in the first `i` recurrences again changes nothing, where the
/// first fill went through, `m` holds every occurrence they visit, `snap1`
/// holds every record of `m`, and for each recurrence that takes a step
/// only well-typed records with its key.
proof fn lemma_fill_all_settled(
    st0: FillState,
    st1: FillState,
    recs: Seq<RecurringView>,
    snap: Seq<RecordView>,
    snap1: Seq<RecordView>,
    m: Map<u64, RecordView>,
    today: Date,
    i: int,
)
    requires
        fill_all(st0, recs, snap, today, i) is Value,
        0 <= i <= recs.len(),
        listed_in(m, snap1),
        forall|j: int|
            0 <= j < i ==> covered(
                #[trigger] recs[j],
                m,
                today.next_day(),
                recs[j].record.date,
                recs[j].record.start_time(),
            ),
        forall|j: int|
            0 <= j < i && fill_steps(
                today.next_day(),
                recs[j].record.date,
                recs[j].record.start_time(),
            ) ==> typed_for(snap1, #[trigger] recs[j].recurrence_key),
    ensures
        fill_all(st1, recs, snap1, today, i) == Outcome::Value(st1),
    decreases i,
{
    if i > 0 {
        let prev = fill_all(st0, recs, snap, today, i - 1);
        if !(prev is Value) {
            lemma_fill_stays_ended(st0, recs, snap, today, i - 1, i);
        }
        lemma_fill_all_settled(st0, st1, recs, snap, snap1, m, today, i - 1);
        let r = recs[i - 1];
        let s = prev->Value_0;
        assert(fill_recurrence(s, r, snap, today) is Value);
        let d0 = r.record.date;
        let t0 = r.record.start_time();
        assert(covered(recs[i - 1], m, today.next_day(), d0, t0));
        if fill_steps(today.next_day(), d0, t0) {
            assert(typed_for(snap1, recs[i - 1].recurrence_key));
        }
        lemma_fill_from_settled(s, st1, r, snap, snap1, m, today.next_day(), d0, t0);
    }
}

/// Every record of a table with distinct keys is held in its map.
proof fn lemma_entries_held(s: Seq<(u64, RecordView)>)
    requires
        crate::table::keys_distinct(s),
    ensures
        held_by(s.map_values(|p: (u64, RecordView)| p.1), s, entries_map(s)),
{
    let snap = s.map_values(|p: (u64, RecordView)| p.1);
    assert forall|x: int|
        0 <= x < s.len() implies #[trigger] snap[x] == s[x].1 && entries_map(s).contains_key(s[x].0)
            && entries_map(s)[s[x].0] == s[x].1 by {
        crate::table::lemma_entry_in_map(s, x);
    }
}

/// Updating the recurrences a second time on the same day adds nothing:
/// once every occurrence up to tomorrow is present, the records and the
/// last key handed out stay as they are. `db1` is the database as the
/// first update leaves it (see `update_recurrence`), from a database whose
/// record keys were all handed out. A whole-day occurrence starts at
/// midnight, so this holds of whole-day recurrences that repeat in whole
/// days.
pub proof fn law_update_recurrence_settles(db0: MemoryView, db1: MemoryView, today: Date)
    requires
        db0.wf(),
        db1.wf(),
        forall|k: u64| #[trigger] db0.record_map().contains_key(k) ==> k <= db0.primary_key,
        recurrence_update(db0, today) is Value,
        db1.primary_key == recurrence_update(db0, today)->Value_0.primary_key,
        db1.record_map() == recurrence_update(db0, today)->Value_0.records,
        db1.recurring == db0.recurring,
        forall|j: int|
            0 <= j < db0.recurring.len() && (#[trigger] db0.recurring[j]).1.record.typ
                == RecordType::AllDay ==> db0.recurring[j].1.recurrence % (NANOS_PER_DAY as int) == 0,
    ensures
        recurrence_update(db1, today) == Outcome::Value(
            FillState { primary_key: db1.primary_key, records: db1.record_map() },
        ),
{
    let recs = db0.recurring.map_values(|p: (u64, RecurringView)| p.1);
    let snap0 = db0.records.map_values(|p: (u64, RecordView)| p.1);
    let snap1 = db1.records.map_values(|p: (u64, RecordView)| p.1);
    let st0 = FillState { primary_key: db0.primary_key, records: db0.record_map() };
    let st1 = FillState { primary_key: db1.primary_key, records: db1.record_map() };
    let n = recs.len() as int;
    lemma_sorted_distinct(db0.records);
    lemma_sorted_distinct(db1.records);
    lemma_entries_held(db0.records);
    assert forall|j: int|
        0 <= j < recs.len() && (#[trigger] recs[j]).record.typ == RecordType::AllDay implies recs[j].recurrence
            % (NANOS_PER_DAY as int) == 0 by {
        assert(recs[j] == db0.recurring[j].1);
    }
    lemma_fill_all_grows(st0, recs, snap0, db0.records, today, n);
    let fin = fill_all(st0, recs, snap0, today, n)->Value_0;
    assert(fin.records == db1.record_map());
    assert(listed_in(fin.records, snap1)) by {
        assert forall|k: u64| #[trigger]
            fin.records.contains_key(k) implies exists|x: int| 0 <= x < snap1.len() && snap1[x] == fin.records[k] by {
            assert(crate::table::has_key(db1.records, k));
            let x = crate::table::key_index(db1.records, k);
            crate::table::lemma_entry_in_map(db1.records, x);
            assert(snap1[x] == fin.records[k]);
        }
    }
    assert forall|j: int|
        0 <= j < n && fill_steps(
            today.next_day(),
            recs[j].record.date,
            recs[j].record.start_time(),
        ) implies typed_for(snap1, #[trigger] recs[j].recurrence_key) by {
        let rk = recs[j].recurrence_key;
        assert(typed_for(snap0, rk));
        assert forall|x: int|
            0 <= x < snap1.len() && #[trigger] snap1[x].recurrence_key == Some(rk) implies snap1[x].well_typed() by {
            crate::table::lemma_entry_in_map(db1.records, x);
            let k = db1.records[x].0;
            assert(fin.records.contains_key(k) && fin.records[k] == snap1[x]);
            if st0.records.contains_key(k) {
                assert(crate::table::has_key(db0.records, k));
                let y = crate::table::key_index(db0.records, k);
                crate::table::lemma_entry_in_map(db0.records, y);
                assert(snap0[y] == st0.records[k]);
            }
        }
    }
    lemma_fill_all_settled(st0, st1, recs, snap0, snap1, fin.records, today, n);
    assert(db1.recurring.map_values(|p: (u64, RecurringView)| p.1) == recs);
}

// ------------------------------------------------------------------------
// Records that are due
// ------------------------------------------------------------------------

/// Whether the moment `(d1, t1)` is strictly before `(d2, t2)`.
pub open spec fn moment_before(d1: Date, t1: int, d2: Date, t2: int) -> bool {
    d1.before(d2) || (d1 == d2 && t1 < t2)
}

/// The moment `(d, t)` moved by `x` nanoseconds, when it stays within the
/// representable days.
pub open spec fn shift_moment(d: Date, t: int, x: int) -> Option<(Date, int)> {
    let n = (t + x) / (NANOS_PER_DAY as int);
    if plus_days_in_range(d, n) {
        Some((d.plus_days(n), (t + x) % (NANOS_PER_DAY as int)))
    } else {
        None
    }
}

/// A time of day moved by some nanoseconds, wrapping around midnight.
pub open spec fn wrap_time(t: int) -> int {
    t % (NANOS_PER_DAY as int)
}

/// A time of day with its seconds and nanoseconds set to zero.
pub open spec fn minute_floor(t: int) -> int {
    t - t % (60 * NANOS_PER_SEC as int)
}

/// Whether one of the notifications `notes[i..]` of the record starting at
/// `(d, t)` falls in the current minute of the moment `(nd, nt)`, which is
/// before the record; the program stops if moving back by a notification
/// leaves the representable days.
pub open spec fn notification_due(d: Date, t: int, notes: Seq<int>, nd: Date, nt: int, i: int) -> Outcome<bool>
    decreases notes.len() - i,
{
    if i < 0 || i >= notes.len() {
        Outcome::Value(false)
    } else {
        match shift_moment(d, t, -notes[i]) {
            None => Outcome::Halt,
            Some((wd, wt)) => if moment_before(nd, nt, d, t) && wd == nd && minute_floor(wt)
                == minute_floor(nt) {
                Outcome::Value(true)
            } else {
                notification_due(d, t, notes, nd, nt, i + 1)
            },
        }
    }
}

/// Whether the moment `(nd, nt)` lies strictly within `last` nanoseconds
/// of the record's start `(d, t)`, before or after it; the program stops
/// where either bound leaves the representable days.
pub open spec fn start_window(d: Date, t: int, last: int, nd: Date, nt: int) -> Outcome<bool> {
    match (shift_moment(d, t, -last), shift_moment(d, t, last)) {
        (Some((ld, lt)), Some((ud, ut))) => Outcome::Value(
            moment_before(ld, lt, nd, nt) && moment_before(nd, nt, ud, ut),
        ),
        _ => Outcome::Halt,
    }
}

/// Whether one of the notifications `notes` of the record starting at
/// `(d, t)` falls in the current minute (see `notification_due`).
pub open spec fn notes_due(d: Date, t: int, notes: Option<Seq<int>>, nd: Date, nt: int) -> Outcome<bool> {
    match notes {
        Some(ns) => notification_due(d, t, ns, nd, nt, 0),
        None => Outcome::Value(false),
    }
}

/// Whether the record `r` is due at the moment `(nd, nt)`, looking `last`
/// nanoseconds around it: a timed record whose start is within `last` of
/// now, before or after; a scheduled record within `last` of its span; a
/// whole-day record tomorrow with less than `last` left before 23:59, or
/// another one whose start is within `last` of now; or a record one of
/// whose notifications falls in the current minute. (`nd` is a
/// representable day other than the last, so the whole-day record is
/// tomorrow exactly when the day before it is `nd`.)
pub open spec fn record_due(r: RecordView, last: int, nd: Date, nt: int) -> Outcome<bool> {
    match r.at {
        Some(at) => match start_window(r.date, at, last, nd, nt) {
            Outcome::Value(true) => Outcome::Value(true),
            Outcome::Value(false) => notes_due(r.date, at, r.notifications, nd, nt),
            other => other,
        },
        None => match r.scheduled {
            Some(sp) => if wrap_time(sp.0 - last) < nt && wrap_time(sp.1 + last) > nt {
                Outcome::Value(true)
            } else {
                notes_due(r.date, sp.0, r.notifications, nd, nt)
            },
            None => if r.typ == RecordType::AllDay && r.date.is_min() {
                Outcome::Halt
            } else if r.typ == RecordType::AllDay && nd.next_day() == r.date && nt > wrap_time(
                crate::time::hms_nanos(23, 59, 0) - last,
            ) {
                Outcome::Value(true)
            } else if !r.well_typed() {
                Outcome::Halt
            } else {
                let st = r.start_time();
                match start_window(r.date, st, last, nd, nt) {
                    Outcome::Value(true) => Outcome::Value(true),
                    Outcome::Value(false) => notes_due(r.date, st, r.notifications, nd, nt),
                    other => other,
                }
            },
        },
    }
}

/// The records among the first `n` of `cands` that are due, in order;
/// completed records only with `include_completed`.
pub open spec fn due_records(
    cands: Seq<RecordView>,
    last: int,
    include_completed: bool,
    nd: Date,
    nt: int,
    n: int,
) -> Outcome<Seq<RecordView>>
    decreases n,
{
    if n <= 0 {
        Outcome::Value(Seq::empty())
    } else {
        match due_records(cands, last, include_completed, nd, nt, n - 1) {
            Outcome::Value(prev) => {
                let r = cands[n - 1];
                if !shown(r, include_completed) {
                    Outcome::Value(prev)
                } else {
                    match record_due(r, last, nd, nt) {
                        Outcome::Value(true) => Outcome::Value(prev.push(r)),
                        Outcome::Value(false) => Outcome::Value(prev),
                        Outcome::Fail(e) => Outcome::Fail(e),
                        Outcome::Halt => Outcome::Halt,
                    }
                }
            },
            other => other,
        }
    }
}

/// The records of today and then of tomorrow, each in key order, that are
/// due at the moment `(nd, nt)`.
pub open spec fn events_due(
    db: MemoryView,
    last: int,
    include_completed: bool,
    nd: Date,
    nt: int,
) -> Outcome<Seq<RecordView>> {
    if nd.is_max() {
        Outcome::Halt
    } else {
        let cands = listed_on(db.records, true, nd, db.records.len() as int) + listed_on(
            db.records,
            true,
            nd.next_day(),
            db.records.len() as int,
        );
        due_records(cands, last, include_completed, nd, nt, cands.len() as int)
    }
}

/// Once checking for due records has stopped, later records change nothing.
pub proof fn lemma_due_stays_ended(
    cands: Seq<RecordView>,
    last: int,
    include_completed: bool,
    nd: Date,
    nt: int,
    i: int,
    n: int,
)
    requires
        0 <= i <= n,
        !(due_records(cands, last, include_completed, nd, nt, i) is Value),
    ensures
        due_records(cands, last, include_completed, nd, nt, n) == due_records(
            cands,
            last,
            include_completed,
            nd,
            nt,
            i,
        ),
    decreases n - i,
{
    if n > i {
        lemma_due_stays_ended(cands, last, include_completed, nd, nt, i, n - 1);
    }
}

/// A notification fires once: every moment at which the notification
/// `n` of the record starting at `(d, t)` is due lies in one and the same
/// minute of one day.
pub proof fn law_notification_fires_once(
    d: Date,
    t: int,
    n: int,
    nd1: Date,
    nt1: int,
    nd2: Date,
    nt2: int,
)
    requires
        notification_due(d, t, seq![n], nd1, nt1, 0) == Outcome::Value(true),
        notification_due(d, t, seq![n], nd2, nt2, 0) == Outcome::Value(true),
    ensures
        nd1 == nd2,
        minute_floor(nt1) == minute_floor(nt2),
{
    reveal_with_fuel(notification_due, 2);
}

/// The moment `(d, t)` moved by `x` (see `shift_moment`).
pub(crate) fn shift_exec(d: Date, t: Time, x: &Duration) -> (res: Option<DateTime>)
    ensures
        match shift_moment(d, t@, x@) {
            Some((d2, t2)) => res matches Some(r) && r.date == d2 && r.time@ == t2,
            None => res is None,
        },
{
    if !d.is_valid() {
        return None;
    }
    DateTime { date: d, time: t }.checked_add(x)
}

/// Whether the moment `(nd, nt)` lies strictly between `well` nanoseconds
/// before and `well` nanoseconds after the time of day `start` on day `nd`;
/// `None` where one of the two bounds leaves the representable days.
pub open spec fn schedule_window(start: int, well: int, nd: Date, nt: int) -> Option<bool> {
    match (shift_moment(nd, start, -well), shift_moment(nd, start, well)) {
        (Some((ld, lt)), Some((ud, ut))) => Some(
            moment_before(ld, lt, nd, nt) && moment_before(nd, nt, ud, ut),
        ),
        _ => None,
    }
}

/// Whether a scheduled record that starts at `start` is announced at `now`:
/// `now` lies strictly within `well` of that start on the day of `now`.
/// `None` where a bound of that window is not a representable moment.
pub fn schedule_in_window(start: Time, well: &Duration, now: DateTime) -> (res: Option<bool>)
    ensures
        res == schedule_window(start@, well@, now.date, now.time@),
{
    let w = well.nanos();
    let neg = match Duration::zero().checked_sub(well) {
        Some(v) => v,
        None => {
            return None;
        },
    };
    assert(neg@ == -w);
    let lower = match shift_exec(now.date, start, &neg) {
        Some(v) => v,
        None => {
            return None;
        },
    };
    let upper = match shift_exec(now.date, start, well) {
        Some(v) => v,
        None => {
            return None;
        },
    };
    Some(lower.is_before(&now) && now.is_before(&upper))
}

/// A time of day moved by `x` nanoseconds, wrapping around midnight.
fn wrap_exec(x: i128) -> (res: i128)
    requires
        -100_000_000_000_000_000_000_000_000i128 <= x <= 100_000_000_000_000_000_000_000_000i128,
    ensures
        res == wrap_time(x as int),
{
    let day = NANOS_PER_DAY as i128;
    let mut r: i128 = x % day;
    if r < 0 {
        r = r + day;
    }
    proof {
        let q = if x % day < 0 { x / day - 1 } else { x / day };
        vstd::arithmetic::div_mod::lemma_fundamental_div_mod(x as int, day as int);
        assert(x == q * day + r);
        vstd::arithmetic::div_mod::lemma_fundamental_div_mod_converse(
            x as int,
            day as int,
            q as int,
            r as int,
        );
    }
    r
}

/// Whether a notification of the record starting at `(d, t)` falls in the
/// current minute (see `notification_due`).
pub(crate) fn notifications_due_exec(d: Date, t: Time, notes: &Vec<Duration>, now: &DateTime) -> (res: Outcome<
    bool,
>)
    ensures
        res == notification_due(
            d,
            t@,
            notes@.map_values(|x: Duration| x@),
            now.date,
            now.time@,
            0,
        ),
{
    let ghost ns = notes@.map_values(|x: Duration| x@);
    let n = notes.len();
    let mut i: usize = 0;
    let nt = now.time.nanos_of_day();
    let minute: u64 = 60 * NANOS_PER_SEC;
    while i < n
        invariant
            n == notes@.len(),
            ns == notes@.map_values(|x: Duration| x@),
            i <= n,
            nt == now.time@,
            minute == 60 * NANOS_PER_SEC,
            notification_due(d, t@, ns, now.date, now.time@, 0) == notification_due(
                d,
                t@,
                ns,
                now.date,
                now.time@,
                i as int,
            ),
        decreases n - i,
    {
        assert(ns[i as int] == notes@[i as int]@);
        let neg = match Duration::from_nanos(-notes[i].nanos()) {
            Some(v) => v,
            None => {
                return Outcome::Halt;
            },
        };
        match shift_exec(d, t, &neg) {
            None => {
                return Outcome::Halt;
            },
            Some(w) => {
                let wt = w.time.nanos_of_day();
                proof {
                    vstd::arithmetic::div_mod::lemma_mod_decreases(wt as nat, minute as nat);
                    vstd::arithmetic::div_mod::lemma_mod_decreases(nt as nat, minute as nat);
                }
                let start = DateTime { date: d, time: t };
                if now.is_before(&start) && w.date.same_day(&now.date) && wt - wt % minute == nt
                    - nt % minute {
                    return Outcome::Value(true);
                }
            },
        }
        i = i + 1;
    }
    Outcome::Value(false)
}

/// Whether now lies within `last` of the start `(d, t)` (see
/// `start_window`).
fn start_window_exec(d: Date, t: Time, last: &Duration, now: &DateTime) -> (res: Outcome<bool>)
    ensures
        res == start_window(d, t@, last@, now.date, now.time@),
{
    let _length = last.nanos();
    let neg = match Duration::zero().checked_sub(last) {
        Some(v) => v,
        None => {
            return Outcome::Halt;
        },
    };
    match (shift_exec(d, t, &neg), shift_exec(d, t, last)) {
        (Some(lo), Some(hi)) => Outcome::Value(lo.is_before(now) && now.is_before(&hi)),
        _ => Outcome::Halt,
    }
}

/// Whether a notification of the record starting at `(d, t)` falls in the
/// current minute (see `notes_due`).
pub fn notification_due_now(d: Date, t: Time, notes: Option<Vec<Duration>>, now: &DateTime) -> (res: Outcome<bool>)
    ensures
        res == notes_due(d, t@, opt_durations(notes), now.date, now.time@),
{
    match notes {
        Some(ns) => notifications_due_exec(d, t, &ns, now),
        None => Outcome::Value(false),
    }
}

/// Whether the record `r` is due now (see `record_due`).
fn record_due_exec(r: &Record, last: &Duration, now: &DateTime) -> (res: Outcome<bool>)
    requires
        now.date.valid(),
        !now.date.is_max(),
    ensures
        res == record_due(r@, last@, now.date, now.time@),
{
    let nt = now.time.nanos_of_day() as i128;
    let l = last.nanos();
    match r.at() {
        Some(at) => match start_window_exec(r.date(), at, last, now) {
            Outcome::Value(true) => Outcome::Value(true),
            Outcome::Value(false) => notification_due_now(r.date(), at, r.notifications(), now),
            other => other,
        },
        None => match r.scheduled() {
            Some(sp) => {
                let s0 = sp.0.nanos_of_day() as i128;
                let s1 = sp.1.nanos_of_day() as i128;
                if wrap_exec(s0 - l) < nt && wrap_exec(s1 + l) > nt {
                    Outcome::Value(true)
                } else {
                    notification_due_now(r.date(), sp.0, r.notifications(), now)
                }
            },
            None => {
                let d = r.date();
                let all_day = match r.record_type() {
                    RecordType::AllDay => true,
                    _ => false,
                };
                if all_day && d.year == crate::time::MIN_YEAR && d.month == 1 && d.day == 1 {
                    return Outcome::Halt;
                }
                let before_midnight = crate::time::hms_nanos_exec(23, 59, 0);
                if all_day && now.date.succ().same_day(&d) && nt > wrap_exec(
                    before_midnight - l,
                ) {
                    return Outcome::Value(true);
                }
                if !r.is_well_typed() {
                    return Outcome::Halt;
                }
                let dt = r.datetime();
                match start_window_exec(dt.date, dt.time, last, now) {
                    Outcome::Value(true) => Outcome::Value(true),
                    Outcome::Value(false) => notification_due_now(dt.date, dt.time, r.notifications(), now),
                    other => other,
                }
            },
        },
    }
}

/// Whether `new` is `old` with the entry `e` stored: the record gets the
/// next primary key; with a recurrence, the record and the recurrence get
/// the record's recurrence key, or the next one, and the recurrence is
/// stored, otherwise the record is.
pub open spec fn stores_entry(old: MemoryView, new: MemoryView, e: EntryView) -> bool {
    &&& new.primary_key == old.primary_key + 1
    &&& match e.recurrence {
        Some(rec) => {
            let key = match e.record.recurrence_key {
                Some(k) => k,
                None => (old.recurrence_key + 1) as u64,
            };
            let rv = RecordView { primary_key: new.primary_key, recurrence_key: Some(key), ..e.record };
            &&& new.recurrence_key == (if e.record.recurrence_key is Some {
                old.recurrence_key
            } else {
                key
            })
            &&& new.records == old.records
            &&& new.recurring_map() == old.recurring_map().insert(
                key,
                RecurringView { record: rv, recurrence_key: key, ..rec },
            )
        },
        None => {
            &&& new.recurrence_key == old.recurrence_key
            &&& new.recurring == old.recurring
            &&& new.record_map() == old.record_map().insert(
                new.primary_key,
                RecordView { primary_key: new.primary_key, ..e.record },
            )
        },
    }
}

/// The local calendar database.
#[derive(Debug)]
pub struct MemoryDB {
    primary_key: u64,
    records: KeyTable<Record>,
    recurrence_key: u64,
    recurring: KeyTable<RecurringRecord>,
}

impl View for MemoryDB {
    type V = MemoryView;

    closed spec fn view(&self) -> MemoryView {
        MemoryView {
            primary_key: self.primary_key,
            recurrence_key: self.recurrence_key,
            records: record_pairs(self.records.pairs()),
            recurring: recurring_pairs(self.recurring.pairs()),
        }
    }
}

/// The views of sorted record entries are sorted, and their map is the
/// map of the entries with each record taken by its view.
proof fn lemma_record_pairs(s: Seq<(u64, Record)>)
    requires
        keys_sorted(s),
    ensures
        keys_sorted(record_pairs(s)),
        entries_map(record_pairs(s)).dom() == entries_map(s).dom(),
        forall|k: u64| #[trigger]
            entries_map(record_pairs(s)).contains_key(k) ==> entries_map(record_pairs(s))[k]
                == entries_map(s)[k]@,
{
    lemma_sorted_distinct(s);
    lemma_entries_mapped(s, record_pairs(s), |r: Record| r@);
    assert forall|i: int, j: int| 0 <= i < j < record_pairs(s).len() implies #[trigger] record_pairs(
        s,
    )[i].0 < #[trigger] record_pairs(s)[j].0 by {
        assert(s[i].0 < s[j].0);
    }
}

/// As `lemma_record_pairs`, for recurrences.
proof fn lemma_recurring_pairs(s: Seq<(u64, RecurringRecord)>)
    requires
        keys_sorted(s),
    ensures
        keys_sorted(recurring_pairs(s)),
        entries_map(recurring_pairs(s)).dom() == entries_map(s).dom(),
        forall|k: u64| #[trigger]
            entries_map(recurring_pairs(s)).contains_key(k) ==> entries_map(recurring_pairs(s))[k]
                == entries_map(s)[k]@,
{
    lemma_sorted_distinct(s);
    lemma_entries_mapped(s, recurring_pairs(s), |r: RecurringRecord| r@);
    assert forall|i: int, j: int| 0 <= i < j < recurring_pairs(s).len() implies #[trigger] recurring_pairs(
        s,
    )[i].0 < #[trigger] recurring_pairs(s)[j].0 by {
        assert(s[i].0 < s[j].0);
    }
}

impl MemoryDB {
    #[verifier::type_invariant]
    spec fn inv(self) -> bool {
        self.records.wf() && self.recurring.wf()
    }

    /// Whether the tables are in key order (always so).
    pub fn holds_order(&self)
        ensures
            self@.wf(),
    {
        proof {
            use_type_invariant(self);
            lemma_record_pairs(self.records.pairs());
            lemma_recurring_pairs(self.recurring.pairs());
        }
    }

    /// An empty database.
    pub fn new() -> (res: MemoryDB)
        ensures
            res@.wf(),
            res@ == (MemoryView {
                primary_key: 0,
                recurrence_key: 0,
                records: Seq::empty(),
                recurring: Seq::empty(),
            }),
    {
        let res = MemoryDB {
            primary_key: 0,
            records: KeyTable::new(),
            recurrence_key: 0,
            recurring: KeyTable::new(),
        };
        assert(res@.records =~= Seq::<(u64, RecordView)>::empty());
        assert(res@.recurring =~= Seq::<(u64, RecurringView)>::empty());
        res
    }

    /// The last primary key handed out.
    pub fn primary_key(&self) -> (res: u64)
        ensures
            res == self@.primary_key,
    {
        self.primary_key
    }

    pub fn set_primary_key(&mut self, primary_key: u64)
        ensures
            final(self)@ == (MemoryView { primary_key: primary_key, ..old(self)@ }),
    {
        proof {
            use_type_invariant(&*self);
        }
        self.primary_key = primary_key;
    }

    /// The last recurrence key handed out.
    pub fn recurrence_key(&self) -> (res: u64)
        ensures
            res == self@.recurrence_key,
    {
        self.recurrence_key
    }

    pub fn set_recurrence_key(&mut self, recurrence_key: u64)
        ensures
            final(self)@ == (MemoryView { recurrence_key: recurrence_key, ..old(self)@ }),
    {
        proof {
            use_type_invariant(&*self);
        }
        self.recurrence_key = recurrence_key;
    }

    /// Hands out the next primary key.
    pub fn next_key(&mut self) -> (res: u64)
        requires
            old(self)@.primary_key < u64::MAX,
        ensures
            res == old(self)@.primary_key + 1,
            final(self)@ == (MemoryView { primary_key: res, ..old(self)@ }),
    {
        proof {
            use_type_invariant(&*self);
        }
        self.primary_key = self.primary_key + 1;
        self.primary_key
    }

    /// Hands out the next recurrence key.
    pub fn next_recurrence_key(&mut self) -> (res: u64)
        requires
            old(self)@.recurrence_key < u64::MAX,
        ensures
            res == old(self)@.recurrence_key + 1,
            final(self)@ == (MemoryView { recurrence_key: res, ..old(self)@ }),
    {
        proof {
            use_type_invariant(&*self);
        }
        self.recurrence_key = self.recurrence_key + 1;
        self.recurrence_key
    }

    /// Stores `r` under `k` in the record table.
    fn records_insert(&mut self, k: u64, r: Record)
        ensures
            final(self)@.wf(),
            final(self)@.record_map() == old(self)@.record_map().insert(k, r@),
            final(self)@.primary_key == old(self)@.primary_key,
            final(self)@.recurrence_key == old(self)@.recurrence_key,
            final(self)@.recurring == old(self)@.recurring,
    {
        proof {
            use_type_invariant(&*self);
        }
        let ghost rv = r@;
        let ghost before = self.records.pairs();
        let mut t = KeyTable::new();
        std::mem::swap(&mut t, &mut self.records);
        t.insert(k, r);
        self.records = t;
        proof {
            use_type_invariant(&*self);
            lemma_record_pairs(before);
            lemma_record_pairs(self.records.pairs());
            lemma_recurring_pairs(self.recurring.pairs());
            assert(self@.record_map() =~= old(self)@.record_map().insert(k, rv));
        }
    }

    /// Removes `k` from the record table.
    fn records_remove(&mut self, k: u64)
        ensures
            final(self)@.wf(),
            final(self)@.record_map() == old(self)@.record_map().remove(k),
            final(self)@.primary_key == old(self)@.primary_key,
            final(self)@.recurrence_key == old(self)@.recurrence_key,
            final(self)@.recurring == old(self)@.recurring,
    {
        proof {
            use_type_invariant(&*self);
        }
        let ghost before = self.records.pairs();
        let mut t = KeyTable::new();
        std::mem::swap(&mut t, &mut self.records);
        t.remove(k);
        self.records = t;
        proof {
            use_type_invariant(&*self);
            lemma_record_pairs(before);
            lemma_record_pairs(self.records.pairs());
            lemma_recurring_pairs(self.recurring.pairs());
            assert(self@.record_map() =~= old(self)@.record_map().remove(k));
        }
    }

    /// Stores `r` under `k` in the recurrence table.
    fn recurring_insert(&mut self, k: u64, r: RecurringRecord)
        ensures
            final(self)@.wf(),
            final(self)@.recurring_map() == old(self)@.recurring_map().insert(k, r@),
            final(self)@.primary_key == old(self)@.primary_key,
            final(self)@.recurrence_key == old(self)@.recurrence_key,
            final(self)@.records == old(self)@.records,
    {
        proof {
            use_type_invariant(&*self);
        }
        let ghost rv = r@;
        let ghost before = self.recurring.pairs();
        let mut t = KeyTable::new();
        std::mem::swap(&mut t, &mut self.recurring);
        t.insert(k, r);
        self.recurring = t;
        proof {
            use_type_invariant(&*self);
            lemma_recurring_pairs(before);
            lemma_recurring_pairs(self.recurring.pairs());
            lemma_record_pairs(self.records.pairs());
            assert(self@.recurring_map() =~= old(self)@.recurring_map().insert(k, rv));
        }
    }

    /// Removes `k` from the recurrence table.
    fn recurring_remove(&mut self, k: u64)
        ensures
            final(self)@.wf(),
            final(self)@.recurring_map() == old(self)@.recurring_map().remove(k),
            final(self)@.primary_key == old(self)@.primary_key,
            final(self)@.recurrence_key == old(self)@.recurrence_key,
            final(self)@.records == old(self)@.records,
    {
        proof {
            use_type_invariant(&*self);
        }
        let ghost before = self.recurring.pairs();
        let mut t = KeyTable::new();
        std::mem::swap(&mut t, &mut self.recurring);
        t.remove(k);
        self.recurring = t;
        proof {
            use_type_invariant(&*self);
            lemma_recurring_pairs(before);
            lemma_recurring_pairs(self.recurring.pairs());
            lemma_record_pairs(self.records.pairs());
            assert(self@.recurring_map() =~= old(self)@.recurring_map().remove(k));
        }
    }

    /// Stores `record` under the key `key`, as stored before.
    pub fn store_record_at(&mut self, key: u64, record: Record)
        ensures
            final(self)@.wf(),
            final(self)@.record_map() == old(self)@.record_map().insert(key, record@),
            final(self)@.primary_key == old(self)@.primary_key,
            final(self)@.recurrence_key == old(self)@.recurrence_key,
            final(self)@.recurring == old(self)@.recurring,
    {
        self.records_insert(key, record);
    }

    /// Stores `record` under the key `key`, as stored before.
    pub fn store_recurring_at(&mut self, key: u64, record: RecurringRecord)
        ensures
            final(self)@.wf(),
            final(self)@.recurring_map() == old(self)@.recurring_map().insert(key, record@),
            final(self)@.primary_key == old(self)@.primary_key,
            final(self)@.recurrence_key == old(self)@.recurrence_key,
            final(self)@.records == old(self)@.records,
    {
        self.recurring_insert(key, record);
    }

    /// The records with their keys, in key order.
    pub fn record_entries(&self) -> (res: Vec<(u64, Record)>)
        ensures
            res@.len() == self@.records.len(),
            forall|i: int|
                0 <= i < res@.len() ==> (#[trigger] res@[i]).0 == self@.records[i].0
                    && res@[i].1@ == self@.records[i].1,
    {
        proof {
            use_type_invariant(self);
        }
        let ghost s = self@.records;
        let n = self.records.len();
        let mut v: Vec<(u64, Record)> = Vec::new();
        for i in 0..n
            invariant
                self.records.wf(),
                self.recurring.wf(),
                n == s.len(),
                s == self@.records,
                v@.len() == i,
                forall|j: int| 0 <= j < i ==> (#[trigger] v@[j]).0 == s[j].0 && v@[j].1@ == s[j].1,
        {
            let (k, r) = self.records.entry(i);
            assert(s[i as int] == (k, r@));
            let d = r.duplicate();
            let ghost before = v@;
            v.push((k, d));
            assert(forall|j: int| 0 <= j < i ==> v@[j] == before[j]);
        }
        v
    }

    /// The recurrences with their keys, in key order.
    pub fn recurring_entries(&self) -> (res: Vec<(u64, RecurringRecord)>)
        ensures
            res@.len() == self@.recurring.len(),
            forall|i: int|
                0 <= i < res@.len() ==> (#[trigger] res@[i]).0 == self@.recurring[i].0
                    && res@[i].1@ == self@.recurring[i].1,
    {
        proof {
            use_type_invariant(self);
        }
        let ghost s = self@.recurring;
        let n = self.recurring.len();
        let mut v: Vec<(u64, RecurringRecord)> = Vec::new();
        for i in 0..n
            invariant
                self.records.wf(),
                self.recurring.wf(),
                n == s.len(),
                s == self@.recurring,
                v@.len() == i,
                forall|j: int| 0 <= j < i ==> (#[trigger] v@[j]).0 == s[j].0 && v@[j].1@ == s[j].1,
        {
            let (k, r) = self.recurring.entry(i);
            assert(s[i as int] == (k, r@));
            let d = r.duplicate();
            let ghost before = v@;
            v.push((k, d));
            assert(forall|j: int| 0 <= j < i ==> v@[j] == before[j]);
        }
        v
    }

    /// Stores `record` under its primary key, replacing what was there.
    pub fn record(&mut self, record: Record)
        ensures
            final(self)@.wf(),
            final(self)@.record_map() == old(self)@.record_map().insert(
                record@.primary_key,
                record@,
            ),
            final(self)@.primary_key == old(self)@.primary_key,
            final(self)@.recurrence_key == old(self)@.recurrence_key,
            final(self)@.recurring == old(self)@.recurring,
    {
        let k = record.primary_key();
        self.records_insert(k, record);
    }

    /// Stores `record` under its recurrence key, replacing what was there.
    pub fn record_recurrence(&mut self, record: RecurringRecord)
        ensures
            final(self)@.wf(),
            final(self)@.recurring_map() == old(self)@.recurring_map().insert(
                record@.recurrence_key,
                record@,
            ),
            final(self)@.primary_key == old(self)@.primary_key,
            final(self)@.recurrence_key == old(self)@.recurrence_key,
            final(self)@.records == old(self)@.records,
    {
        let k = record.recurrence_key();
        self.recurring_insert(k, record);
    }

    /// Stores a new record (as `record`).
    pub fn insert_record(&mut self, record: Record)
        ensures
            final(self)@.wf(),
            final(self)@.record_map() == old(self)@.record_map().insert(
                record@.primary_key,
                record@,
            ),
            final(self)@.primary_key == old(self)@.primary_key,
            final(self)@.recurrence_key == old(self)@.recurrence_key,
            final(self)@.recurring == old(self)@.recurring,
    {
        self.record(record);
    }

    /// Stores a new recurrence (as `record_recurrence`).
    pub fn insert_recurrence(&mut self, record: RecurringRecord)
        ensures
            final(self)@.wf(),
            final(self)@.recurring_map() == old(self)@.recurring_map().insert(
                record@.recurrence_key,
                record@,
            ),
            final(self)@.primary_key == old(self)@.primary_key,
            final(self)@.recurrence_key == old(self)@.recurrence_key,
            final(self)@.records == old(self)@.records,
    {
        self.record_recurrence(record);
    }

    /// Replaces the record stored under the primary key of `record`.
    pub fn update(&mut self, record: Record)
        ensures
            final(self)@.wf(),
            final(self)@.record_map() == old(self)@.record_map().insert(
                record@.primary_key,
                record@,
            ),
            final(self)@.primary_key == old(self)@.primary_key,
            final(self)@.recurrence_key == old(self)@.recurrence_key,
            final(self)@.recurring == old(self)@.recurring,
    {
        self.record(record);
    }

    /// Replaces the recurrence stored under the key of `record`.
    pub fn update_recurring(&mut self, record: RecurringRecord)
        ensures
            final(self)@.wf(),
            final(self)@.recurring_map() == old(self)@.recurring_map().insert(
                record@.recurrence_key,
                record@,
            ),
            final(self)@.primary_key == old(self)@.primary_key,
            final(self)@.recurrence_key == old(self)@.recurrence_key,
            final(self)@.records == old(self)@.records,
    {
        self.record_recurrence(record);
    }

    /// Deletes the record stored under `primary_key`.
    pub fn delete(&mut self, primary_key: u64)
        ensures
            final(self)@.wf(),
            final(self)@.record_map() == old(self)@.record_map().remove(primary_key),
            final(self)@.primary_key == old(self)@.primary_key,
            final(self)@.recurrence_key == old(self)@.recurrence_key,
            final(self)@.recurring == old(self)@.recurring,
    {
        self.records_remove(primary_key);
    }

    /// Deletes the recurrence stored under `recurrence_key`; its records
    /// stay. No remote ids are returned.
    pub fn delete_recurrence(&mut self, recurrence_key: u64) -> (res: Vec<String>)
        ensures
            final(self)@.wf(),
            final(self)@.recurring_map() == old(self)@.recurring_map().remove(recurrence_key),
            final(self)@.primary_key == old(self)@.primary_key,
            final(self)@.recurrence_key == old(self)@.recurrence_key,
            final(self)@.records == old(self)@.records,
            res@.len() == 0,
    {
        self.recurring_remove(recurrence_key);
        Vec::new()
    }

    /// The first record, in key order, whose primary key is `primary_key`.
    pub fn get(&self, primary_key: u64) -> (res: Result<Record, SaturnError>)
        ensures
            match find_primary(self@.records, primary_key, 0) {
                Some(r) => res matches Ok(x) && x@ == r,
                None => res == Err::<Record, SaturnError>(SaturnError::NoRecordFound),
            },
    {
        proof {
            use_type_invariant(self);
        }
        let ghost s = self@.records;
        let n = self.records.len();
        let mut i: usize = 0;
        while i < n
            invariant
                self.records.wf(),
                self.recurring.wf(),
                n == s.len(),
                s == self@.records,
                i <= n,
                find_primary(s, primary_key, 0) == find_primary(s, primary_key, i as int),
            decreases n - i,
        {
            let (_, r) = self.records.entry(i);
            assert(s[i as int].1 == r@);
            if r.primary_key() == primary_key {
                return Ok(r.duplicate());
            }
            i = i + 1;
        }
        Err(SaturnError::NoRecordFound)
    }

    /// The recurrence stored under `recurrence_key`.
    pub fn get_recurring(&self, recurrence_key: u64) -> (res: Result<RecurringRecord, SaturnError>)
        ensures
            match res {
                Ok(r) => self@.recurring_map().contains_key(recurrence_key) && r@
                    == self@.recurring_map()[recurrence_key],
                Err(e) => !self@.recurring_map().contains_key(recurrence_key) && e
                    == SaturnError::NoRecordFound,
            },
    {
        proof {
            use_type_invariant(self);
            lemma_recurring_pairs(self.recurring.pairs());
        }
        match self.recurring.get(recurrence_key) {
            Some(r) => Ok(r.duplicate()),
            None => Err(SaturnError::NoRecordFound),
        }
    }

    /// Marks completed every record whose primary key is `primary_key`.
    pub fn complete_task(&mut self, primary_key: u64)
        ensures
            final(self)@.wf(),
            final(self)@.records.len() == old(self)@.records.len(),
            forall|i: int|
                0 <= i < old(self)@.records.len() ==> #[trigger] final(self)@.records[i] == (
                old(self)@.records[i].0,
                completed_if(old(self)@.records[i].1, primary_key),
            ),
            final(self)@.primary_key == old(self)@.primary_key,
            final(self)@.recurrence_key == old(self)@.recurrence_key,
            final(self)@.recurring == old(self)@.recurring,
    {
        proof {
            use_type_invariant(&*self);
        }
        let ghost s0 = self@.records;
        let mut t = KeyTable::new();
        std::mem::swap(&mut t, &mut self.records);
        let n = t.len();
        let mut i: usize = 0;
        while i < n
            invariant
                t.wf(),
                n == t.pairs().len(),
                n == s0.len(),
                i <= n,
                forall|j: int|
                    0 <= j < i ==> #[trigger] record_pairs(t.pairs())[j] == (
                        s0[j].0,
                        completed_if(s0[j].1, primary_key),
                    ),
                forall|j: int| i <= j < n ==> #[trigger] record_pairs(t.pairs())[j] == s0[j],
            decreases n - i,
        {
            let ghost before = t.pairs();
            let (_, r) = t.entry(i);
            assert(record_pairs(before)[i as int] == (before[i as int].0, before[i as int].1@));
            if r.primary_key() == primary_key {
                let mut c = r.duplicate();
                c.set_completed(true);
                t.set_value(i, c);
                assert forall|j: int| 0 <= j < n implies #[trigger] record_pairs(t.pairs())[j] == (
                if j == i {
                    (s0[j].0, completed_if(s0[j].1, primary_key))
                } else {
                    record_pairs(before)[j]
                }) by {
                    assert(record_pairs(t.pairs())[j] == (t.pairs()[j].0, t.pairs()[j].1@));
                    assert(record_pairs(before)[j] == (before[j].0, before[j].1@));
                }
            }
            i = i + 1;
        }
        self.records = t;
        proof {
            use_type_invariant(&*self);
            lemma_record_pairs(self.records.pairs());
            lemma_recurring_pairs(self.recurring.pairs());
        }
    }

    /// The recurrences, in key order.
    pub fn list_recurrence(&self) -> (res: Vec<RecurringRecord>)
        ensures
            recurring_list(res@) == self@.recurring.map_values(|p: (u64, RecurringView)| p.1),
    {
        proof {
            use_type_invariant(self);
        }
        let ghost s = self@.recurring;
        let n = self.recurring.len();
        let mut v: Vec<RecurringRecord> = Vec::new();
        for i in 0..n
            invariant
                self.records.wf(),
                self.recurring.wf(),
                n == s.len(),
                s == self@.recurring,
                recurring_list(v@) == s.subrange(0, i as int).map_values(
                    |p: (u64, RecurringView)| p.1,
                ),
        {
            let (_, r) = self.recurring.entry(i);
            assert(s[i as int].1 == r@);
            let ghost prev = v@;
            v.push(r.duplicate());
            assert(recurring_list(v@) =~= recurring_list(prev).push(r@));
            assert(recurring_list(v@) =~= s.subrange(0, i + 1).map_values(
                |p: (u64, RecurringView)| p.1,
            ));
        }
        assert(s.subrange(0, n as int) =~= s);
        v
    }

    /// The records, in key order; completed ones only with
    /// `include_completed`.
    pub fn list_all(&self, include_completed: bool) -> (res: Vec<Record>)
        ensures
            record_list(res@) == listed(self@.records, include_completed, self@.records.len() as int),
    {
        proof {
            use_type_invariant(self);
        }
        let ghost s = self@.records;
        let n = self.records.len();
        let mut v: Vec<Record> = Vec::new();
        for i in 0..n
            invariant
                self.records.wf(),
                self.recurring.wf(),
                n == s.len(),
                s == self@.records,
                record_list(v@) == listed(s, include_completed, i as int),
        {
            let (_, r) = self.records.entry(i);
            assert(s[i as int].1 == r@);
            if include_completed || !r.completed() {
                let ghost prev = v@;
                v.push(r.duplicate());
                assert(record_list(v@) =~= record_list(prev).push(r@));
            }
        }
        v
    }

    /// The records on the date `today`, in key order; completed ones only
    /// with `include_completed`.
    pub fn list_today(&self, include_completed: bool, today: Date) -> (res: Vec<Record>)
        ensures
            record_list(res@) == listed_on(
                self@.records,
                include_completed,
                today,
                self@.records.len() as int,
            ),
    {
        proof {
            use_type_invariant(self);
        }
        let ghost s = self@.records;
        let n = self.records.len();
        let mut v: Vec<Record> = Vec::new();
        for i in 0..n
            invariant
                self.records.wf(),
                self.recurring.wf(),
                n == s.len(),
                s == self@.records,
                record_list(v@) == listed_on(s, include_completed, today, i as int),
        {
            let (_, r) = self.records.entry(i);
            assert(s[i as int].1 == r@);
            if r.date().same_day(&today) && (include_completed || !r.completed()) {
                let ghost prev = v@;
                v.push(r.duplicate());
                assert(record_list(v@) =~= record_list(prev).push(r@));
            }
        }
        v
    }

    /// The records, in key order.
    fn snapshot(&self) -> (res: Vec<Record>)
        ensures
            record_list(res@) == self@.records.map_values(|p: (u64, RecordView)| p.1),
    {
        proof {
            use_type_invariant(self);
        }
        let ghost s = self@.records;
        let n = self.records.len();
        let mut v: Vec<Record> = Vec::new();
        for i in 0..n
            invariant
                self.records.wf(),
                self.recurring.wf(),
                n == s.len(),
                s == self@.records,
                record_list(v@) == s.subrange(0, i as int).map_values(|p: (u64, RecordView)| p.1),
        {
            let (_, r) = self.records.entry(i);
            assert(s[i as int].1 == r@);
            let ghost prev = v@;
            v.push(r.duplicate());
            assert(record_list(v@) =~= record_list(prev).push(r@));
            assert(s.subrange(0, i + 1).map_values(|p: (u64, RecordView)| p.1) =~= s.subrange(
                0,
                i as int,
            ).map_values(|p: (u64, RecordView)| p.1).push(s[i as int].1));
        }
        assert(s.subrange(0, n as int) =~= s);
        v
    }

    /// Whether a record of `snap` with the recurrence key `rk` starts at
    /// `(date, time)` (see `snapshot_check`).
    fn check_snapshot(snap: &Vec<Record>, rk: u64, date: Date, time: Time) -> (res: Outcome<bool>)
        ensures
            res == snapshot_check(record_list(snap@), rk, date, time@),
    {
        let ghost sv = record_list(snap@);
        let mut found = false;
        let mut broken = false;
        let n = snap.len();
        for i in 0..n
            invariant
                n == snap@.len(),
                sv == record_list(snap@),
                found == exists|j: int|
                    0 <= j < i && #[trigger] sv[j].recurrence_key == Some(rk) && sv[j].well_typed()
                        && sv[j].date == date && sv[j].start_time() == time@,
                broken == exists|j: int|
                    0 <= j < i && #[trigger] sv[j].recurrence_key == Some(rk)
                        && !sv[j].well_typed(),
        {
            let r = &snap[i];
            assert(sv[i as int] == r@);
            if r.recurrence_key() == Some(rk) {
                if !r.is_well_typed() {
                    broken = true;
                } else {
                    let dt = r.datetime();
                    if dt.date.same_day(&date) && dt.time.same_time(&time) {
                        found = true;
                    }
                }
            }
        }
        if broken {
            Outcome::Halt
        } else {
            Outcome::Value(found)
        }
    }

    /// Fills in the occurrences of every recurrence from its own moment up
    /// to the day after `today`: each occurrence for which no record of
    /// that recurrence is found at its moment is added under the next
    /// primary key.
    ///
    /// Where filling in stops (a recurrence whose placement is
    /// missing or that does not move forward in time, a day out of range,
    /// keys run out) the result is `OutOfRange` and the database is left
    /// part-way.
    pub fn update_recurrence(&mut self, today: Date) -> (res: Result<(), SaturnError>)
        requires
            today.valid(),
        ensures
            final(self)@.wf(),
            match recurrence_update(old(self)@, today) {
                Outcome::Value(st) => res is Ok && final(self)@.primary_key == st.primary_key
                    && final(self)@.record_map() == st.records,
                _ => res == Err::<(), SaturnError>(SaturnError::OutOfRange),
            },
            final(self)@.recurrence_key == old(self)@.recurrence_key,
            final(self)@.recurring == old(self)@.recurring,
    {
        self.holds_order();
        let ghost snapv = self@.records.map_values(|p: (u64, RecordView)| p.1);
        let ghost recsv = self@.recurring.map_values(|p: (u64, RecurringView)| p.1);
        let ghost st0 = FillState { primary_key: self@.primary_key, records: self@.record_map() };
        let ghost whole = recurrence_update(self@, today);
        assert(whole == fill_all(st0, recsv, snapv, today, recsv.len() as int));
        let snap = self.snapshot();
        let recs = self.list_recurrence();
        let n = recs.len();
        let mut i: usize = 0;
        while i < n
            invariant
                n == recs@.len(),
                n == recsv.len(),
                recurring_list(recs@) == recsv,
                record_list(snap@) == snapv,
                today.valid(),
                i <= n,
                self@.wf(),
                self@.recurring == old(self)@.recurring,
                self@.recurrence_key == old(self)@.recurrence_key,
                whole == fill_all(st0, recsv, snapv, today, n as int),
                whole == recurrence_update(old(self)@, today),
                fill_all(st0, recsv, snapv, today, i as int) == Outcome::Value(
                    FillState { primary_key: self@.primary_key, records: self@.record_map() },
                ),
            decreases n - i,
        {
            let ghost cur = FillState { primary_key: self@.primary_key, records: self@.record_map() };
            let r = &recs[i];
            let ghost rv = recsv[i as int];
            assert(r@ == rv);
            let inner = r.record_copy();
            if !inner.is_well_typed() || (today.year == crate::time::MAX_YEAR && today.month == 12
                && today.day == 31) {
                assert(fill_recurrence(cur, rv, snapv, today) is Halt);
                assert(fill_all(st0, recsv, snapv, today, i + 1) == fill_recurrence(
                    cur,
                    rv,
                    snapv,
                    today,
                ));
                proof {
                    lemma_fill_stays_ended(st0, recsv, snapv, today, i + 1, n as int);
                }
                return Err(SaturnError::OutOfRange);
            }
            let tomorrow = today.succ();
            let start = inner.datetime();
            let ghost target = fill_from(
                cur,
                rv,
                snapv,
                tomorrow,
                rv.record.date,
                rv.record.start_time(),
            );
            assert(fill_all(st0, recsv, snapv, today, i + 1) == target);
            let mut date = start.date;
            let mut time = start.time;
            let recurrence = r.recurrence();
            let rk = r.recurrence_key();
            loop
                invariant_except_break
                    target == fill_from(
                        FillState { primary_key: self@.primary_key, records: self@.record_map() },
                        rv,
                        snapv,
                        tomorrow,
                        date,
                        time@,
                    ),
                invariant
                    recurring_list(recs@) == recsv,
                    record_list(snap@) == snapv,
                    r@ == rv,
                    recurrence@ == rv.recurrence,
                    rk == rv.recurrence_key,
                    rv.record.well_typed(),
                    tomorrow == today.next_day(),
                    self@.wf(),
                    self@.recurring == old(self)@.recurring,
                    self@.recurrence_key == old(self)@.recurrence_key,
                    fill_all(st0, recsv, snapv, today, i + 1) == target,
                    whole == fill_all(st0, recsv, snapv, today, n as int),
                    whole == recurrence_update(old(self)@, today),
                    i < n,
                ensures
                    target == Outcome::Value(
                        FillState { primary_key: self@.primary_key, records: self@.record_map() },
                    ),
                    self@.wf(),
                    self@.recurring == old(self)@.recurring,
                    self@.recurrence_key == old(self)@.recurrence_key,
                decreases tomorrow.year - date.year, 12 - date.month, 31 - date.day, NANOS_PER_DAY
                    - time@,
            {
                // reading the time of day brings in its bound, on which the
                // last measure of `decreases` rests
                let _time_of_day = time.nanos_of_day();
                if tomorrow.is_before(&date) || !date.is_valid() {
                    break ;
                }
                let ghost st = FillState { primary_key: self@.primary_key, records: self@.record_map() };
                let found = match Self::check_snapshot(&snap, rk, date, time) {
                    Outcome::Value(found) => found,
                    _ => {
                        assert(snapshot_check(snapv, rv.recurrence_key, date, time@) is Halt);
                        assert(target is Halt);
                        proof {
                            lemma_fill_stays_ended(st0, recsv, snapv, today, i + 1, n as int);
                        }
                        return Err(SaturnError::OutOfRange);
                    },
                };
                if !found {
                    if self.primary_key() == u64::MAX {
                        assert(target is Halt);
                        proof {
                            lemma_fill_stays_ended(st0, recsv, snapv, today, i + 1, n as int);
                        }
                        return Err(SaturnError::OutOfRange);
                    }
                    let key = self.next_key();
                    let occurrence = r.record_from(key, DateTime { date, time });
                    self.record(occurrence);
                    assert(self@.record_map() == st.records.insert(
                        key,
                        occurrence_at(rv, key, date, time@),
                    ));
                }
                if recurrence.nanos() <= 0 {
                    proof {
                        lemma_fill_stays_ended(st0, recsv, snapv, today, i + 1, n as int);
                    }
                    return Err(SaturnError::OutOfRange);
                }
                let dt = DateTime { date, time };
                match dt.checked_add(&recurrence) {
                    Some(next) => {
                        proof {
                            lemma_shift_later(date, time@, rv.recurrence);
                        }
                        if tomorrow.is_before(&next.date) {
                            break ;
                        }
                        date = next.date;
                        time = next.time;
                    },
                    None => {
                        proof {
                            lemma_fill_stays_ended(st0, recsv, snapv, today, i + 1, n as int);
                        }
                        return Err(SaturnError::OutOfRange);
                    },
                }
            }
            i = i + 1;
        }
        Ok(())
    }

    /// The records of today and then of tomorrow, each in key order, that
    /// are due at `now`, looking `last` around it (see `record_due`);
    /// completed records only with `include_completed`.
    ///
    /// Where reading the clock or the records stops (today is the last representable
    /// day, a record's placement is missing, a moment leaves the
    /// representable days) the result is `OutOfRange`.
    pub fn events_now(&self, last: Duration, include_completed: bool, now: DateTime) -> (res: Result<
        Vec<Record>,
        SaturnError,
    >)
        requires
            now.date.valid(),
        ensures
            match events_due(self@, last@, include_completed, now.date, now.time@) {
                Outcome::Value(v) => res matches Ok(r) && record_list(r@) == v,
                _ => res == Err::<Vec<Record>, SaturnError>(SaturnError::OutOfRange),
            },
    {
        if now.date.year == crate::time::MAX_YEAR && now.date.month == 12 && now.date.day == 31 {
            return Err(SaturnError::OutOfRange);
        }
        let tomorrow = now.date.succ();
        let mut cands = self.list_today(true, now.date);
        let mut later = self.list_today(true, tomorrow);
        let ghost a = cands@;
        let ghost b = later@;
        cands.append(&mut later);
        let ghost cv = record_list(cands@);
        assert(cv =~= record_list(a) + record_list(b));
        assert(events_due(self@, last@, include_completed, now.date, now.time@) == due_records(
            cv,
            last@,
            include_completed,
            now.date,
            now.time@,
            cv.len() as int,
        ));
        let n = cands.len();
        let mut out: Vec<Record> = Vec::new();
        let mut i: usize = 0;
        assert(record_list(out@) =~= Seq::<RecordView>::empty());
        while i < n
            invariant
                n == cands@.len(),
                cv == record_list(cands@),
                now.date.valid(),
                !now.date.is_max(),
                i <= n,
                due_records(cv, last@, include_completed, now.date, now.time@, i as int)
                    == Outcome::Value(record_list(out@)),
                events_due(self@, last@, include_completed, now.date, now.time@) == due_records(
                    cv,
                    last@,
                    include_completed,
                    now.date,
                    now.time@,
                    n as int,
                ),
            decreases n - i,
        {
            let r = &cands[i];
            assert(cv[i as int] == r@);
            if include_completed || !r.completed() {
                match record_due_exec(r, &last, &now) {
                    Outcome::Value(true) => {
                        let ghost prev = out@;
                        out.push(r.duplicate());
                        assert(record_list(out@) =~= record_list(prev).push(r@));
                    },
                    Outcome::Value(false) => {},
                    _ => {
                        proof {
                            lemma_due_stays_ended(
                                cv,
                                last@,
                                include_completed,
                                now.date,
                                now.time@,
                                i + 1,
                                n as int,
                            );
                        }
                        return Err(SaturnError::OutOfRange);
                    },
                }
            }
            i = i + 1;
        }
        Ok(out)
    }

    /// Stores an entry that was read: the record gets the next primary key;
    /// with a recurrence, the record and the recurrence get the record's
    /// recurrence key, or the next one, and the recurrence is stored,
    /// otherwise the record is.
    pub fn record_parsed(&mut self, entry: EntryRecord)
        requires
            old(self)@.primary_key < u64::MAX,
            old(self)@.recurrence_key < u64::MAX,
        ensures
            final(self)@.wf(),
            stores_entry(old(self)@, final(self)@, entry@),
    {
        let mut record = entry.record();
        let recurrence = entry.recurrence();
        let pk = self.next_key();
        record.set_primary_key(pk);
        match recurrence {
            Some(mut rec) => {
                let key = match record.recurrence_key() {
                    Some(k) => k,
                    None => self.next_recurrence_key(),
                };
                record.set_recurrence_key(Some(key));
                rec.set_record(record);
                rec.set_recurrence_key(key);
                self.record_recurrence(rec);
            },
            None => {
                self.record(record);
            },
        }
    }

    /// Reads the entry against the local clock and stores it (see
    /// `record_parsed`).
    pub fn record_entry(&mut self, entry: EntryParser) -> (res: Result<(), SaturnError>)
        requires
            old(self)@.primary_key < u64::MAX,
            old(self)@.recurrence_key < u64::MAX,
        ensures
            final(self)@.wf(),
            exists|today: Date, afternoon: bool|
                today.valid() && match #[trigger] entry_outcome(
                    entry.args(),
                    entry.use_24h_time(),
                    today,
                    afternoon,
                ) {
                    Outcome::Value(v) => res is Ok && stores_entry(old(self)@, final(self)@, v),
                    Outcome::Fail(e) => res == Err::<(), SaturnError>(e) && final(self)@ == old(
                        self,
                    )@,
                    Outcome::Halt => res == Err::<(), SaturnError>(SaturnError::OutOfRange)
                        && final(self)@ == old(self)@,
                },
    {
        proof {
            use_type_invariant(&*self);
            lemma_record_pairs(self.records.pairs());
            lemma_recurring_pairs(self.recurring.pairs());
        }
        let read = entry.to_record();
        let ghost (today, afternoon) = choose|today: Date, afternoon: bool|
            today.valid() && match #[trigger] entry_outcome(
                entry.args(),
                entry.use_24h_time(),
                today,
                afternoon,
            ) {
                Outcome::Value(v) => read matches Ok(r) && r@ == v,
                Outcome::Fail(e) => read == Err::<EntryRecord, SaturnError>(e),
                Outcome::Halt => read == Err::<EntryRecord, SaturnError>(SaturnError::OutOfRange),
            };
        let ghost o = entry_outcome(entry.args(), entry.use_24h_time(), today, afternoon);
        match read {
            Ok(r) => {
                self.record_parsed(r);
                assert(match o {
                    Outcome::Value(v) => stores_entry(old(self)@, self@, v),
                    _ => false,
                });
                Ok(())
            },
            Err(e) => {
                assert(o is Fail ==> o == Outcome::<EntryView>::Fail(e));
                Err(e)
            },
        }
    }
}


// ------------------------------------------------------------------------
// Laws
// ------------------------------------------------------------------------

/// Whether every record is stored under its own primary key.
pub open spec fn keyed(m: Map<u64, RecordView>) -> bool {
    forall|k: u64| #[trigger] m.contains_key(k) ==> m[k].primary_key == k
}

/// In entries stored under their own primary keys, the first record with
/// the primary key `x` from entry `i` on is the one stored under `x`.
proof fn lemma_find_keyed(s: Seq<(u64, RecordView)>, x: u64, i: int)
    requires
        0 <= i <= s.len(),
        crate::table::keys_distinct(s),
        forall|j: int| 0 <= j < s.len() ==> #[trigger] s[j].1.primary_key == s[j].0,
    ensures
        find_primary(s, x, i) == (if exists|j: int| i <= j < s.len() && #[trigger] s[j].0 == x {
            Some(entries_map(s)[x])
        } else {
            None
        }),
    decreases s.len() - i,
{
    if i < s.len() {
        lemma_find_keyed(s, x, i + 1);
        if s[i].0 == x {
            crate::table::lemma_entry_in_map(s, i);
        } else {
            if exists|j: int| i <= j < s.len() && #[trigger] s[j].0 == x {
                let j = choose|j: int| i <= j < s.len() && #[trigger] s[j].0 == x;
                assert(i + 1 <= j);
            }
        }
    }
}

/// With every record stored under its own primary key, looking a key up
/// finds the record stored under it, or nothing when there is none.
pub proof fn law_get_finds_stored(db: MemoryView, pk: u64)
    requires
        db.wf(),
        keyed(db.record_map()),
    ensures
        find_primary(db.records, pk, 0) == (if db.record_map().contains_key(pk) {
            Some(db.record_map()[pk])
        } else {
            None
        }),
{
    let s = db.records;
    lemma_sorted_distinct(s);
    assert forall|j: int| 0 <= j < s.len() implies #[trigger] s[j].1.primary_key == s[j].0 by {
        crate::table::lemma_entry_in_map(s, j);
    }
    lemma_find_keyed(s, pk, 0);
    if db.record_map().contains_key(pk) {
        let j = choose|j: int| 0 <= j < s.len() && #[trigger] s[j].0 == pk;
        assert(0 <= j < s.len() && s[j].0 == pk);
    }
}

/// Storing a record under its own primary key keeps every record stored
/// under its own primary key, and the record is then what a lookup of its
/// key finds.
pub proof fn law_record_then_get(before: MemoryView, after: MemoryView, r: RecordView)
    requires
        after.wf(),
        keyed(before.record_map()),
        after.record_map() == before.record_map().insert(r.primary_key, r),
    ensures
        keyed(after.record_map()),
        find_primary(after.records, r.primary_key, 0) == Some(r),
{
    law_get_finds_stored(after, r.primary_key);
}

/// Deleting a key keeps every record stored under its own primary key, and
/// a lookup of that key then finds nothing.
pub proof fn law_delete_then_get(before: MemoryView, after: MemoryView, pk: u64)
    requires
        after.wf(),
        keyed(before.record_map()),
        after.record_map() == before.record_map().remove(pk),
    ensures
        keyed(after.record_map()),
        find_primary(after.records, pk, 0) is None,
{
    law_get_finds_stored(after, pk);
}

/// Marking a record completed keeps every record stored under its own
/// primary key, and a lookup of its key then finds it completed.
pub proof fn law_complete_then_get(before: MemoryView, after: MemoryView, pk: u64)
    requires
        before.wf(),
        after.wf(),
        keyed(before.record_map()),
        before.record_map().contains_key(pk),
        after.records.len() == before.records.len(),
        forall|i: int|
            0 <= i < before.records.len() ==> #[trigger] after.records[i] == (
                before.records[i].0,
                completed_if(before.records[i].1, pk),
            ),
    ensures
        keyed(after.record_map()),
        find_primary(after.records, pk, 0) == Some(
            RecordView { completed: true, ..before.record_map()[pk] },
        ),
{
    let s = before.records;
    let t = after.records;
    lemma_sorted_distinct(s);
    lemma_sorted_distinct(t);
    assert forall|k: u64| #[trigger] after.record_map().contains_key(k) implies after.record_map()[k].primary_key == k by {
        let j = choose|j: int| 0 <= j < t.len() && #[trigger] t[j].0 == k;
        crate::table::lemma_entry_in_map(t, j);
        crate::table::lemma_entry_in_map(s, j);
        assert(t[j] == (s[j].0, completed_if(s[j].1, pk)));
    }
    let j = choose|j: int| 0 <= j < s.len() && #[trigger] s[j].0 == pk;
    crate::table::lemma_entry_in_map(s, j);
    assert(t[j] == (s[j].0, completed_if(s[j].1, pk)));
    assert(t[j].0 == pk);
    crate::table::lemma_entry_in_map(t, j);
    law_get_finds_stored(after, pk);
}

/// Listing without completed records shows no completed record; listing
/// a day shows only that day's records.
pub proof fn law_listing_filters(s: Seq<(u64, RecordView)>, day: Date, n: int)
    ensures
        forall|i: int|
            0 <= i < listed(s, false, n).len() ==> !(#[trigger] listed(s, false, n)[i]).completed,
        forall|i: int|
            0 <= i < listed_on(s, false, day, n).len() ==> !(#[trigger] listed_on(
                s,
                false,
                day,
                n,
            )[i]).completed,
        forall|i: int|
            0 <= i < listed_on(s, true, day, n).len() ==> (#[trigger] listed_on(
                s,
                true,
                day,
                n,
            )[i]).date == day,
    decreases n,
{
    if n > 0 {
        law_listing_filters(s, day, n - 1);
    }
}

/// A scheduled record (with no start time of its own) is due at every time
/// of day strictly within `last` of its span, that is after its start less
/// `last` and before its end plus `last`, where neither bound crosses
/// midnight; in particular at every moment strictly inside its span. With
/// no notifications, it is due at no other time of that day.
pub proof fn law_schedule_due_within_span(r: RecordView, last: int, nd: Date, nt: int)
    requires
        r.at is None,
        r.scheduled matches Some(sp) && sp.0 < NANOS_PER_DAY as int && 0 <= sp.1 && 0 <= sp.0 - last
            && sp.1 + last < NANOS_PER_DAY as int,
        0 <= last,
        0 <= nt < NANOS_PER_DAY as int,
    ensures
        ({
            let (s0, s1) = r.scheduled.unwrap();
            &&& s0 - last < nt < s1 + last ==> record_due(r, last, nd, nt) == Outcome::Value(true)
            &&& s0 < nt < s1 ==> record_due(r, last, nd, nt) == Outcome::Value(true)
            &&& r.notifications is None ==> record_due(r, last, nd, nt) == Outcome::Value(
                s0 - last < nt < s1 + last,
            )
        }),
{
    let (s0, s1) = r.scheduled.unwrap();
    assert(wrap_time(s0 - last) == s0 - last) by {
        vstd::arithmetic::div_mod::lemma_small_mod((s0 - last) as nat, NANOS_PER_DAY as nat);
    }
    assert(wrap_time(s1 + last) == s1 + last) by {
        vstd::arithmetic::div_mod::lemma_small_mod((s1 + last) as nat, NANOS_PER_DAY as nat);
    }
}

} // verus!
