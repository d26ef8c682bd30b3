use saturn_cli::error::SaturnError;
use saturn_cli::memory::{schedule_in_window, MemoryDB};
use saturn_cli::record::{Record, RecurringRecord};
use saturn_cli::entry::EntryParser;
use saturn_cli::remote::{KeyedEntry, RemoteDB};
use saturn_cli::time::{Date, DateTime, Duration, Time};

fn date(y: i32, m: u32, d: u32) -> Date {
    Date::from_ymd_opt(y, m, d).unwrap()
}

fn time(h: u32, m: u32, s: u32) -> Time {
    Time::from_hms_opt(h, m, s).unwrap()
}

#[test]
fn memory_records_read_back_in_key_order() {
    let mut db = MemoryDB::new();
    let mut seed: u64 = 0x5eed;
    let mut next = || {
        seed = seed.wrapping_mul(6364136223846793005).wrapping_add(1442695040888963407);
        (seed >> 33) as u32
    };

    let count = (next() as u64 % 50) + 1;
    for x in 0..count {
        let mut r = Record::build();
        r.set_primary_key(x)
            .set_date(date(
                (next() % 5) as i32 + 2023,
                next() % 12 + 1,
                next() % 28 + 1,
            ))
            .set_at(Some(time(next() % 24, next() % 60, 0)));
        db.record(r);
    }

    let listed = db.list_all(true);
    assert_eq!(listed.len() as u64, count);
    for (i, r) in listed.iter().enumerate() {
        assert_eq!(r.primary_key(), i as u64);
        assert_eq!(db.get(i as u64).unwrap(), r.duplicate());
    }
    assert_eq!(db.primary_key(), 0);
}

#[test]
fn memory_listing_and_completion() {
    let mut db = MemoryDB::new();
    let today = date(2024, 3, 10);
    for (pk, d) in [(3u64, today), (1, date(2024, 3, 11)), (2, today)] {
        let mut r = Record::for_date(d);
        r.set_primary_key(pk);
        db.record(r);
    }
    let all = db.list_all(false);
    assert_eq!(
        all.iter().map(|r| r.primary_key()).collect::<Vec<u64>>(),
        vec![1, 2, 3]
    );
    let on_day = db.list_today(false, today);
    assert_eq!(
        on_day.iter().map(|r| r.primary_key()).collect::<Vec<u64>>(),
        vec![2, 3]
    );

    db.complete_task(2);
    assert!(db.get(2).unwrap().completed());
    assert_eq!(db.list_all(false).len(), 2);
    assert_eq!(db.list_all(true).len(), 3);
    assert_eq!(db.list_today(false, today).len(), 1);

    db.delete(2);
    assert_eq!(db.get(2), Err(SaturnError::NoRecordFound));
    assert_eq!(db.list_all(true).len(), 2);
}

#[test]
fn memory_recurrences_fill_in_occurrences() {
    let mut db = MemoryDB::new();
    let today = date(2024, 3, 10);
    let mut base = Record::for_date(date(2024, 3, 8));
    base.set_at(Some(time(9, 0, 0))).set_detail("Walk".to_string());
    let mut rec = RecurringRecord::new(base, Duration::try_days(1).unwrap());
    rec.set_recurrence_key(1);
    db.record_recurrence(rec);
    db.set_recurrence_key(1);

    db.update_recurrence(today).unwrap();
    // 8th, 9th, 10th and 11th (tomorrow)
    let all = db.list_all(true);
    assert_eq!(all.len(), 4);
    assert_eq!(db.primary_key(), 4);
    for (i, r) in all.iter().enumerate() {
        assert_eq!(r.primary_key(), i as u64 + 1);
        assert_eq!(r.recurrence_key(), Some(1));
        assert_eq!(r.at(), Some(time(9, 0, 0)));
        assert_eq!(r.date(), date(2024, 3, 8 + i as u32));
        assert_eq!(r.detail(), "Walk".to_string());
    }
    assert_eq!(db.list_recurrence().len(), 1);
    assert_eq!(db.get_recurring(1).unwrap().recurrence_key(), 1);
    assert!(db.get_recurring(2).is_err());
    assert_eq!(db.delete_recurrence(1).len(), 0);
    assert!(db.list_recurrence().is_empty());
}

#[test]
fn memory_second_update_adds_nothing() {
    let mut db = MemoryDB::new();
    let today = date(2024, 3, 10);
    let mut base = Record::for_date(date(2024, 3, 6));
    base.set_scheduled(Some((time(9, 0, 0), time(10, 0, 0))));
    let mut rec = RecurringRecord::new(base, Duration::try_days(2).unwrap());
    rec.set_recurrence_key(1);
    db.record_recurrence(rec);
    db.set_recurrence_key(1);

    db.update_recurrence(today).unwrap();
    // 6th, 8th, 10th
    let first = db.list_all(true);
    assert_eq!(first.len(), 3);
    assert_eq!(db.primary_key(), 3);

    db.update_recurrence(today).unwrap();
    assert_eq!(db.list_all(true), first);
    assert_eq!(db.primary_key(), 3);

    // The next day brings the occurrence of the 12th, which is then
    // tomorrow; the earlier ones are found and not added again.
    db.update_recurrence(date(2024, 3, 11)).unwrap();
    let later = db.list_all(true);
    assert_eq!(later.len(), 4);
    assert_eq!(db.primary_key(), 4);
    assert_eq!(later[3].date(), date(2024, 3, 12));
    assert_eq!(later[3].scheduled(), Some((time(9, 0, 0), time(10, 0, 0))));
}

#[test]
fn memory_missing_occurrences_are_filled_in() {
    let mut db = MemoryDB::new();
    let today = date(2024, 3, 10);
    let mut base = Record::for_date(date(2024, 3, 8));
    base.set_at(Some(time(9, 0, 0)));
    let mut rec = RecurringRecord::new(base, Duration::try_days(1).unwrap());
    rec.set_recurrence_key(1);
    db.record_recurrence(rec);
    db.set_recurrence_key(1);
    db.update_recurrence(today).unwrap();
    assert_eq!(db.list_all(true).len(), 4);
    // The occurrence of the 9th goes missing; the next update brings it back
    // and adds nothing else.
    db.delete(2);
    assert_eq!(db.list_all(true).len(), 3);
    db.update_recurrence(today).unwrap();
    let all = db.list_all(true);
    assert_eq!(all.len(), 4);
    assert_eq!(db.primary_key(), 5);
    assert_eq!(db.get(5).unwrap().date(), date(2024, 3, 9));
}

#[test]
fn memory_recurrence_that_does_not_move_stops() {
    let mut db = MemoryDB::new();
    let base = Record::for_date(date(2024, 3, 8));
    let rec = RecurringRecord::new(base, Duration::zero());
    db.record_recurrence(rec);
    assert_eq!(
        db.update_recurrence(date(2024, 3, 10)),
        Err(SaturnError::OutOfRange)
    );
}

#[test]
fn memory_events_now() {
    let mut db = MemoryDB::new();
    let today = date(2024, 3, 10);
    let now = DateTime {
        date: today,
        time: time(8, 55, 0),
    };

    let mut soon = Record::for_date(today);
    soon.set_primary_key(1).set_at(Some(time(9, 0, 0)));
    db.record(soon);

    let mut later = Record::for_date(today);
    later.set_primary_key(2).set_at(Some(time(11, 0, 0)));
    db.record(later);

    let mut meeting = Record::for_date(today);
    meeting
        .set_primary_key(3)
        .set_scheduled(Some((time(9, 0, 0), time(10, 0, 0))));
    db.record(meeting);

    let mut done = Record::for_date(today);
    done.set_primary_key(4)
        .set_at(Some(time(9, 0, 0)))
        .set_completed(true);
    db.record(done);

    let mut other_day = Record::for_date(date(2024, 3, 12));
    other_day.set_primary_key(5).set_at(Some(time(9, 0, 0)));
    db.record(other_day);

    let well = Duration::try_minutes(10).unwrap();
    let due = db.events_now(well, false, now).unwrap();
    assert_eq!(
        due.iter().map(|r| r.primary_key()).collect::<Vec<u64>>(),
        vec![1, 3]
    );
    let due = db.events_now(well, true, now).unwrap();
    assert_eq!(
        due.iter().map(|r| r.primary_key()).collect::<Vec<u64>>(),
        vec![1, 3, 4]
    );
}

#[test]
fn memory_notification_fires_in_one_minute() {
    let mut db = MemoryDB::new();
    let today = date(2024, 3, 10);
    let mut party = Record::for_date(date(2024, 3, 11));
    party
        .set_primary_key(1)
        .set_all_day()
        .add_notification(Duration::try_hours(1).unwrap());
    db.record(party);

    let well = Duration::try_seconds(10).unwrap();
    let at = |h: u32, m: u32, s: u32| DateTime { date: today, time: time(h, m, s) };
    let due_keys = |now: DateTime| {
        db.events_now(well, false, now)
            .unwrap()
            .iter()
            .map(|r| r.primary_key())
            .collect::<Vec<u64>>()
    };
    assert_eq!(due_keys(at(22, 59, 59)), Vec::<u64>::new());
    assert_eq!(due_keys(at(23, 0, 0)), vec![1]);
    assert_eq!(due_keys(at(23, 0, 59)), vec![1]);
    assert_eq!(due_keys(at(23, 1, 0)), Vec::<u64>::new());
}

#[test]
fn memory_timed_events_are_shown_around_their_start() {
    let mut db = MemoryDB::new();
    let today = date(2024, 3, 10);
    let mut call = Record::for_date(today);
    call.set_primary_key(1).set_at(Some(time(9, 0, 0)));
    db.record(call);
    let well = Duration::try_minutes(2).unwrap();
    let at = |h: u32, m: u32, s: u32| DateTime { date: today, time: time(h, m, s) };
    let due = |now: DateTime| {
        db.events_now(well, false, now)
            .unwrap()
            .iter()
            .map(|r| r.primary_key())
            .collect::<Vec<u64>>()
    };
    assert_eq!(due(at(8, 57, 0)), Vec::<u64>::new());
    assert_eq!(due(at(8, 59, 0)), vec![1]);
    // A minute past its start, it is still within the well.
    assert_eq!(due(at(9, 1, 0)), vec![1]);
    assert_eq!(due(at(9, 3, 0)), Vec::<u64>::new());
}

#[test]
fn memory_timed_notification_fires_once() {
    let mut db = MemoryDB::new();
    let today = date(2024, 3, 10);
    let mut dinner = Record::for_date(today);
    dinner
        .set_primary_key(1)
        .set_at(Some(time(19, 0, 0)))
        .add_notification(Duration::try_minutes(30).unwrap());
    db.record(dinner);
    let well = Duration::try_minutes(2).unwrap();
    let at = |h: u32, m: u32, s: u32| DateTime { date: today, time: time(h, m, s) };
    let due = |now: DateTime| {
        db.events_now(well, false, now)
            .unwrap()
            .iter()
            .map(|r| r.primary_key())
            .collect::<Vec<u64>>()
    };
    assert_eq!(due(at(18, 29, 59)), Vec::<u64>::new());
    assert_eq!(due(at(18, 30, 10)), vec![1]);
    assert_eq!(due(at(18, 31, 10)), Vec::<u64>::new());
}

#[test]
fn remote_maps_both_ways() {
    let mut db = RemoteDB::new("primary".to_string());
    assert_eq!(db.calendar_id(), "primary".to_string());
    db.add_internal(1, "evt-a".to_string());
    db.add("evt-b".to_string(), 2);
    assert_eq!(db.lookup(1), Some("evt-a".to_string()));
    assert_eq!(db.lookup_internal("evt-a".to_string()), Some(1));
    assert_eq!(db.lookup(2), Some("evt-b".to_string()));
    assert_eq!(db.lookup_internal("evt-b".to_string()), Some(2));
    assert_eq!(db.lookup(3), None);

    db.remove_by_internal_id(1);
    assert_eq!(db.lookup(1), None);
    assert_eq!(db.lookup_internal("evt-a".to_string()), None);

    db.remove_by_public_id("evt-b".to_string());
    assert_eq!(db.lookup(2), None);
    assert_eq!(db.lookup_internal("evt-b".to_string()), None);

    db.add_recurring_internal(7, "rec-a".to_string());
    db.add_recurring("rec-b".to_string(), 8);
    assert_eq!(db.recurring_lookup(7), Some("rec-a".to_string()));
    assert_eq!(db.recurring_lookup_internal("rec-b".to_string()), Some(8));
    db.remove_recurring_by_internal_id(7);
    db.remove_recurring_by_public_id("rec-b".to_string());
    assert_eq!(db.recurring_lookup(7), None);
    assert_eq!(db.recurring_lookup(8), None);
}

#[test]
fn remote_assigns_keys_to_remote_records() {
    let mut db = RemoteDB::new("primary".to_string());
    let mut a = Record::for_date(date(2024, 3, 10));
    a.set_internal_key(Some("evt-a".to_string()));
    a.set_internal_recurrence_key(Some("rec-a".to_string()));
    let mut b = Record::for_date(date(2024, 3, 10));
    b.set_internal_key(Some("evt-a".to_string()));
    let c = Record::for_date(date(2024, 3, 10));

    let out = db.record_updates(vec![a, b, c]);
    assert_eq!(out[0].primary_key(), 1);
    assert_eq!(out[0].recurrence_key(), Some(1));
    // the same remote id is given the same key
    assert_eq!(out[1].primary_key(), 1);
    assert_eq!(out[2].primary_key(), 0);
    assert_eq!(db.primary_key(), 1);
    assert_eq!(db.recurrence_key(), 1);
    assert_eq!(db.lookup(1), Some("evt-a".to_string()));
    assert_eq!(db.recurring_lookup(1), Some("rec-a".to_string()));

    let key = db.record_internal("evt-z".to_string(), None);
    assert_eq!(key, 2);
    assert_eq!(db.record_internal("evt-y".to_string(), Some(40)), 40);
    assert_eq!(db.lookup_internal("evt-y".to_string()), Some(40));

    let mut rec = RecurringRecord::new(Record::for_date(date(2024, 3, 10)), Duration::zero());
    rec.set_internal_key(Some("rec-a".to_string()));
    let outs = db.record_recurring_updates(vec![rec]);
    assert_eq!(outs[0].recurrence_key(), 1);
    assert_eq!(outs[0].record_copy().recurrence_key(), Some(1));

    let ids = db.delete_recurrence(1);
    assert!(ids.is_empty());
    assert_eq!(db.recurring_lookup(1), None);
    assert_eq!(db.lookup(1), None);
}

#[test]
fn memory_schedule_window() {
    let well = Duration::try_minutes(1).unwrap();
    let at = |h: u32, m: u32, s: u32| DateTime {
        date: date(2024, 3, 10),
        time: time(h, m, s),
    };
    assert_eq!(schedule_in_window(time(9, 0, 0), &well, at(8, 59, 30)), Some(true));
    assert_eq!(schedule_in_window(time(9, 0, 0), &well, at(9, 0, 59)), Some(true));
    assert_eq!(schedule_in_window(time(9, 0, 0), &well, at(8, 59, 0)), Some(false));
    assert_eq!(schedule_in_window(time(9, 0, 0), &well, at(9, 1, 0)), Some(false));
    // the window reaches into the day before
    assert_eq!(schedule_in_window(time(0, 0, 30), &well, at(0, 0, 10)), Some(true));
    // a bound before the first representable day
    let first = DateTime {
        date: date(-262143, 1, 1),
        time: time(0, 0, 10),
    };
    assert_eq!(schedule_in_window(time(0, 0, 30), &well, first), None);
}

#[test]
fn remote_keys_for_entries() {
    let mut db = RemoteDB::new("primary".to_string());
    let parser = EntryParser::new(
        vec![
            "today".to_string(),
            "at".to_string(),
            "8pm".to_string(),
            "Dinner".to_string(),
        ],
        false,
    );
    match db.keyed_entry(parser.to_record().unwrap()) {
        KeyedEntry::Single(r) => assert_eq!(r.primary_key(), 1),
        other => panic!("unexpected {:?}", other),
    }
    let parser = EntryParser::new(
        vec![
            "recur".to_string(),
            "1d".to_string(),
            "today".to_string(),
            "at".to_string(),
            "8pm".to_string(),
            "Dinner".to_string(),
        ],
        false,
    );
    match db.keyed_entry(parser.to_record().unwrap()) {
        KeyedEntry::Repeated(r) => {
            assert_eq!(r.recurrence_key(), 1);
            assert_eq!(r.record_copy().primary_key(), 2);
            assert_eq!(r.record_copy().recurrence_key(), Some(1));
        }
        other => panic!("unexpected {:?}", other),
    }
    assert_eq!(db.primary_key(), 2);
    assert_eq!(db.recurrence_key(), 1);
}

#[test]
fn remote_stored_recurrence() {
    let mut db = RemoteDB::new("primary".to_string());
    let mut record = Record::for_date(date(2024, 3, 10));
    record.set_at(Some(time(9, 0, 0)));
    let mut rec = RecurringRecord::new(record, Duration::try_days(1).unwrap());
    db.stored_recurrence(&mut rec, "remote".to_string());
    assert_eq!(rec.internal_key(), Some("remote".to_string()));
    assert_eq!(rec.recurrence_key(), 1);
    let inner = rec.record_copy();
    assert_eq!(inner.internal_key(), Some("remote".to_string()));
    assert_eq!(inner.internal_recurrence_key(), Some("remote".to_string()));
    assert_eq!(inner.primary_key(), 1);
    assert_eq!(inner.recurrence_key(), Some(1));
    assert_eq!(db.primary_key(), 1);
    assert_eq!(db.recurrence_key(), 1);

    db.add("remote".to_string(), 1);
    db.add_recurring("remote".to_string(), 1);
    assert_eq!(db.id_entries(), vec![("remote".to_string(), 1)]);
    assert_eq!(db.recurring_id_entries(), vec![("remote".to_string(), 1)]);
}
