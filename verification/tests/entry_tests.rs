use saturn_cli::duration::{parse_duration, text_bounded};
use saturn_cli::entry::{read_entry, EntryParser};
use saturn_cli::error::{Outcome, SaturnError};
use saturn_cli::memory::MemoryDB;
use saturn_cli::record::{Record, RecordType};
use saturn_cli::time::{now, Date, Duration, Time};

fn words(s: &str) -> Vec<String> {
    s.split(" ").map(|s| s.to_string()).collect::<Vec<String>>()
}

fn time(h: u32, m: u32, s: u32) -> Time {
    Time::from_hms_opt(h, m, s).unwrap()
}

#[test]
fn entry_test_parse_entry() {
    let pm = now().time.hour() >= 12;
    let today = now().date;
    let record = Record::build();

    let mut today_rec = record.duplicate();
    today_rec
        .set_date(today)
        .set_at(Some(time(if pm { 20 } else { 8 }, 0, 0)))
        .add_notification(Duration::try_minutes(5).unwrap())
        .set_detail("Test Today".to_string());

    let mut soda = record.duplicate();
    soda.set_date(Date::from_ymd_opt(today.year, 8, 5).unwrap())
        .set_at(Some(time(if pm { 20 } else { 8 }, 0, 0)))
        .add_notification(Duration::try_minutes(5).unwrap())
        .set_detail("Get a Soda".to_string());

    let mut relax = record.duplicate();
    relax
        .set_date(today.succ())
        .set_at(Some(time(16, 0, 0)))
        .set_detail("Relax".to_string());

    let mut birthday = record.duplicate();
    birthday
        .set_date(Date::from_ymd_opt(today.year, 10, 23).unwrap())
        .set_at(Some(time(7, 30, 0)))
        .add_notification(Duration::try_hours(1).unwrap())
        .set_detail("Tell my daughter 'happy birthday'".to_string());

    let mut new_year = record.duplicate();
    new_year
        .set_date(Date::from_ymd_opt(today.year, 1, 1).unwrap())
        .set_at(Some(time(0, 0, 0)))
        .set_detail("Happy new year!".to_string());

    let mut christmas = record.duplicate();
    christmas
        .set_date(Date::from_ymd_opt(today.year, 12, 25).unwrap())
        .set_scheduled(Some((time(7, 0, 0), time(12, 0, 0))))
        .set_detail("Christmas Morning".to_string());

    let table = vec![
        ("today at 8 notify me 5m Test Today", today_rec),
        ("08/05 at 8 notify me 5m Get a Soda", soda),
        ("tomorrow at 4pm Relax", relax),
        (
            "10/23 at 7:30am notify 1h Tell my daughter 'happy birthday'",
            birthday,
        ),
        ("1/1 at 12am Happy new year!", new_year),
        ("12/25 from 7am to 12pm Christmas Morning", christmas),
    ];

    for (to_parse, t) in table {
        assert_eq!(
            EntryParser::new(words(to_parse), false)
                .to_record()
                .unwrap()
                .record(),
            t,
        )
    }
}

fn fixed_read(s: &str, use_24h: bool, afternoon: bool) -> Outcome<saturn_cli::entry::EntryRecord> {
    let today = Date::from_ymd_opt(2024, 3, 10).unwrap();
    read_entry(&words(s), use_24h, today, afternoon)
}

#[test]
fn entry_with_recurrence_all_day_and_24_hour_clock() {
    match fixed_read("recur 1w 2024/3/11 all day Laundry", false, false) {
        Outcome::Value(e) => {
            let r = e.record();
            assert_eq!(r.date(), Date::from_ymd_opt(2024, 3, 11).unwrap());
            assert_eq!(r.record_type(), RecordType::AllDay);
            assert_eq!(r.detail(), "Laundry".to_string());
            let rec = e.recurrence().unwrap();
            assert_eq!(rec.recurrence(), Duration::try_weeks(1).unwrap());
            assert_eq!(rec.recurrence_key(), 0);
        }
        _ => panic!("the entry should be read"),
    }
    match fixed_read("today at 8 x", true, true) {
        Outcome::Value(e) => assert_eq!(e.record().at(), Some(time(8, 0, 0))),
        _ => panic!("the entry should be read"),
    }
    match fixed_read("today at 8 x", false, true) {
        Outcome::Value(e) => {
            assert_eq!(e.record().at(), Some(time(20, 0, 0)));
            assert!(e.recurrence().is_none());
        }
        _ => panic!("the entry should be read"),
    }
    match fixed_read("yesterday from 9 until 10 notify 15m standup", false, false) {
        Outcome::Value(e) => {
            let r = e.record();
            assert_eq!(r.date(), Date::from_ymd_opt(2024, 3, 9).unwrap());
            assert_eq!(r.scheduled(), Some((time(9, 0, 0), time(10, 0, 0))));
            assert_eq!(
                r.notifications(),
                Some(vec![Duration::try_minutes(15).unwrap()])
            );
        }
        _ => panic!("the entry should be read"),
    }
}

#[test]
fn entry_errors() {
    assert!(matches!(
        fixed_read("today by 8 x", false, false),
        Outcome::Fail(SaturnError::TimeMustBeFromOrAt)
    ));
    assert!(matches!(
        fixed_read("recur 123456789012y today at 8 x", false, false),
        Outcome::Halt
    ));
    assert!(matches!(
        fixed_read("2024-02-30 at 8 x", false, false),
        Outcome::Halt
    ));
    assert!(matches!(
        fixed_read("today at 25 x", false, false),
        Outcome::Halt
    ));
}

#[test]
fn recording_an_entry_assigns_keys() {
    let mut db = MemoryDB::new();
    db.record_entry(EntryParser::new(words("today at 8pm Dinner"), false))
        .unwrap();
    db.record_entry(EntryParser::new(words("recur 1d today at 7am Walk"), false))
        .unwrap();
    assert_eq!(db.primary_key(), 2);
    assert_eq!(db.recurrence_key(), 1);
    let dinner = db.get(1).unwrap();
    assert_eq!(dinner.detail(), "Dinner".to_string());
    let walk = db.get_recurring(1).unwrap();
    assert_eq!(walk.recurrence_key(), 1);
    assert_eq!(walk.record_copy().primary_key(), 2);
    assert_eq!(walk.record_copy().recurrence_key(), Some(1));
    assert_eq!(db.get(2), Err(SaturnError::NoRecordFound));
}

#[test]
fn durations_are_read_by_the_duration_reader() {
    assert_eq!(parse_duration("5m").unwrap(), Duration::try_minutes(5).unwrap());
    assert_eq!(
        parse_duration("2h15m12s").unwrap(),
        Duration::try_seconds(2 * 3600 + 15 * 60 + 12).unwrap()
    );
    assert_eq!(parse_duration("soon").unwrap(), Duration::zero());
}

#[test]
fn entry_with_long_recurrence() {
    match fixed_read("recur 100000000000s today at 8 x", false, false) {
        Outcome::Value(e) => {
            let rec = e.recurrence().unwrap();
            assert_eq!(rec.recurrence(), Duration::try_seconds(100_000_000_000).unwrap());
            assert_eq!(rec.record_copy(), e.record());
        }
        _ => panic!("the entry should be read"),
    }
}

#[test]
fn duration_texts_within_the_reader() {
    let fits = |s: &str| text_bounded(&s.chars().collect::<Vec<char>>());
    assert!(fits("5m"));
    assert!(fits("2h15m12s"));
    assert!(fits("100000000000s"));
    // Amounts without a unit are not read, so they do not count.
    assert!(fits("99999999999999999999999xx"));
    assert!(fits("1000000y"));
    assert!(!fits("1000000000y"));
    assert!(!fits("20000000000000000000ns"));
    // `m` after a larger unit to its right counts months.
    assert!(fits("4000000000m"));
    assert!(!fits("4000000000m 1h"));
}

#[test]
fn entry_recur_clause_only_adds_the_recurrence() {
    for rest in [
        "tomorrow at 8pm Take a Shower",
        "2024/3/11 all day Laundry",
        "today from 9 to 10 notify me 15m standup",
        "",
    ] {
        let today = Date::from_ymd_opt(2024, 3, 10).unwrap();
        let rest_words: Vec<String> = if rest.is_empty() { Vec::new() } else { words(rest) };
        let plain = read_entry(&rest_words, false, today, false);
        let mut args = vec!["ReCuR".to_string(), "1d".to_string()];
        args.extend(rest_words);
        let repeated = read_entry(&args, false, today, false);
        match (plain, repeated) {
            (Outcome::Value(a), Outcome::Value(b)) => {
                assert!(a.recurrence().is_none());
                assert_eq!(a.record(), b.record());
                let rec = b.recurrence().unwrap();
                assert_eq!(rec.recurrence(), Duration::try_days(1).unwrap());
                assert_eq!(rec.record_copy(), b.record());
                assert_eq!(rec.recurrence_key(), 0);
            }
            _ => panic!("both entries should be read"),
        }
    }
}

#[test]
fn duration_nanoseconds_beyond_a_signed_integer_are_refused() {
    let text = "10000000000000000000ns";
    assert!(text_bounded(&text.chars().collect::<Vec<char>>()));
    assert_eq!(parse_duration(text), None);
    assert_eq!(
        parse_duration("9223372036854775807ns"),
        Duration::from_nanos(9_223_372_036_854_775_807)
    );
}
