use saturn_cli::cli::{set_client_info, set_db_type, set_sync_window};
use saturn_cli::commands::ListType;
use saturn_cli::config::{parse_db_type, Config, DBType};
use saturn_cli::error::SaturnError;
use saturn_cli::export::ExportFormat;
use saturn_cli::loader::UnixFileLoader;
use saturn_cli::record::{
    sort_records, Fields, PresentedRecord, PresentedSchedule, Record, RecordType, RecurringRecord,
};
use saturn_cli::text::{from_chars, to_chars, to_lowercase};
use saturn_cli::time::{now, Date, DateTime, Duration, Time};
use std::cmp::Ordering;

fn date(y: i32, m: u32, d: u32) -> Date {
    Date::from_ymd_opt(y, m, d).unwrap()
}

fn time(h: u32, m: u32, s: u32) -> Time {
    Time::from_hms_opt(h, m, s).unwrap()
}

#[test]
fn rrule_text_is_read_and_written() {
    let base = Record::for_date(date(2024, 3, 10));
    let daily =
        RecurringRecord::from_rrule(base.duplicate(), "RRULE:FREQ=DAILY;INTERVAL=2".to_string())
            .unwrap();
    assert_eq!(daily.recurrence(), Duration::try_days(2).unwrap());
    assert_eq!(daily.to_rrule(), "RRULE:FREQ=DAILY;INTERVAL=2".to_string());

    let weekly =
        RecurringRecord::from_rrule(base.duplicate(), "RRULE:FREQ=weekly;INTERVAL=1".to_string())
            .unwrap();
    assert_eq!(weekly.recurrence(), Duration::try_weeks(1).unwrap());
    assert_eq!(weekly.to_rrule(), "RRULE:FREQ=DAILY;INTERVAL=7".to_string());

    let monthly =
        RecurringRecord::from_rrule(base.duplicate(), "RRULE:INTERVAL=3;FREQ=MONTHLY".to_string())
            .unwrap();
    assert_eq!(monthly.recurrence(), Duration::try_days(90).unwrap());
    assert_eq!(monthly.to_rrule(), "RRULE:FREQ=MONTHLY;INTERVAL=3".to_string());

    let yearly =
        RecurringRecord::from_rrule(base.duplicate(), "RRULE:FREQ=YEARLY;INTERVAL=1".to_string())
            .unwrap();
    assert_eq!(yearly.recurrence(), Duration::try_weeks(52).unwrap());
    assert_eq!(yearly.to_rrule(), "RRULE:FREQ=YEARLY;INTERVAL=2704".to_string());
}

#[test]
fn rule_text_reads_back() {
    let base = Record::for_date(date(2024, 3, 10));
    for days in [1i64, 5, 29, 30, 120, 330] {
        let recurrence = Duration::try_days(days).unwrap();
        let written = RecurringRecord::new(base.duplicate(), recurrence).to_rrule();
        let read = RecurringRecord::from_rrule(base.duplicate(), written).unwrap();
        assert_eq!(read.recurrence(), recurrence);
    }
    // Part of a day, or part of a month, is lost on the way.
    let day_and_a_half = Duration::try_hours(36).unwrap();
    let written = RecurringRecord::new(base.duplicate(), day_and_a_half).to_rrule();
    assert_eq!(written, "RRULE:FREQ=DAILY;INTERVAL=1".to_string());
    let read = RecurringRecord::from_rrule(base.duplicate(), written).unwrap();
    assert_eq!(read.recurrence(), Duration::try_days(1).unwrap());
    let forty_days = Duration::try_days(40).unwrap();
    let written = RecurringRecord::new(base.duplicate(), forty_days).to_rrule();
    let read = RecurringRecord::from_rrule(base.duplicate(), written).unwrap();
    assert_eq!(read.recurrence(), Duration::try_days(30).unwrap());
}

#[test]
fn rule_read_then_written_is_the_same_rule() {
    let base = Record::for_date(date(2024, 3, 10));
    for rule in [
        "RRULE:FREQ=DAILY;INTERVAL=1",
        "RRULE:FREQ=DAILY;INTERVAL=29",
        "RRULE:FREQ=MONTHLY;INTERVAL=1",
        "RRULE:FREQ=MONTHLY;INTERVAL=12",
    ] {
        let read = RecurringRecord::from_rrule(base.duplicate(), rule.to_string()).unwrap();
        assert_eq!(read.to_rrule(), rule.to_string());
    }
}

#[test]
fn lowercase_keywords_read() {
    assert_eq!(to_lowercase("RECUR Tomorrow"), "recur tomorrow".to_string());
}

#[test]
fn rrule_errors() {
    let base = Record::for_date(date(2024, 3, 10));
    assert_eq!(
        RecurringRecord::from_rrule(base.duplicate(), "RRULE:FREQ=HOURLY;INTERVAL=2".to_string())
            .unwrap_err(),
        SaturnError::InvalidFrequency
    );
    assert_eq!(
        RecurringRecord::from_rrule(base.duplicate(), "RRULE:INTERVAL=2".to_string()).unwrap_err(),
        SaturnError::RecurrenceUnparsable
    );
    assert_eq!(
        RecurringRecord::from_rrule(base.duplicate(), "EXRULE:FREQ=DAILY".to_string())
            .unwrap_err(),
        SaturnError::RecurrenceUnparsable
    );
    assert_eq!(
        RecurringRecord::from_rrule(base.duplicate(), "RRULE:FREQ=DAILY;INTERVAL=x".to_string())
            .unwrap_err(),
        SaturnError::InvalidNumber
    );
}

#[test]
fn occurrences_of_a_recurrence() {
    let mut base = Record::for_date(date(2024, 3, 10));
    base.set_scheduled(Some((time(9, 0, 0), time(10, 30, 0))));
    let mut rec = RecurringRecord::new(base, Duration::try_days(1).unwrap());
    rec.set_recurrence_key(4);
    rec.set_internal_key(Some("rec".to_string()));
    let occ = rec.record_from(
        12,
        DateTime {
            date: date(2024, 3, 12),
            time: time(23, 0, 0),
        },
    );
    assert_eq!(occ.primary_key(), 12);
    assert_eq!(occ.recurrence_key(), Some(4));
    assert_eq!(occ.internal_recurrence_key(), Some("rec".to_string()));
    assert_eq!(occ.date(), date(2024, 3, 12));
    assert_eq!(occ.scheduled(), Some((time(23, 0, 0), time(0, 30, 0))));
}

#[test]
fn records_sort_by_date_then_time() {
    let mut a = Record::for_date(date(2024, 3, 10));
    a.set_at(Some(time(9, 0, 0)));
    let mut b = Record::for_date(date(2024, 3, 10));
    b.set_scheduled(Some((time(8, 0, 0), time(9, 0, 0))));
    let mut c = Record::for_date(date(2024, 3, 11));
    c.set_primary_key(1);
    let mut d = Record::for_date(date(2024, 3, 11));
    d.set_primary_key(2);
    assert_eq!(sort_records(&a, &b), Ordering::Greater);
    assert_eq!(sort_records(&b, &a), Ordering::Less);
    assert_eq!(sort_records(&a, &c), Ordering::Less);
    assert_eq!(sort_records(&c, &d), Ordering::Less);
    assert_eq!(sort_records(&d, &c), Ordering::Greater);
    assert_eq!(sort_records(&c, &c), Ordering::Equal);
}

#[test]
fn presented_records_round_trip() {
    let mut r = Record::for_date(date(2024, 3, 10));
    r.set_primary_key(5)
        .set_scheduled(Some((time(7, 5, 0), time(12, 0, 0))))
        .set_detail("Brunch".to_string())
        .add_field("where".to_string(), "home".to_string())
        .add_notification(Duration::try_minutes(10).unwrap());
    let p = PresentedRecord::from_record(r.duplicate());
    assert_eq!(p.scheduled.as_ref().unwrap().to_string(), "07:05 - 12:00".to_string());
    let back = p.to_record(5, None, None, None);
    assert_eq!(back, r);
    let s = PresentedSchedule::from_schedule((time(23, 59, 0), time(0, 1, 0)));
    assert_eq!(s.to_schedule(), (time(23, 59, 0), time(0, 1, 0)));
}

#[test]
fn fields_keep_the_last_value() {
    let mut f = Fields::new();
    f.insert("a".to_string(), "1".to_string());
    f.insert("b".to_string(), "2".to_string());
    f.insert("a".to_string(), "3".to_string());
    assert_eq!(f.get(&"a".to_string()), Some("3".to_string()));
    assert_eq!(f.get(&"b".to_string()), Some("2".to_string()));
    assert_eq!(f.get(&"c".to_string()), None);
}

#[test]
fn export_formats() {
    assert_eq!(ExportFormat::parse_format("JSON"), Ok(ExportFormat::JSON));
    assert_eq!(ExportFormat::parse_format("Yaml"), Ok(ExportFormat::YAML));
    assert_eq!(ExportFormat::parse_format("cbor"), Ok(ExportFormat::CBOR));
    assert_eq!(
        ExportFormat::parse_format("xml"),
        Err(SaturnError::InvalidExportFormat)
    );
    assert_eq!(ExportFormat::YAML.to_string(), "yaml".to_string());
}

#[test]
fn configuration_defaults_and_commands() {
    let mut c = Config::new();
    assert_eq!(c.db_type(), DBType::UnixFile);
    assert_eq!(c.default_duration(), Duration::try_minutes(15).unwrap());
    assert_eq!(c.query_window(), Duration::try_days(30).unwrap());
    assert!(!c.use_24h_time());
    assert_eq!(c.calendar_id(), "primary".to_string());
    assert!(!c.has_client());

    assert_eq!(set_db_type(&mut c, "google".to_string()), Ok(()));
    assert_eq!(c.db_type(), DBType::Google);
    assert_eq!(
        set_db_type(&mut c, "sqlite".to_string()),
        Err(SaturnError::InvalidDbType)
    );
    assert_eq!(c.db_type(), DBType::Google);
    assert_eq!(parse_db_type("unixfile"), Ok(DBType::UnixFile));

    set_client_info(&mut c, "id".to_string(), "secret".to_string());
    assert!(c.has_client());
    assert_eq!(c.client_id(), Some("id".to_string()));
    assert_eq!(c.client_secret(), Some("secret".to_string()));

    set_sync_window(&mut c, Duration::try_hours(2).unwrap());
    assert_eq!(c.sync_duration(), Some(Duration::try_hours(2).unwrap()));
    c.set_default_duration(Some(Duration::try_minutes(30).unwrap()));
    assert_eq!(c.default_duration(), Duration::try_minutes(30).unwrap());
    c.set_use_24h_time(true);
    assert!(c.use_24h_time());
}

#[test]
fn error_messages() {
    assert_eq!(
        SaturnError::TimeMustBeFromOrAt.message(),
        "Time must be 'from' or 'at'".to_string()
    );
    assert_eq!(SaturnError::NoRecordFound.message(), "No Record Found".to_string());
    assert_eq!(SaturnError::InvalidDate.message(), "Invalid Date".to_string());
}

#[test]
fn dates_and_times() {
    assert_eq!(date(2024, 2, 28).succ(), date(2024, 2, 29));
    assert_eq!(date(2023, 2, 28).succ(), date(2023, 3, 1));
    assert_eq!(date(2024, 1, 1).pred(), date(2023, 12, 31));
    assert!(Date::from_ymd_opt(2023, 2, 29).is_none());
    let dt = DateTime {
        date: date(2024, 12, 31),
        time: time(23, 0, 0),
    };
    let later = dt.checked_add(&Duration::try_hours(2).unwrap()).unwrap();
    assert_eq!(later.date, date(2025, 1, 1));
    assert_eq!(later.time, time(1, 0, 0));
    let earlier = dt.checked_add(&Duration::try_days(-366).unwrap()).unwrap();
    assert_eq!(earlier.date, date(2023, 12, 31));
    assert_eq!(Duration::try_hours(49).unwrap().num_days(), 2);
    assert_eq!(Duration::try_days(-15).unwrap().num_weeks(), -2);
    assert_eq!(time(20, 15, 0).hour(), 20);
    assert_eq!(time(20, 15, 0).minute(), 15);
}

#[test]
fn the_clock_reads_a_calendar_day() {
    let n = now();
    assert!(n.date.is_valid());
    assert!(Record::build().date().is_valid());
}

#[test]
fn text_round_trips_and_lowercase() {
    let v = to_chars("Grüße");
    assert_eq!(from_chars(&v), "Grüße".to_string());
    assert_eq!(to_lowercase("ToDaY"), "today".to_string());
}

#[test]
fn loader_keeps_its_path() {
    let l = UnixFileLoader::new("/tmp/saturn.db".to_string());
    assert_eq!(l.path(), "/tmp/saturn.db".to_string());
    assert_eq!(ListType::Search, ListType::Search);
    assert_eq!(Record::for_date(date(2024, 1, 1)).record_type(), RecordType::AllDay);
}

#[test]
fn fields_list_one_value_per_name_in_name_order() {
    let mut f = Fields::new();
    f.insert("room".to_string(), "12".to_string());
    f.insert("Link".to_string(), "x".to_string());
    f.insert("room".to_string(), "14".to_string());
    f.insert("agenda".to_string(), "plan".to_string());
    assert_eq!(
        f.entries(),
        vec![
            ("Link".to_string(), "x".to_string()),
            ("agenda".to_string(), "plan".to_string()),
            ("room".to_string(), "14".to_string()),
        ]
    );
}
