use saturn_cli::config::{Config, DBType};
use saturn_cli::error::{Outcome, SaturnError};
use saturn_cli::google::{
    event_span, event_texts_at, offset_text, recurrence_from, utc_text, remote_events_due, CalendarEvent, EventEnd, DefaultReminder, EventCalendarDate,
    EventReminder, EventStatus, GoogleClient, ReminderMethod,
};
use saturn_cli::record::{Record, RecordType, RecurringRecord};
use saturn_cli::time::{window_at, Date, DateTime, Duration, Time};

fn date(y: i32, m: u32, d: u32) -> Date {
    Date::from_ymd_opt(y, m, d).unwrap()
}

fn time(h: u32, m: u32, s: u32) -> Time {
    Time::from_hms_opt(h, m, s).unwrap()
}

fn moment(d: Date, t: Time) -> DateTime {
    DateTime { date: d, time: t }
}

fn blank_event() -> CalendarEvent {
    CalendarEvent {
        id: None,
        calendar_id: None,
        ical_uid: None,
        start: None,
        end: None,
        original_start_time: None,
        end_time_unspecified: None,
        reminders: None,
        summary: None,
        recurrence: None,
        status: None,
    }
}

fn at_text(text: &str) -> Option<EventCalendarDate> {
    Some(EventCalendarDate {
        date: None,
        date_time: Some(text.to_string()),
    })
}

fn day_text(text: &str) -> Option<EventCalendarDate> {
    Some(EventCalendarDate {
        date: Some(text.to_string()),
        date_time: None,
    })
}

fn client() -> GoogleClient {
    let mut config = Config::new();
    config.set_db_type(DBType::Google);
    config.set_client_info("id".to_string(), "secret".to_string());
    config.set_access_token(Some("token".to_string()));
    GoogleClient::new(config).unwrap()
}

fn minutes(m: i64) -> Duration {
    Duration::try_minutes(m).unwrap()
}

fn value<T>(o: Outcome<T>) -> T {
    match o {
        Outcome::Value(v) => v,
        Outcome::Fail(e) => panic!("unexpected error {:?}", e),
        Outcome::Halt => panic!("unexpected stop"),
    }
}

#[test]
fn google_client_needs_settings() {
    let config = Config::new();
    assert_eq!(
        GoogleClient::new(config).err(),
        Some(SaturnError::NotRemoteDatabase)
    );

    let mut config = Config::new();
    config.set_db_type(DBType::Google);
    assert_eq!(GoogleClient::new(config).err(), Some(SaturnError::NoClientInfo));

    let mut config = Config::new();
    config.set_db_type(DBType::Google);
    config.set_client_info("id".to_string(), "secret".to_string());
    assert_eq!(GoogleClient::new(config).err(), Some(SaturnError::NoAccessToken));

    let c = client();
    assert_eq!(c.pick_uid(), 1);
}

#[test]
fn google_scheduled_event() {
    let mut c = client();
    let mut event = blank_event();
    event.id = Some("abc".to_string());
    event.ical_uid = Some("UID:42".to_string());
    event.start = at_text("2024-03-10T09:00:00+00:00");
    event.end = at_text("2024-03-10T10:00:00+00:00");
    event.summary = Some("Meeting".to_string());
    let now = moment(date(2024, 3, 1), time(12, 0, 0));
    let start = Some(moment(date(2024, 3, 10), time(9, 0, 0)));
    let end = Some(moment(date(2024, 3, 10), time(10, 0, 0)));
    let r = value(c.event_record(&event, start, end, now));
    assert_eq!(r.record_type(), RecordType::Schedule);
    assert_eq!(r.date(), date(2024, 3, 10));
    assert_eq!(r.scheduled(), Some((time(9, 0, 0), time(10, 0, 0))));
    assert_eq!(r.detail(), "Meeting");
    assert_eq!(r.internal_key(), Some("abc".to_string()));
    assert_eq!(r.internal_recurrence_key(), Some("abc".to_string()));
    assert_eq!(r.notifications(), None);
    assert_eq!(c.uid_of(&"abc".to_string()), Some(42));
    assert_eq!(c.pick_uid(), 43);
}

#[test]
fn google_event_kinds() {
    let mut c = client();
    let now = moment(date(2024, 3, 1), time(12, 0, 0));

    // a day apart: a whole-day record on the day of its start
    let mut event = blank_event();
    event.start = Some(EventCalendarDate {
        date: Some("2024-03-11".to_string()),
        date_time: Some("x".to_string()),
    });
    event.end = at_text("y");
    let start = Some(moment(date(2024, 3, 10), time(0, 0, 0)));
    let end = Some(moment(date(2024, 3, 11), time(0, 0, 0)));
    let r = value(c.event_record(&event, start, end, now));
    assert_eq!(r.record_type(), RecordType::AllDay);
    assert_eq!(r.date(), date(2024, 3, 11));
    assert_eq!(r.detail(), "No summary provided");

    // only a start: a timed record
    let mut event = blank_event();
    event.start = at_text("x");
    let start = Some(moment(date(2024, 3, 10), time(8, 30, 0)));
    let r = value(c.event_record(&event, start, None, now));
    assert_eq!(r.record_type(), RecordType::At);
    assert_eq!(r.at(), Some(time(8, 30, 0)));
    assert_eq!(r.date(), date(2024, 3, 10));

    // nothing: a whole-day record today
    let r = value(c.event_record(&blank_event(), None, None, now));
    assert_eq!(r.record_type(), RecordType::AllDay);
    assert_eq!(r.date(), date(2024, 3, 1));

    // an unspecified end without a moment stops the reading
    let mut event = blank_event();
    event.start = at_text("x");
    event.end = Some(EventCalendarDate {
        date: None,
        date_time: None,
    });
    event.end_time_unspecified = Some(true);
    let start = Some(moment(date(2024, 3, 10), time(8, 30, 0)));
    assert!(matches!(
        c.event_record(&event, start, None, now),
        Outcome::Halt
    ));
}

#[test]
fn google_event_reminders() {
    let mut c = client();
    let now = moment(date(2024, 3, 1), time(12, 0, 0));
    let mut event = blank_event();
    event.reminders = Some(EventReminder {
        overrides: Some(vec![
            DefaultReminder {
                method: ReminderMethod::EMail,
                minutes: 5,
            },
            DefaultReminder {
                method: ReminderMethod::PopUp,
                minutes: 30,
            },
        ]),
        use_default: true,
    });
    event.ical_uid = Some("42".to_string());
    event.id = Some("abc".to_string());
    let r = value(c.event_record(&event, None, None, now));
    assert_eq!(r.notifications(), Some(vec![minutes(10), minutes(30)]));
    // an identifier without `UID:` names no number
    assert_eq!(c.uid_of(&"abc".to_string()), None);
}

#[test]
fn google_record_as_event() {
    let mut c = client();
    let mut record = Record::for_date(date(2024, 3, 10));
    record
        .set_at(Some(time(9, 0, 0)))
        .set_detail("Dentist".to_string());
    record.set_notifications(Some(vec![minutes(10), minutes(5)]));
    let event = c.fill_event(
        "primary".to_string(),
        &record,
        None,
        "start".to_string(),
        "end".to_string(),
    );
    assert_eq!(event.ical_uid, Some("UID:1".to_string()));
    assert_eq!(event.calendar_id, Some("primary".to_string()));
    assert_eq!(event.summary, Some("Dentist".to_string()));
    assert_eq!(event.id, None);
    let start = event.start.unwrap();
    assert_eq!(start.date_time, Some("start".to_string()));
    assert_eq!(start.date, None);
    assert_eq!(event.end.unwrap().date_time, Some("end".to_string()));
    let reminders = event.reminders.unwrap();
    assert!(reminders.use_default);
    assert_eq!(
        reminders.overrides,
        Some(vec![DefaultReminder {
            method: ReminderMethod::PopUp,
            minutes: 5
        }])
    );

    // a record with a remote key keeps its new number under the key
    record.set_internal_key(Some("k".to_string()));
    record.set_notifications(Some(vec![minutes(10)]));
    let event = c.fill_event(
        "primary".to_string(),
        &record,
        None,
        "s".to_string(),
        "e".to_string(),
    );
    assert_eq!(event.ical_uid, Some("UID:1".to_string()));
    assert_eq!(event.id, Some("k".to_string()));
    assert!(event.reminders.is_none());
    assert_eq!(c.uid_of(&"k".to_string()), Some(1));
    let again = c.fill_event(
        "primary".to_string(),
        &record,
        None,
        "s".to_string(),
        "e".to_string(),
    );
    assert_eq!(again.ical_uid, Some("UID:1".to_string()));

    // an existing event keeps what the record does not set
    let mut existing = blank_event();
    existing.id = Some("remote".to_string());
    existing.ical_uid = Some("UID:9".to_string());
    existing.status = Some(EventStatus::Confirmed);
    record.set_notifications(Some(Vec::new()));
    let event = c.fill_event(
        "other".to_string(),
        &record,
        Some(existing),
        "s".to_string(),
        "e".to_string(),
    );
    assert_eq!(event.id, Some("remote".to_string()));
    assert_eq!(event.ical_uid, Some("UID:9".to_string()));
    assert_eq!(event.status, Some(EventStatus::Confirmed));
    assert_eq!(event.calendar_id, Some("other".to_string()));
    let reminders = event.reminders.unwrap();
    assert!(!reminders.use_default);
    assert!(reminders.overrides.is_none());
}

#[test]
fn google_record_to_event_moments() {
    let mut c = client();
    let mut record = Record::for_date(date(2024, 3, 10));
    record.set_at(Some(time(9, 0, 0)));
    let event = c
        .record_to_event("primary".to_string(), &record, None)
        .unwrap();
    let start = event.start.unwrap().date_time.unwrap();
    let end = event.end.unwrap().date_time.unwrap();
    assert!(start.ends_with("+00:00"));
    let s = chrono::DateTime::parse_from_rfc3339(&start).unwrap();
    let e = chrono::DateTime::parse_from_rfc3339(&end).unwrap();
    assert_eq!((e - s).num_minutes(), 15);

    let mut whole = Record::for_date(date(2024, 3, 10));
    whole.set_all_day();
    let event = c
        .record_to_event("primary".to_string(), &whole, None)
        .unwrap();
    let s = chrono::DateTime::parse_from_rfc3339(&event.start.unwrap().date_time.unwrap()).unwrap();
    let e = chrono::DateTime::parse_from_rfc3339(&event.end.unwrap().date_time.unwrap()).unwrap();
    assert_eq!((e - s).num_hours(), 24);
}

#[test]
fn google_recurrence_rules() {
    let mut record = Record::for_date(date(2024, 3, 10));
    record.set_at(Some(time(9, 0, 0)));

    let mut event = blank_event();
    event.id = Some("rep".to_string());
    event.recurrence = Some(vec![
        "BAD".to_string(),
        "RRULE:FREQ=WEEKLY;INTERVAL=1".to_string(),
    ]);
    let r = value(recurrence_from(&event, record.duplicate()));
    assert_eq!(r.recurrence(), Duration::try_weeks(1).unwrap());
    assert_eq!(r.internal_key(), Some("rep".to_string()));
    assert_eq!(r.record_copy().internal_recurrence_key(), Some("rep".to_string()));

    event.recurrence = Some(vec!["BAD".to_string()]);
    assert!(matches!(
        recurrence_from(&event, record.duplicate()),
        Outcome::Fail(SaturnError::NoRecurrenceFound)
    ));
    event.recurrence = None;
    assert!(matches!(
        recurrence_from(&event, record.duplicate()),
        Outcome::Fail(SaturnError::NoRecurrenceData)
    ));
    event.recurrence = Some(vec!["RRULE".to_string()]);
    assert!(matches!(
        recurrence_from(&event, record.duplicate()),
        Outcome::Halt
    ));
}

#[test]
fn google_short_recurrence_refused() {
    let mut c = client();
    let mut record = Record::for_date(date(2024, 3, 10));
    record.set_at(Some(time(9, 0, 0)));
    let hourly = RecurringRecord::new(record, Duration::try_hours(1).unwrap());
    assert_eq!(
        c.recurrence_to_event("primary".to_string(), &hourly, None)
            .err(),
        Some(SaturnError::RecurrenceTooShort)
    );
}

#[test]
fn google_due_records() {
    let today = date(2024, 3, 10);
    let now = moment(today, time(8, 55, 0));
    let mut soon = Record::for_date(today);
    soon.set_primary_key(1).set_at(Some(time(9, 0, 0)));
    let mut later = Record::for_date(today);
    later.set_primary_key(2).set_at(Some(time(11, 0, 0)));
    let mut noted = Record::for_date(today);
    noted
        .set_primary_key(3)
        .set_at(Some(time(10, 0, 0)))
        .add_notification(minutes(65));
    let mut past = Record::for_date(today);
    past.set_primary_key(4).set_at(Some(time(8, 0, 0)));
    let records = vec![soon, later, noted, past];
    let due = value(remote_events_due(&records, &minutes(10), &now));
    assert_eq!(
        due.iter().map(|r| r.primary_key()).collect::<Vec<u64>>(),
        vec![1, 3]
    );
}

#[test]
fn google_query_window() {
    let now = DateTime {
        date: date(2024, 3, 10),
        time: Time::from_hms_nano_opt(13, 45, 30, 500).unwrap(),
    };
    let (lo, hi) = window_at(&Duration::try_days(1).unwrap(), now).unwrap();
    assert_eq!(lo.date, date(2024, 3, 9));
    assert_eq!(lo.time, Time::from_hms_nano_opt(0, 0, 0, 500).unwrap());
    assert_eq!(hi.date, date(2024, 3, 11));
    assert_eq!(hi.time, Time::from_hms_nano_opt(0, 0, 0, 500).unwrap());
}

#[test]
fn google_listing_by_day() {
    let mut c = client();
    let lo = moment(date(2024, 3, 10), time(0, 0, 0));
    let hi = moment(date(2024, 3, 13), time(0, 0, 0));

    let mut series = blank_event();
    series.recurrence = Some(vec!["RRULE:FREQ=DAILY;INTERVAL=1".to_string()]);
    let occurrence = |day: &str, status: Option<EventStatus>, summary: &str| {
        let mut e = blank_event();
        e.start = day_text(day);
        e.status = status;
        e.summary = Some(summary.to_string());
        e
    };
    let occurrences = vec![
        occurrence("2024-03-11", Some(EventStatus::Confirmed), "inside"),
        occurrence("2024-03-10", Some(EventStatus::Confirmed), "first day"),
        occurrence("2024-03-12", None, "no status"),
        occurrence("2024-03-12", Some(EventStatus::Cancelled), "cancelled"),
    ];
    let mut single = blank_event();
    single.summary = Some("single".to_string());
    let mut dropped = blank_event();
    dropped.status = Some(EventStatus::Cancelled);
    let events = vec![(series, occurrences), (single, Vec::new()), (dropped, Vec::new())];
    let records = c.list_events(&events, &lo, &hi).unwrap();
    assert_eq!(
        records.iter().map(|r| r.detail()).collect::<Vec<String>>(),
        vec!["inside".to_string(), "single".to_string()]
    );
    assert_eq!(records[0].date(), date(2024, 3, 11));
}

#[test]
fn google_list_recurrences() {
    let mut c = client();
    let mut first = blank_event();
    first.id = Some("a".to_string());
    first.ical_uid = Some("UID:7".to_string());
    first.recurrence = Some(vec![
        "RRULE:FREQ=DAILY;INTERVAL=2".to_string(),
        "RRULE:FREQ=MONTHLY;INTERVAL=1".to_string(),
    ]);
    let mut cancelled = blank_event();
    cancelled.recurrence = Some(vec!["RRULE:FREQ=DAILY;INTERVAL=1".to_string()]);
    cancelled.status = Some(EventStatus::Cancelled);
    let plain = blank_event();
    let list = c.list_recurrences(&vec![first, cancelled, plain]).unwrap();
    assert_eq!(
        list.iter().map(|r| r.recurrence()).collect::<Vec<Duration>>(),
        vec![
            Duration::try_days(2).unwrap(),
            Duration::try_days(30).unwrap()
        ]
    );
    assert_eq!(list[0].internal_key(), Some("a".to_string()));
    assert_eq!(c.uid_of(&"a".to_string()), Some(7));
}

#[test]
fn google_token_expiry() {
    let mut c = client();
    let now = moment(date(2024, 3, 10), time(12, 0, 0));
    assert_eq!(c.token_expiring(now), Some(false));
    c.apply_token("fresh".to_string(), 1800, None, None, now)
        .unwrap();
    assert_eq!(c.config().access_token(), Some("fresh".to_string()));
    assert_eq!(
        c.config().access_token_expires_at(),
        Some(moment(date(2024, 3, 10), time(12, 30, 0)))
    );
    assert_eq!(c.config().refresh_token(), None);
    // expires within the hour
    assert_eq!(c.token_expiring(now), Some(true));

    c.apply_token(
        "later".to_string(),
        7200,
        Some("refresh".to_string()),
        None,
        now,
    )
    .unwrap();
    assert_eq!(c.token_expiring(now), Some(false));
    assert_eq!(c.config().refresh_token(), Some("refresh".to_string()));
    assert_eq!(
        c.config().refresh_token_expires_at(),
        Some(moment(date(2024, 3, 10), time(13, 0, 0)))
    );

    // an expiry out of range leaves the settings alone
    assert_eq!(
        c.apply_token("x".to_string(), i64::MAX, None, None, now).err(),
        Some(SaturnError::OutOfRange)
    );
    assert_eq!(c.config().access_token(), Some("later".to_string()));
}

#[test]
fn google_date_only_event_reads_as_whole_day_record() {
    let mut c = client();
    let mut ev = blank_event();
    ev.id = Some("e1".to_string());
    ev.start = day_text("2023-10-23");
    ev.end = day_text("2023-10-24");
    ev.summary = Some("Holiday".to_string());
    let r = c.event_to_record(&ev).unwrap();
    assert_eq!(r.record_type(), RecordType::AllDay);
    assert_eq!(r.date(), date(2023, 10, 23));
    assert_eq!(r.at(), None);
    assert_eq!(r.scheduled(), None);
    assert_eq!(r.detail(), "Holiday".to_string());
    assert_eq!(r.internal_key(), Some("e1".to_string()));
    assert_eq!(r.internal_recurrence_key(), Some("e1".to_string()));
    assert_eq!(r.notifications(), None);
    assert_eq!(r.primary_key(), 0);
    assert!(!r.completed());
}

#[test]
fn google_event_spans() {
    let mut at = Record::for_date(date(2024, 3, 10));
    at.set_at(Some(time(9, 30, 0)));
    let (start, end) = event_span(&at, minutes(15));
    assert_eq!(start, moment(date(2024, 3, 10), time(9, 30, 0)));
    assert!(matches!(end, EventEnd::Shifted(d) if d == minutes(15)));

    let mut meeting = Record::for_date(date(2024, 3, 10));
    meeting.set_scheduled(Some((time(9, 0, 0), time(10, 30, 0))));
    let (start, end) = event_span(&meeting, minutes(15));
    assert_eq!(start, moment(date(2024, 3, 10), time(9, 0, 0)));
    assert!(matches!(end, EventEnd::Local(m) if m == moment(date(2024, 3, 10), time(10, 30, 0))));

    let mut day = Record::for_date(date(2024, 3, 10));
    day.set_all_day();
    let (start, end) = event_span(&day, minutes(15));
    assert_eq!(start, moment(date(2024, 3, 10), time(0, 0, 0)));
    assert!(matches!(end, EventEnd::Shifted(d) if d == Duration::try_days(1).unwrap()));
}

#[test]
fn google_short_recurrence_refused_before_reading_record() {
    let mut c = client();
    let mut odd = Record::for_date(date(2024, 3, 10));
    odd.set_record_type(RecordType::At);
    let hourly = RecurringRecord::new(odd, Duration::try_hours(12).unwrap());
    assert_eq!(
        c.recurrence_to_event("primary".to_string(), &hourly, None).err(),
        Some(SaturnError::RecurrenceTooShort)
    );
}

#[test]
fn google_moment_beyond_the_calendar_is_refused() {
    let mut c = client();
    let mut ev = blank_event();
    ev.id = Some("far".to_string());
    ev.start = at_text("+262142-12-31T23:30:00Z");
    ev.end = at_text("+262142-12-31T23:45:00Z");
    // Depending on the machine's zone the local reading is the calendar's
    // last day or beyond it; either way the reading does not panic.
    match c.event_to_record(&ev) {
        Ok(r) => assert_eq!(r.date().year, 262142),
        Err(e) => assert_eq!(e, SaturnError::OutOfRange),
    }
}

#[test]
fn google_texts_under_given_offsets() {
    let at = moment(date(2024, 3, 10), time(10, 0, 0));
    assert_eq!(
        utc_text(at, 3600, Duration::zero()),
        Some("2024-03-10T09:00:00+00:00".to_string())
    );
    assert_eq!(
        utc_text(at, -1800, minutes(15)),
        Some("2024-03-10T10:45:00+00:00".to_string())
    );
    assert_eq!(
        offset_text(at, 3600),
        Some("2024-03-10T10:00:00+01:00".to_string())
    );
    let last = moment(date(262142, 12, 31), time(23, 30, 0));
    assert_eq!(utc_text(last, -3600, Duration::zero()), None);
    assert_eq!(offset_text(last, -3600), None);
    assert_eq!(
        offset_text(last, 3600),
        Some("+262142-12-31T23:30:00+01:00".to_string())
    );
}

#[test]
fn google_event_texts_share_the_start_offset() {
    let mut at = Record::for_date(date(2024, 3, 10));
    at.set_at(Some(time(9, 30, 0)));
    assert_eq!(
        event_texts_at(&at, minutes(15), 7200, -7200),
        Some((
            "2024-03-10T07:30:00+00:00".to_string(),
            "2024-03-10T07:45:00+00:00".to_string()
        ))
    );

    let mut meeting = Record::for_date(date(2024, 3, 10));
    meeting.set_scheduled(Some((time(9, 0, 0), time(10, 30, 0))));
    assert_eq!(
        event_texts_at(&meeting, minutes(15), 3600, 7200),
        Some((
            "2024-03-10T08:00:00+00:00".to_string(),
            "2024-03-10T10:30:00+02:00".to_string()
        ))
    );

    let mut day = Record::for_date(date(2024, 3, 10));
    day.set_all_day();
    assert_eq!(
        event_texts_at(&day, minutes(15), -3600, 0),
        Some((
            "2024-03-10T01:00:00+00:00".to_string(),
            "2024-03-11T01:00:00+00:00".to_string()
        ))
    );
}
