use saturn_cli::error::Outcome;
use saturn_cli::record::{Record, RecurringRecord};
use saturn_cli::time::{Date, DateTime, Duration, Time};
use saturn_cli::view::{
    calendar_begin, calendar_cells, clear_errors_step, day_cell, event_rows, format_clock, format_fancy,
    format_date, handle_key, listing_row, month_name, recurrence_line, recurring_rows,
    short_detail, show_record, show_recurring, week_height, weekday, DayCell, KeyInput, RowStyle,
};

fn date(y: i32, m: u32, d: u32) -> Date {
    Date::from_ymd_opt(y, m, d).unwrap()
}

fn time(h: u32, m: u32, s: u32) -> Time {
    Time::from_hms_opt(h, m, s).unwrap()
}

fn value<T>(o: Outcome<T>) -> T {
    match o {
        Outcome::Value(v) => v,
        Outcome::Fail(e) => panic!("unexpected error {:?}", e),
        Outcome::Halt => panic!("unexpected stop"),
    }
}

#[test]
fn view_weekdays() {
    assert_eq!(weekday(date(2024, 3, 10)), 0);
    assert_eq!(weekday(date(2023, 2, 1)), 3);
    assert_eq!(weekday(date(1970, 1, 1)), 4);
    assert_eq!(weekday(date(2000, 2, 29)), 2);
    assert_eq!(weekday(date(2024, 12, 31)), 2);
}

#[test]
fn view_calendar_begin() {
    assert_eq!(value(calendar_begin(date(2024, 3, 13))), date(2024, 3, 10));
    // the Sunday's day of the month, taken in today's month
    assert_eq!(value(calendar_begin(date(2024, 3, 2))), date(2024, 3, 25));
    // February 29th does not exist in 2023
    assert!(matches!(calendar_begin(date(2023, 2, 1)), Outcome::Halt));
}

#[test]
fn view_texts() {
    let text = |d: Date| format_date(d).into_iter().collect::<String>();
    assert_eq!(text(date(2024, 3, 5)), "2024-03-05");
    assert_eq!(text(date(12345, 1, 1)), "+12345-01-01");
    assert_eq!(text(date(-1, 1, 1)), "-0001-01-01");
    assert_eq!(month_name(3), Some("March".to_string()));
    assert_eq!(month_name(13), None);
}

#[test]
fn view_event_rows() {
    let today = date(2024, 3, 10);
    let now = DateTime {
        date: today,
        time: time(8, 30, 0),
    };
    let mut whole = Record::for_date(today);
    whole.set_primary_key(1).set_detail("Laundry".to_string());
    let mut soon = Record::for_date(today);
    soon.set_primary_key(2).set_at(Some(time(9, 0, 0)));
    let mut later = Record::for_date(today);
    later.set_primary_key(3).set_at(Some(time(15, 0, 0)));
    let mut before = Record::for_date(date(2024, 3, 9));
    before.set_primary_key(4).set_at(Some(time(9, 0, 0)));
    let mut next = Record::for_date(date(2024, 3, 12));
    next.set_primary_key(5).set_at(Some(time(9, 5, 0)));
    let rows = value(event_rows(
        &vec![whole, soon, later, before, next],
        today,
        &now,
    ));
    let seen: Vec<(String, String, RowStyle)> = rows
        .into_iter()
        .map(|r| (r.key, r.when, r.style))
        .collect();
    assert_eq!(
        seen,
        vec![
            ("1".to_string(), "03/10 [Day]".to_string(), RowStyle::Soon),
            ("2".to_string(), "03/10 09:00".to_string(), RowStyle::Soon),
            ("3".to_string(), "03/10 15:00".to_string(), RowStyle::Today),
            ("5".to_string(), "03/12 09:05".to_string(), RowStyle::Dim),
        ]
    );
}

#[test]
fn view_day_cells() {
    let today = date(2024, 3, 10);
    let mut whole = Record::for_date(today);
    whole.set_primary_key(1);
    let mut at = Record::for_date(today);
    at.set_primary_key(2).set_at(Some(time(9, 0, 0)));
    let mut other = Record::for_date(date(2024, 3, 11));
    other.set_primary_key(3).set_at(Some(time(10, 0, 0)));
    let records = vec![whole, at, other];
    let cell = value(day_cell(&records, today, today));
    assert_eq!(cell.text, "10\n[Day] 1\n09:00 2\n");
    assert_eq!(cell.lines, 3);
    assert!(cell.today);

    let cells = value(calendar_cells(&records, today, today));
    assert_eq!(cells.len(), 35);
    assert_eq!(cells[1].text, "11\n10:00 3\n");
    assert!(!cells[1].today);
    assert_eq!(cells[34].text, "13\n");
    assert_eq!(week_height(&cells[0..7]), 4);

    let tall = |lines: usize| DayCell {
        text: String::new(),
        lines,
        today: false,
    };
    assert_eq!(week_height(&[tall(1), tall(6), tall(2)]), 6);
    assert_eq!(week_height(&[]), 4);
}

#[test]
fn view_input_line() {
    assert_eq!(value(handle_key("ab".to_string(), KeyInput::Char('c'))), "abc");
    assert_eq!(value(handle_key("abc".to_string(), KeyInput::Enter)), "abc\n");
    assert_eq!(value(handle_key("ab".to_string(), KeyInput::Backspace)), "a");
    assert_eq!(value(handle_key(String::new(), KeyInput::Backspace)), "");
    assert_eq!(value(handle_key("ab".to_string(), KeyInput::Other)), "ab");
    assert!(matches!(
        handle_key("aé".to_string(), KeyInput::Backspace),
        Outcome::Halt
    ));
    assert_eq!(
        value(clear_errors_step("abc".to_string(), &"ab".to_string(), true)),
        ("ab".to_string(), true)
    );
    assert_eq!(
        value(clear_errors_step("ab".to_string(), &"ab".to_string(), true)),
        ("ab".to_string(), false)
    );
    assert_eq!(
        value(clear_errors_step("abc".to_string(), &"ab".to_string(), false)),
        ("abc".to_string(), false)
    );
}

#[test]
fn view_shown_records() {
    let mut r = Record::for_date(date(2024, 3, 10));
    r.set_primary_key(1)
        .set_at(Some(time(9, 0, 0)))
        .set_detail("Dentist".to_string());
    let rows: Vec<(String, String)> = value(show_record(&r))
        .into_iter()
        .map(|x| (x.key, x.value))
        .collect();
    let expect = |v: &[(&str, &str)]| {
        v.iter()
            .map(|(a, b)| (a.to_string(), b.to_string()))
            .collect::<Vec<(String, String)>>()
    };
    assert_eq!(
        rows,
        expect(&[
            ("id", "1"),
            ("date", "2024-03-10"),
            ("completed", "false"),
            ("detail", "Dentist"),
            ("type", "At"),
            ("at", "09:00"),
        ])
    );

    let mut s = Record::for_date(date(2024, 3, 10));
    s.set_scheduled(Some((time(9, 0, 0), time(10, 30, 0))));
    let rec = RecurringRecord::new(s, Duration::try_days(1).unwrap());
    let day = fancy_duration::FancyDuration::new(chrono::Duration::days(1)).to_string();
    let rows: Vec<(String, String)> = value(show_recurring(&rec))
        .into_iter()
        .map(|x| (x.key, x.value))
        .collect();
    assert_eq!(
        rows,
        expect(&[
            ("id", "0"),
            ("date", "2024-03-10"),
            ("recurrence", day.as_str()),
            ("completed", "false"),
            ("detail", ""),
            ("type", "Schedule"),
            ("scheduled", "09:00 - 10:30"),
        ])
    );

    let list = value(recurring_rows(&vec![rec]));
    assert_eq!(list[0].when, day);
    assert_eq!(list[0].style, RowStyle::Plain);
}

fn text(v: Vec<char>) -> String {
    v.into_iter().collect()
}

#[test]
fn clock_text_as_chrono_writes_it() {
    assert_eq!(text(format_clock(&time(8, 5, 0))), "08:05:00".to_string());
    assert_eq!(text(format_clock(&time(23, 59, 59))), "23:59:59".to_string());
    let ms = Time::from_hms_nano_opt(9, 0, 1, 250_000_000).unwrap();
    assert_eq!(text(format_clock(&ms)), "09:00:01.250".to_string());
    let us = Time::from_hms_nano_opt(9, 0, 1, 1_000).unwrap();
    assert_eq!(text(format_clock(&us)), "09:00:01.000001".to_string());
    let ns = Time::from_hms_nano_opt(9, 0, 1, 7).unwrap();
    assert_eq!(text(format_clock(&ns)), "09:00:01.000000007".to_string());
}

#[test]
fn details_are_cut_for_listing() {
    assert_eq!(short_detail(&"Dentist".to_string()), "Dentist".to_string());
    assert_eq!(
        short_detail(&"exactly twenty chars".to_string()),
        "exactly twenty chars".to_string()
    );
    assert_eq!(
        short_detail(&"a detail that goes on and on".to_string()),
        "a detail that goes o...".to_string()
    );
    // Twenty characters, but more than twenty bytes.
    assert_eq!(
        short_detail(&"caf\u{e9} with a friend!!".to_string()),
        "caf\u{e9} with a friend!!...".to_string()
    );
}

#[test]
fn listing_rows_of_records() {
    let mut at = Record::for_date(date(2024, 3, 10));
    at.set_primary_key(7)
        .set_at(Some(time(20, 0, 0)))
        .set_detail("Take a shower".to_string());
    let row = listing_row(&at).unwrap();
    assert_eq!(row.when, "20:00:00".to_string());
    assert_eq!(row.detail, "Take a shower".to_string());
    assert_eq!(row.key, "7".to_string());
    assert_eq!(row.date, "2024-03-10".to_string());
    assert_eq!(row.done, "".to_string());

    let mut meeting = Record::for_date(date(2024, 3, 11));
    meeting
        .set_primary_key(12)
        .set_scheduled(Some((time(9, 0, 0), time(10, 30, 0))))
        .set_completed(true);
    let row = listing_row(&meeting).unwrap();
    assert_eq!(row.when, "09:00:00 to 10:30:00".to_string());
    assert_eq!(row.done, "X".to_string());

    let mut day = Record::for_date(date(2024, 12, 25));
    day.set_primary_key(3).set_all_day();
    assert_eq!(listing_row(&day).unwrap().when, "All Day".to_string());
}

#[test]
fn listing_line_of_recurrence() {
    let mut base = Record::for_date(date(2024, 3, 10));
    base.set_all_day()
        .set_detail("Water the plants in the garden".to_string());
    let mut rec = RecurringRecord::new(base, Duration::try_days(3).unwrap());
    rec.set_recurrence_key(4);
    let line = recurrence_line(&rec).unwrap();
    assert_eq!(
        line.interval,
        fancy_duration::FancyDuration::new(chrono::Duration::days(3)).to_string()
    );
    assert_eq!(line.detail, "Water the plants in ...".to_string());
    assert_eq!(line.key, "4".to_string());
}

#[test]
fn repetitions_fancy_duration_cannot_write_stop() {
    let base = Record::for_date(date(2024, 3, 10));
    let backwards = RecurringRecord::new(base.duplicate(), Duration::try_days(-1).unwrap());
    assert!(recurrence_line(&backwards).is_none());
    assert!(matches!(recurring_rows(&vec![backwards]), Outcome::Halt));
    let centuries = RecurringRecord::new(base.duplicate(), Duration::try_weeks(52 * 300).unwrap());
    assert!(matches!(show_recurring(&centuries), Outcome::Halt));
    let fine = RecurringRecord::new(base, Duration::try_weeks(52 * 200).unwrap());
    assert!(recurrence_line(&fine).is_some());
}

#[test]
fn fancy_text_as_the_crate_writes_it() {
    let secs: [i64; 7] = [1, 59, 3600 + 61, 86400 * 400, 86400 * 9 + 5, 31_104_000 * 3 + 7, 604_800];
    for s in secs {
        for ns in [0u32, 1, 1_500, 2_000_000, 999_999_999] {
            let d = Duration::from_nanos(s as i128 * 1_000_000_000 + ns as i128).unwrap();
            let expected = fancy_duration::FancyDuration::new(chrono::TimeDelta::new(s, ns).unwrap())
                .to_string();
            assert_eq!(format_fancy(&d), Some(expected));
        }
    }
    let d = Duration::from_nanos((86400 + 2 * 3600 + 30 * 60) as i128 * 1_000_000_000).unwrap();
    assert_eq!(format_fancy(&d), Some("1d 2h 30m".to_string()));
    let d = Duration::from_nanos(86400i128 * 400 * 1_000_000_000).unwrap();
    assert_eq!(format_fancy(&d), Some("1y 1m 1w 3d".to_string()));
}
