use saturn_cli::error::SaturnError;
use saturn_cli::parse::{parse_date, parse_time};
use saturn_cli::time::{now, Date, Time};

fn date(y: i32, m: u32, d: u32) -> Date {
    Date::from_ymd_opt(y, m, d).unwrap()
}

fn time(h: u32, m: u32, s: u32) -> Time {
    Time::from_hms_opt(h, m, s).unwrap()
}

#[test]
fn parser_test_parse_date() {
    let today = now().date;

    let table = vec![
        ("2018-10-23", date(2018, 10, 23)),
        ("2018/10/23", date(2018, 10, 23)),
        ("2018.10.23", date(2018, 10, 23)),
        ("10.23", date(today.year, 10, 23)),
        ("10/23", date(today.year, 10, 23)),
        ("10-23", date(today.year, 10, 23)),
        ("23", date(today.year, today.month, 23)),
    ];

    for (to_parse, t) in table {
        assert_eq!(parse_date(to_parse.to_string()).unwrap(), t)
    }
}

#[test]
fn parser_test_parse_time() {
    let pm = now().time.hour() >= 12;

    let today_table = vec![
        ("12am", time(0, 0, 0)),
        ("12pm", time(12, 0, 0)),
        ("8:00:00", time(8, 0, 0)),
        ("8:12:56", time(8, 12, 56)),
        ("8:00", time(if pm { 20 } else { 8 }, 0, 0)),
        ("8am", time(8, 0, 0)),
        ("8:00pm", time(20, 0, 0)),
        ("8pm", time(20, 0, 0)),
        ("8:30pm", time(20, 30, 0)),
        ("8", time(if pm { 20 } else { 8 }, 0, 0)),
        ("8:30", time(if pm { 20 } else { 8 }, 30, 0)),
    ];

    let other_table = vec![
        ("12am", time(0, 0, 0)),
        ("12pm", time(12, 0, 0)),
        ("8:00:00", time(8, 0, 0)),
        ("8:12:56", time(8, 12, 56)),
        ("8:00", time(if pm { 20 } else { 8 }, 0, 0)),
        ("8am", time(8, 0, 0)),
        ("8:00pm", time(20, 0, 0)),
        ("8pm", time(20, 0, 0)),
        ("8:30pm", time(20, 30, 0)),
        ("8", time(if pm { 20 } else { 8 }, 0, 0)),
        ("8:30", time(if pm { 20 } else { 8 }, 30, 0)),
    ];

    for (to_parse, t) in today_table {
        assert_eq!(
            parse_time(to_parse.to_string(), true).unwrap(),
            t,
            "{}",
            to_parse
        )
    }

    for (to_parse, t) in other_table {
        assert_eq!(
            parse_time(to_parse.to_string(), true).unwrap(),
            t,
            "{}",
            to_parse
        )
    }
}

#[test]
fn relative_dates_in_any_case() {
    let today = now().date;
    assert_eq!(parse_date("today".to_string()).unwrap(), today);
    assert_eq!(parse_date("TODAY".to_string()).unwrap(), today);
    assert_eq!(parse_date("Tomorrow".to_string()).unwrap(), today.succ());
    assert_eq!(parse_date("yesterday".to_string()).unwrap(), today.pred());
}

#[test]
fn day_with_ordinal_ending() {
    let today = now().date;
    assert_eq!(
        parse_date("1st".to_string()).unwrap(),
        date(today.year, today.month, 1)
    );
    assert_eq!(
        parse_date(" 2nd".to_string()).unwrap(),
        date(today.year, today.month, 2)
    );
    assert_eq!(
        parse_date("3rd".to_string()).unwrap(),
        date(today.year, today.month, 3)
    );
    assert_eq!(
        parse_date("4th".to_string()).unwrap(),
        date(today.year, today.month, 4)
    );
}

#[test]
fn date_errors() {
    assert_eq!(
        parse_date("2018-10-23-1".to_string()),
        Err(SaturnError::CannotParseDate)
    );
    assert_eq!(
        parse_date("2018-x-23".to_string()),
        Err(SaturnError::InvalidNumber)
    );
    assert_eq!(
        parse_date("2018-02-30".to_string()),
        Err(SaturnError::InvalidDate)
    );
    assert_eq!(
        parse_date("someday".to_string()),
        Err(SaturnError::InvalidNumber)
    );
}

#[test]
fn time_words_and_24_hour_times() {
    assert_eq!(parse_time("midnight".to_string(), true).unwrap(), time(0, 0, 0));
    assert_eq!(parse_time(" Noon ".to_string(), false).unwrap(), time(12, 0, 0));
    assert_eq!(parse_time("13:15".to_string(), true).unwrap(), time(13, 15, 0));
    assert_eq!(parse_time("8".to_string(), false).unwrap(), time(8, 0, 0));
    assert_eq!(parse_time("8.30".to_string(), false).unwrap(), time(8, 30, 0));
    assert_eq!(parse_time("8PM".to_string(), false).unwrap(), time(20, 0, 0));
}

#[test]
fn time_errors() {
    assert_eq!(
        parse_time("8:30xm".to_string(), false),
        Err(SaturnError::CannotParseTime)
    );
    assert_eq!(
        parse_time("lunch".to_string(), false),
        Err(SaturnError::CannotParseTime)
    );
    assert_eq!(
        parse_time("1:2:3:4".to_string(), false),
        Err(SaturnError::CannotParseTime)
    );
    assert_eq!(
        parse_time("x:30".to_string(), false),
        Err(SaturnError::InvalidNumber)
    );
    assert_eq!(
        parse_time("25:00".to_string(), false),
        Err(SaturnError::InvalidTime)
    );
    assert_eq!(
        parse_time("8:61:00".to_string(), false),
        Err(SaturnError::InvalidTime)
    );
}
