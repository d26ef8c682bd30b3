use saturn_cli::error::{Outcome, SaturnError};
use saturn_cli::record::Record;
use saturn_cli::search::{filter, parse_search, read_search, SearchParser, SearchParserAction};
use saturn_cli::time::{now, Date, Time};

fn words(s: &str) -> Vec<String> {
    s.to_string()
        .split(" ")
        .map(ToString::to_string)
        .collect()
}

fn time(h: u32, m: u32, s: u32) -> Time {
    Time::from_hms_opt(h, m, s).unwrap()
}

#[test]
fn test_search_parser() {
    let today = now().date;
    let tomorrow = today.succ();

    let table = vec![
        ("time 8pm", vec![SearchParserAction::Time(time(20, 0, 0))]),
        ("date today", vec![SearchParserAction::Date(today)]),
        (
            "date today time 8pm",
            vec![
                SearchParserAction::Date(today),
                SearchParserAction::Time(time(20, 0, 0)),
            ],
        ),
        (
            "date today time 8pm finished",
            vec![
                SearchParserAction::Date(today),
                SearchParserAction::Time(time(20, 0, 0)),
                SearchParserAction::Done(true),
            ],
        ),
        (
            "date today time 8pm unfinished detail foobar recur 12",
            vec![
                SearchParserAction::Date(today),
                SearchParserAction::Time(time(20, 0, 0)),
                SearchParserAction::Done(false),
                SearchParserAction::Detail("foobar".to_string()),
                SearchParserAction::Recur(12),
            ],
        ),
        (
            "date from today to tomorrow time from 8pm to 11pm unfinished detail foobar recur 12",
            vec![
                SearchParserAction::FromDate(today, tomorrow),
                SearchParserAction::FromTime(time(20, 0, 0), time(23, 0, 0)),
                SearchParserAction::Done(false),
                SearchParserAction::Detail("foobar".to_string()),
                SearchParserAction::Recur(12),
            ],
        ),
        (
            "field key foo value bar",
            vec![SearchParserAction::Field(
                "foo".to_string(),
                Some("bar".to_string()),
            )],
        ),
        (
            "field value foo key bar",
            vec![SearchParserAction::Field(
                "bar".to_string(),
                Some("foo".to_string()),
            )],
        ),
        (
            "field key bar",
            vec![SearchParserAction::Field("bar".to_string(), None)],
        ),
    ];

    for item in table {
        assert_eq!(parse_search(words(item.0)).unwrap(), item.1, "{}", item.0,)
    }
}

enum Modification {
    Date(i32, u32, u32),
    Time(u32, u32, u32),
    Detail(String),
    RecurrenceKey(u64),
    Done(bool),
}

#[test]
fn test_filter() {
    let table: Vec<(
        Vec<(usize, Modification)>,
        Vec<SearchParserAction>,
        usize,
        &str,
    )> = vec![
        (
            vec![
                (0, Modification::Date(2018, 10, 23)),
                (1, Modification::Date(2020, 10, 23)),
            ],
            vec![SearchParserAction::Date(
                Date::from_ymd_opt(2018, 10, 23).unwrap(),
            )],
            1,
            "static date",
        ),
        (
            vec![
                (0, Modification::Time(16, 20, 0)),
                (1, Modification::Time(16, 20, 0)),
                (2, Modification::Time(4, 20, 0)),
            ],
            vec![SearchParserAction::Time(time(16, 20, 0))],
            2,
            "static time",
        ),
        (
            vec![
                (0, Modification::Date(2018, 10, 23)),
                (1, Modification::Date(2020, 10, 23)),
                (2, Modification::Date(2021, 10, 23)),
            ],
            vec![SearchParserAction::FromDate(
                Date::from_ymd_opt(2018, 10, 23).unwrap(),
                Date::from_ymd_opt(2020, 10, 23).unwrap(),
            )],
            2,
            "date range",
        ),
        (
            vec![
                (0, Modification::Time(16, 20, 0)),
                (1, Modification::Time(16, 20, 0)),
                (2, Modification::Time(16, 30, 0)),
                (3, Modification::Time(4, 20, 0)),
            ],
            vec![SearchParserAction::FromTime(time(16, 20, 0), time(16, 30, 0))],
            3,
            "time range",
        ),
        (
            vec![
                (0, Modification::Detail("foo".to_string())),
                (1, Modification::Detail("poo".to_string())),
                (2, Modification::Detail("stool".to_string())),
                (3, Modification::Detail("bar".to_string())),
                (4, Modification::Detail("baz".to_string())),
            ],
            vec![SearchParserAction::Detail("oo".to_string())],
            3,
            "detail substring",
        ),
        (
            vec![
                (0, Modification::RecurrenceKey(1)),
                (1, Modification::RecurrenceKey(2)),
                (2, Modification::RecurrenceKey(3)),
                (3, Modification::RecurrenceKey(2)),
                (4, Modification::RecurrenceKey(4)),
                (5, Modification::RecurrenceKey(2)),
                (6, Modification::RecurrenceKey(5)),
                (7, Modification::RecurrenceKey(6)),
                (8, Modification::RecurrenceKey(1)),
                (9, Modification::RecurrenceKey(3)),
            ],
            vec![SearchParserAction::Recur(2)],
            3,
            "recurrence id",
        ),
        (
            vec![
                (0, Modification::Done(true)),
                (1, Modification::Done(false)),
                (2, Modification::Done(false)),
                (3, Modification::Done(true)),
                (4, Modification::Done(true)),
                (5, Modification::Done(true)),
                (6, Modification::Done(false)),
                (7, Modification::Done(true)),
                (8, Modification::Done(true)),
                (9, Modification::Done(false)),
            ],
            vec![SearchParserAction::Done(true)],
            6,
            "done",
        ),
    ];

    for rules in table {
        let mut records = vec![
            Record::default(),
            Record::default(),
            Record::default(),
            Record::default(),
            Record::default(),
            Record::default(),
            Record::default(),
            Record::default(),
            Record::default(),
            Record::default(),
        ];

        for rule in rules.0 {
            match rule.1 {
                Modification::Date(y, m, d) => {
                    records[rule.0].set_date(Date::from_ymd_opt(y, m, d).unwrap());
                }
                Modification::Time(h, m, s) => {
                    records[rule.0].set_at(Time::from_hms_opt(h, m, s));
                }
                Modification::Detail(detail) => {
                    records[rule.0].set_detail(detail);
                }
                Modification::RecurrenceKey(id) => {
                    records[rule.0].set_recurrence_key(Some(id));
                }
                Modification::Done(done) => {
                    records[rule.0].set_completed(done);
                }
            }
        }

        let res = filter(records, rules.1).unwrap();
        assert_eq!(res.len(), rules.2, "test: {}", rules.3);
    }
}

#[test]
fn search_syntax_errors() {
    assert_eq!(parse_search(words("nonsense")), Err(SaturnError::InvalidSyntax));
    assert_eq!(parse_search(words("field other")), Err(SaturnError::InvalidSyntax));
    assert_eq!(
        parse_search(words("field value foo other")),
        Err(SaturnError::FieldSearchWithoutKey)
    );
    assert_eq!(
        parse_search(words("date from today until tomorrow")),
        Err(SaturnError::DateRangeSyntax)
    );
    assert_eq!(
        parse_search(words("time from 8pm until 9pm")),
        Err(SaturnError::TimeRangeSyntax)
    );
    assert_eq!(parse_search(words("recur x")), Err(SaturnError::InvalidNumber));
    assert_eq!(parse_search(Vec::new()), Err(SaturnError::InvalidSyntax));
}

#[test]
fn search_fields_and_perform() {
    let mut a = Record::default();
    a.add_field("room".to_string(), "kitchen".to_string())
        .set_detail("Cook".to_string());
    let mut b = Record::default();
    b.add_field("room".to_string(), "garden".to_string())
        .set_detail("Dig".to_string());
    let c = Record::default();

    let found = SearchParser::new(
        words("field key room value garden"),
        vec![a.duplicate(), b.duplicate(), c.duplicate()],
    )
    .perform()
    .unwrap();
    assert_eq!(found.len(), 1);
    assert_eq!(found[0].detail(), "Dig".to_string());

    let found = SearchParser::new(words("field key room"), vec![a, b, c])
        .perform()
        .unwrap();
    assert_eq!(found.len(), 2);
}

#[test]
fn time_search_on_a_record_without_its_time_stops() {
    let mut r = Record::default();
    r.set_at(None);
    let parser = SearchParser::new(words("time 8pm"), vec![r]);
    assert_eq!(parser.perform(), Err(SaturnError::OutOfRange));
}

#[test]
fn search_clause_lists_join() {
    let today = Date::from_ymd_opt(2024, 3, 10).unwrap();
    let read = |s: &str| match read_search(&words(s), today) {
        Outcome::Value(v) => v,
        _ => panic!("the search should be read"),
    };
    let first = read("date today time 8pm");
    let second = read("detail walk field key baz");
    let mut both = first;
    both.extend(second);
    assert_eq!(read("date today time 8pm detail walk field key baz"), both);
    // A key held over from a key-and-value clause is taken up by the next
    // key-only clause, so such lists do not join.
    assert_eq!(
        read("field key foo value bar field key baz"),
        vec![
            SearchParserAction::Field("foo".to_string(), Some("bar".to_string())),
            SearchParserAction::Field("baz".to_string(), Some("foo".to_string())),
        ]
    );
}
