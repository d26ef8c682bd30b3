use saturn_cli::commands::{CommandType, ListType};
use saturn_cli::error::Outcome;
use saturn_cli::input::{interpret_input, InputResponse};

fn answer(line: &str) -> InputResponse {
    match interpret_input(line) {
        Outcome::Value(r) => r,
        Outcome::Fail(e) => panic!("unexpected error {:?}", e),
        Outcome::Halt => panic!("unexpected stop"),
    }
}

#[test]
fn input_quit() {
    let r = answer("  quit\n");
    assert!(r.quit);
    assert!(r.errors.is_empty());
    assert!(r.command.is_none());
}

#[test]
fn input_show_lists() {
    let r = answer("show all\n");
    assert!(!r.quit);
    assert!(r.clear_shown);
    assert_eq!(r.list, Some(ListType::All));
    assert!(r.command.is_none());

    let r = answer("s t\n");
    assert_eq!(r.list, Some(ListType::Today));

    let r = answer("show recur\n");
    assert_eq!(r.list, Some(ListType::Recurring));
    assert!(r.command.is_none());
}

#[test]
fn input_show_ids() {
    let r = answer("show 12\n");
    assert!(r.clear_shown);
    assert!(matches!(r.command, Some(CommandType::Show(false, 12))));

    let r = answer("s r 3\n");
    assert!(matches!(r.command, Some(CommandType::Show(true, 3))));
    assert!(r.list.is_none());

    let r = answer("show abc\n");
    assert!(r.command.is_none());
    assert_eq!(r.errors, vec!["Invalid Command 'show abc'".to_string()]);

    let r = answer("show recur x\n");
    assert_eq!(r.errors, vec!["Invalid Command 'show recur x'".to_string()]);
}

#[test]
fn input_show_alone_is_invalid() {
    let r = answer("show \n");
    assert!(r.command.is_none());
    assert!(!r.clear_shown);
    assert_eq!(r.errors, vec!["Invalid Command".to_string()]);
}

#[test]
fn input_delete() {
    let r = answer("delete 1 2  3\n");
    match r.command {
        Some(CommandType::Delete(v)) => assert_eq!(v, vec![1, 2, 3]),
        other => panic!("unexpected {:?}", other),
    }
    assert!(r.errors.is_empty());

    let r = answer("d recur 4 x 5\n");
    match r.command {
        Some(CommandType::DeleteRecurring(v)) => assert_eq!(v, vec![4, 5]),
        other => panic!("unexpected {:?}", other),
    }
    assert_eq!(r.errors, vec!["Invalid ID x".to_string()]);
}

#[test]
fn input_entry() {
    let r = answer("entry tomorrow at 8pm Dinner\n");
    match r.command {
        Some(CommandType::Entry(s)) => assert_eq!(s, "tomorrow at 8pm Dinner"),
        other => panic!("unexpected {:?}", other),
    }
    let r = answer("e today allday Laundry\n");
    match r.command {
        Some(CommandType::Entry(s)) => assert_eq!(s, "today allday Laundry"),
        other => panic!("unexpected {:?}", other),
    }
}

#[test]
fn input_edit() {
    let r = answer("edit recur 7 8\n");
    assert!(matches!(r.command, Some(CommandType::Edit(true, 7))));
    assert!(r.errors.is_empty());

    let r = answer("edit y 9\n");
    assert!(matches!(r.command, Some(CommandType::Edit(false, 9))));
    assert_eq!(r.errors, vec!["Invalid ID y".to_string()]);

    let r = answer("edit recur\n");
    assert!(r.command.is_none());
    assert_eq!(r.errors, vec!["Edit requires an ID".to_string()]);
}

#[test]
fn input_search() {
    let r = answer("/ detail  foo\n");
    match r.command {
        Some(CommandType::Search(w)) => {
            assert_eq!(w, vec!["detail".to_string(), "foo".to_string()])
        }
        other => panic!("unexpected {:?}", other),
    }
    let r = answer("search today\n");
    match r.command {
        Some(CommandType::Search(w)) => assert_eq!(w, vec!["today".to_string()]),
        other => panic!("unexpected {:?}", other),
    }
}

#[test]
fn input_invalid() {
    let r = answer("frobnicate\n");
    assert!(!r.quit);
    assert!(r.command.is_none());
    assert_eq!(r.errors, vec!["Invalid Command".to_string()]);
}
