use todo_track::issue::Issue;
use todo_track::metadata::{make_metadata_str, TodoMetadata};

fn text(s: &str) -> Option<String> {
    Some(s.to_string())
}

fn numbered(s: &str) -> Option<Issue> {
    Some(Issue::Numbered(s.to_string()))
}

fn keyed(key: &str, number: &str) -> Option<Issue> {
    Some(Issue::ProjectKey { project_key: key.to_string(), number: number.to_string() })
}

fn parse(s: &str) -> TodoMetadata {
    TodoMetadata::from_string(s.to_string())
}

#[test]
fn empty_has_no_fields() {
    assert_eq!(TodoMetadata::empty(), TodoMetadata { assignee: None, issue: None, due: None });
}

#[test]
fn first_assignee_wins() {
    let m = parse("@alice, @bob");
    assert_eq!(m.assignee, text("alice"));
    assert_eq!(m.issue, None);
    assert_eq!(m.due, None);
}

#[test]
fn first_issue_and_first_due_date_win() {
    let m = parse("#1, ABC-2, 2024-01-01, 2025-02-02");
    assert_eq!(m.issue, numbered("#1"));
    assert_eq!(m.due, text("2024-01-01"));
    let m = parse("ABC-2, #1");
    assert_eq!(m.issue, keyed("ABC", "2"));
}

#[test]
fn tokens_in_any_order() {
    let expected =
        TodoMetadata { assignee: text("bob"), issue: numbered("#7"), due: text("2024-01-01") };
    assert_eq!(parse("#7, @bob, 2024-01-01"), expected);
    assert_eq!(parse("2024-01-01,@bob,#7"), expected);
    assert_eq!(parse("  @bob ,\t2024-01-01 , #7  "), expected);
}

#[test]
fn unknown_tokens_are_passed_over() {
    let m = parse("urgent, @bob, , later, abc-1");
    assert_eq!(m, TodoMetadata { assignee: text("bob"), issue: None, due: None });
    assert_eq!(parse(""), TodoMetadata::empty());
    assert_eq!(parse("   "), TodoMetadata::empty());
    assert_eq!(parse(",,,"), TodoMetadata::empty());
}

#[test]
fn assignee_is_what_follows_the_at_sign() {
    assert_eq!(parse("@").assignee, text(""));
    assert_eq!(parse("@ bob").assignee, text(" bob"));
    assert_eq!(parse("@@bob").assignee, text("@bob"));
    assert_eq!(parse("bob@example").assignee, None);
}

#[test]
fn token_written_as_a_date_is_the_due_date() {
    assert_eq!(parse("2024-01-01").due, text("2024-01-01"));
    assert_eq!(parse(" 2024-01-01 ").due, text("2024-01-01"));
    assert_eq!(parse("2024-13-99").due, text("2024-13-99"));
    assert_eq!(parse("0000-00-00").due, text("0000-00-00"));
}

#[test]
fn token_that_is_more_or_less_than_a_date_is_no_due_date() {
    for payload in [
        "due 2024-01-01!", "x2024-01-01y", "2024-01-01x", "x2024-01-01", "2024-01-011", "12024-01-01",
        "2024-1-01", "2024-01-1", "2024/01/01", "024-01-01", "2024-01-0a", "\u{0662}024-01-01",
        "2024-01", "20240101", "2024 -01-01",
    ] {
        assert_eq!(parse(payload), TodoMetadata::empty(), "{:?}", payload);
    }
}

#[test]
fn later_at_token_is_passed_over() {
    let m = parse("@alice, @2024-01-01");
    assert_eq!(m, TodoMetadata { assignee: text("alice"), issue: None, due: None });
    let m = parse("@alice, @#7, @bob, #8");
    assert_eq!(
        m,
        TodoMetadata {
            assignee: text("alice"),
            issue: Some(Issue::Numbered("#8".to_string())),
            due: None
        }
    );
    let m = parse("@2024-01-01");
    assert_eq!(m, TodoMetadata { assignee: text("2024-01-01"), issue: None, due: None });
}

#[test]
fn unicode_whitespace_is_trimmed() {
    let m = parse("\u{a0}@bob\u{2003},\u{3000}#7\u{85}");
    assert_eq!(m.assignee, text("bob"));
    assert_eq!(m.issue, numbered("#7"));
    assert_eq!(parse("\u{200b}#7").issue, None);
}

#[test]
fn canonical_order_is_issue_assignee_due() {
    let m = TodoMetadata { assignee: text("bob"), issue: numbered("#7"), due: text("2024-01-01") };
    assert_eq!(make_metadata_str(m), text("#7, @bob, 2024-01-01"));
    let m = TodoMetadata { due: text("2024-01-01"), issue: numbered("#7"), assignee: text("bob") };
    assert_eq!(make_metadata_str(m), text("#7, @bob, 2024-01-01"));
}

#[test]
fn canonical_text_of_each_subset() {
    let render = |a: Option<&str>, i: Option<Issue>, d: Option<&str>| {
        make_metadata_str(TodoMetadata {
            assignee: a.map(|s| s.to_string()),
            issue: i,
            due: d.map(|s| s.to_string()),
        })
    };
    assert_eq!(render(None, None, None), None);
    assert_eq!(render(Some("bob"), None, None), text("@bob"));
    assert_eq!(render(None, keyed("ABC", "12"), None), text("ABC-12"));
    assert_eq!(render(None, None, Some("2024-01-01")), text("2024-01-01"));
    assert_eq!(render(Some("bob"), None, Some("2024-01-01")), text("@bob, 2024-01-01"));
    assert_eq!(render(Some("bob"), numbered("#1"), None), text("#1, @bob"));
    assert_eq!(render(None, numbered("#1"), Some("2024-01-01")), text("#1, 2024-01-01"));
}

#[test]
fn canonical_text_reads_back() {
    let values = vec![
        TodoMetadata::empty(),
        TodoMetadata { assignee: text("bob"), issue: None, due: None },
        TodoMetadata { assignee: text(""), issue: None, due: text("2024-01-01") },
        TodoMetadata { assignee: None, issue: numbered("#7"), due: None },
        TodoMetadata { assignee: None, issue: None, due: text("2024-13-99") },
        TodoMetadata { assignee: text("a b"), issue: keyed("AB_1", "22"), due: text("2024-01-01") },
        TodoMetadata { assignee: text("@2024-01-01"), issue: None, due: text("1999-12-31") },
    ];
    for m in values {
        let payload = make_metadata_str(m.clone()).unwrap_or("".to_string());
        assert_eq!(TodoMetadata::from_string(payload), m);
    }
}

#[test]
fn what_is_read_reads_back_from_its_canonical_text() {
    for payload in ["@bob, @carol", "x, 2024-01-01 , #1 ,@ a", "ABC-1, #2", "@", "??", "x2024-01-01"] {
        let m = parse(payload);
        let canonical = make_metadata_str(m.clone()).unwrap_or("".to_string());
        assert_eq!(parse(&canonical), m, "{:?}", payload);
    }
}

#[test]
fn clone_keeps_the_fields() {
    let m = TodoMetadata { assignee: text("bob"), issue: keyed("A", "1"), due: text("2024-01-01") };
    assert_eq!(m.clone(), m);
}
