use todo_track::date::{parse_due_date, Date};
use todo_track::metadata::TodoMetadata;
use todo_track::query::{
    filter_by_match, filter_todo_list, filter_todo_list_on, group_and_count, render_counts,
    GroupCount, Grouping, TodoFilters,
};
use todo_track::todo::Todo;

fn text(s: &str) -> Option<String> {
    Some(s.to_string())
}

fn list(items: &[&str]) -> Option<Vec<String>> {
    Some(items.iter().map(|s| s.to_string()).collect())
}

fn todo(note: &str, payload: &str) -> Todo {
    Todo {
        raw: String::new(),
        delimiter: "//".to_string(),
        path: "a.rs".to_string(),
        line_number: 1,
        note: note.to_string(),
        meta: text(payload),
        metadata: TodoMetadata::from_string(payload.to_string()),
    }
}

fn no_filters() -> TodoFilters {
    TodoFilters {
        assignee: None,
        unassigned: false,
        issue: None,
        untracked: false,
        due: None,
        overdue: false,
        someday: false,
    }
}

fn notes(list: &[Todo]) -> Vec<&str> {
    list.iter().map(|t| t.note.as_str()).collect()
}

fn day(year: i32, month: u32, day: u32) -> Date {
    Date { year, month, day }
}

fn count(key: &str, count: usize) -> GroupCount {
    GroupCount { key: key.to_string(), count }
}

#[test]
fn allow_list_lets_listed_values_pass() {
    assert!(filter_by_match(text("alice"), list(&["alice", "bob"]), false));
    assert!(filter_by_match(text("bob"), list(&["alice", "bob"]), true));
    assert!(!filter_by_match(text("carol"), list(&["alice", "bob"]), false));
    assert!(!filter_by_match(text("carol"), list(&["alice", "bob"]), true));
    assert!(!filter_by_match(text("alice"), list(&[]), false));
}

#[test]
fn allow_list_lets_unset_pass_only_with_the_flag() {
    assert!(!filter_by_match(None, list(&["alice"]), false));
    assert!(filter_by_match(None, list(&["alice"]), true));
}

#[test]
fn flag_alone_lets_only_unset_pass() {
    assert!(filter_by_match(None, None, true));
    assert!(!filter_by_match(text("alice"), None, true));
}

#[test]
fn no_list_and_no_flag_lets_all_pass() {
    assert!(filter_by_match(None, None, false));
    assert!(filter_by_match(text("alice"), None, false));
}

#[test]
fn assignee_filter_excludes_unassigned() {
    let todos = vec![todo("a", "@alice"), todo("b", ""), todo("c", "@bob")];
    let filters = TodoFilters { assignee: list(&["alice"]), ..no_filters() };
    assert_eq!(notes(&filter_todo_list(todos, filters)), vec!["a"]);
    let todos = vec![todo("a", "@alice"), todo("b", ""), todo("c", "@bob")];
    assert_eq!(notes(&filter_todo_list(todos, no_filters())), vec!["a", "b", "c"]);
}

#[test]
fn issue_filter_goes_by_canonical_text() {
    let todos = vec![todo("a", "#1"), todo("b", "ABC-2"), todo("c", "@x"), todo("d", "ABC-2")];
    let filters = TodoFilters { issue: list(&["ABC-2"]), ..no_filters() };
    assert_eq!(notes(&filter_todo_list(todos, filters)), vec!["b", "d"]);
    let todos = vec![todo("a", "#1"), todo("b", "ABC-2"), todo("c", "@x")];
    let filters = TodoFilters { untracked: true, ..no_filters() };
    assert_eq!(notes(&filter_todo_list(todos, filters)), vec!["c"]);
    let todos = vec![todo("a", "#1"), todo("b", "ABC-2"), todo("c", "@x")];
    let filters = TodoFilters { issue: list(&["#1"]), untracked: true, ..no_filters() };
    assert_eq!(notes(&filter_todo_list(todos, filters)), vec!["a", "c"]);
}

#[test]
fn filters_are_joined_by_and() {
    let todos = vec![
        todo("a", "@alice, #1"),
        todo("b", "@alice, #2"),
        todo("c", "@bob, #1"),
        todo("d", "@alice, #1, 2024-01-01"),
    ];
    let filters = TodoFilters {
        assignee: list(&["alice"]),
        issue: list(&["#1"]),
        someday: true,
        ..no_filters()
    };
    assert_eq!(notes(&filter_todo_list(todos, filters)), vec!["a"]);
}

#[test]
fn overdue_includes_past_dates_and_excludes_missing_ones() {
    let todos = vec![todo("old", "2000-01-01"), todo("none", "@bob"), todo("far", "9999-12-31")];
    let filters = TodoFilters { overdue: true, ..no_filters() };
    assert_eq!(notes(&filter_todo_list(todos, filters)), vec!["old"]);
    let todos = vec![todo("old", "2000-01-01"), todo("none", "@bob")];
    let filters = TodoFilters { someday: true, ..no_filters() };
    assert_eq!(notes(&filter_todo_list(todos, filters)), vec!["none"]);
    let todos = vec![todo("old", "2000-01-01"), todo("none", "@bob")];
    let filters = TodoFilters { someday: true, overdue: true, ..no_filters() };
    assert_eq!(notes(&filter_todo_list(todos, filters)), Vec::<&str>::new());
}

#[test]
fn overdue_is_strictly_before_the_day() {
    let filters = TodoFilters { overdue: true, ..no_filters() };
    let make = || {
        vec![
            todo("before", "2024-03-09"),
            todo("same", "2024-03-10"),
            todo("after", "2024-03-11"),
            todo("last year", "2023-12-31"),
            todo("next month", "2024-04-01"),
            todo("month before", "2024-02-28"),
        ]
    };
    let kept = filter_todo_list_on(make(), &filters, day(2024, 3, 10));
    assert_eq!(notes(&kept), vec!["before", "last year", "month before"]);
    let kept = filter_todo_list_on(make(), &filters, day(2023, 1, 1));
    assert_eq!(notes(&kept), Vec::<&str>::new());
}

#[test]
fn dates_that_do_not_parse_are_never_overdue() {
    let filters = TodoFilters { overdue: true, ..no_filters() };
    let todos = vec![
        todo("no such month", "2024-13-01"),
        todo("no such day", "2023-02-29"),
        todo("no such date", "2000-00-00"),
        todo("leap day", "2024-02-29"),
    ];
    let kept = filter_todo_list_on(todos, &filters, day(2030, 1, 1));
    assert_eq!(notes(&kept), vec!["leap day"]);
}

#[test]
fn due_dates_parse_as_calendar_dates() {
    assert_eq!(parse_due_date("2024-02-29"), Some(day(2024, 2, 29)));
    assert_eq!(parse_due_date("2000-01-01"), Some(day(2000, 1, 1)));
    assert_eq!(parse_due_date("2023-02-29"), None);
    assert_eq!(parse_due_date("2024-00-10"), None);
    assert_eq!(parse_due_date("soon"), None);
    assert_eq!(parse_due_date(""), None);
}

#[test]
fn order_of_days() {
    assert!(day(2024, 3, 9).is_before(&day(2024, 3, 10)));
    assert!(!day(2024, 3, 10).is_before(&day(2024, 3, 10)));
    assert!(!day(2024, 3, 11).is_before(&day(2024, 3, 10)));
    assert!(day(2023, 12, 31).is_before(&day(2024, 1, 1)));
    assert!(!day(2024, 1, 1).is_before(&day(2023, 12, 31)));
    assert!(day(2024, 1, 31).is_before(&day(2024, 2, 1)));
    assert!(day(-1, 12, 31).is_before(&day(0, 1, 1)));
}

#[test]
fn today_is_a_day_of_the_calendar() {
    let today = Date::today();
    assert!(1 <= today.month && today.month <= 12);
    assert!(1 <= today.day && today.day <= 31);
    assert!(day(2000, 1, 1).is_before(&today));
}

#[test]
fn grouping_names() {
    assert_eq!(Grouping::from_str("assignee"), Some(Grouping::Assignee));
    assert_eq!(Grouping::from_str("due"), Some(Grouping::Due));
    assert_eq!(Grouping::from_str("issue"), Some(Grouping::Issue));
    assert_eq!(Grouping::from_str("Issue"), None);
    assert_eq!(Grouping::from_str("note"), None);
}

#[test]
fn counts_by_issue() {
    let todos = vec![todo("a", "#1"), todo("b", "#1"), todo("c", "@bob")];
    assert_eq!(
        group_and_count(&todos, Grouping::Issue),
        vec![count("#1", 2), count("<untracked>", 1)]
    );
}

#[test]
fn counts_by_assignee_and_due_date() {
    let todos = vec![
        todo("a", "@bob"),
        todo("b", "2024-01-01"),
        todo("c", "@alice, 2024-01-01"),
        todo("d", "2024-01-01"),
        todo("e", "#3"),
    ];
    assert_eq!(
        group_and_count(&todos, Grouping::Due),
        vec![count("2024-01-01", 3), count("<someday>", 2)]
    );
    let mut by_assignee = group_and_count(&todos, Grouping::Assignee);
    assert_eq!(by_assignee[0], count("<unassigned>", 3));
    let mut rest = by_assignee.split_off(1);
    rest.sort_by(|a, b| a.key.cmp(&b.key));
    assert_eq!(rest, vec![count("alice", 1), count("bob", 1)]);
}

#[test]
fn counts_come_largest_first() {
    let todos = vec![
        todo("a", "@a"),
        todo("b", "@b"),
        todo("c", "@c"),
        todo("d", "@b"),
        todo("e", "@c"),
        todo("f", "@c"),
    ];
    assert_eq!(
        group_and_count(&todos, Grouping::Assignee),
        vec![count("c", 3), count("b", 2), count("a", 1)]
    );
    assert_eq!(group_and_count(&Vec::new(), Grouping::Assignee), Vec::new());
}

#[test]
fn report_of_counts() {
    assert_eq!(render_counts(&vec![count("#1", 12), count("<untracked>", 1)]), "#1: 12\n<untracked>: 1");
    assert_eq!(render_counts(&Vec::new()), "");
}
