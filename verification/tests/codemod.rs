use todo_track::codemod::{format_updates, plan_updates, CodeMod, ModError};
use todo_track::issue::Issue;
use todo_track::metadata::TodoMetadata;
use todo_track::rewrite::{group_by_file, rewrite_lines, TodoUpdate};
use todo_track::todo::Todo;

fn s(x: &str) -> String {
    x.to_string()
}

fn todo(line_number: u64, payload: &str) -> Todo {
    Todo {
        raw: format!("// TODO({}): note {}", payload, line_number),
        delimiter: s("//"),
        path: s("a.rs"),
        line_number,
        note: format!("note {}", line_number),
        meta: Some(s(payload)),
        metadata: TodoMetadata::from_string(s(payload)),
    }
}

fn todos() -> Vec<Todo> {
    vec![
        todo(1, "#1, @alice, 2024-01-01"),
        todo(2, "ABC-2, @bob"),
        todo(3, ""),
        todo(4, "#1"),
        todo(5, "@alice"),
        todo(6, "2025-05-05"),
    ]
}

/// The line numbers and canonical payloads of what a command plans.
fn plan(command: CodeMod) -> Vec<(u64, Option<String>)> {
    plan_updates(todos(), &command)
        .unwrap()
        .into_iter()
        .map(|u| {
            assert_eq!(u.path, "a.rs");
            assert_eq!(u.delimiter, "//");
            assert_eq!(u.note, format!("note {}", u.line_number));
            (u.line_number, todo_track::metadata::make_metadata_str(u.metadata))
        })
        .collect()
}

fn row(line_number: u64, payload: &str) -> (u64, Option<String>) {
    (line_number, if payload.is_empty() { None } else { Some(s(payload)) })
}

#[test]
fn remove_issue_drops_the_citations_of_one_issue() {
    assert_eq!(
        plan(CodeMod::RemoveIssue { issue: s("#1") }),
        vec![row(1, "@alice, 2024-01-01"), row(4, "")]
    );
    assert_eq!(plan(CodeMod::RemoveIssue { issue: s("ABC-2") }), vec![row(2, "@bob")]);
}

#[test]
fn remove_all_issues_drops_every_citation() {
    assert_eq!(
        plan(CodeMod::RemoveAllIssues),
        vec![row(1, "@alice, 2024-01-01"), row(2, "@bob"), row(4, "")]
    );
}

#[test]
fn rename_issue_cites_the_other_issue() {
    assert_eq!(
        plan(CodeMod::RenameIssue { from: s("#1"), to: s("XY-9") }),
        vec![row(1, "XY-9, @alice, 2024-01-01"), row(4, "XY-9")]
    );
}

#[test]
fn add_issue_cites_where_nothing_is_cited() {
    assert_eq!(
        plan(CodeMod::AddIssueForAllUntracked { issue: s("#8") }),
        vec![row(3, "#8"), row(5, "#8, @alice"), row(6, "#8, 2025-05-05")]
    );
}

#[test]
fn invalid_issue_to_cite_is_turned_down() {
    let command = CodeMod::RenameIssue { from: s("#1"), to: s("xy-9") };
    let error = plan_updates(todos(), &command).unwrap_err();
    assert_eq!(error, ModError::InvalidIssue(s("xy-9")));
    assert_eq!(command.refusal(&error), "Invalid replacement issue \"xy-9\"");
    let command = CodeMod::AddIssueForAllUntracked { issue: s("12") };
    let error = plan_updates(todos(), &command).unwrap_err();
    assert_eq!(error, ModError::InvalidIssue(s("12")));
    assert_eq!(command.refusal(&error), "Invalid issue \"12\"");
    let command = CodeMod::RenameIssue { from: s("#404"), to: s("") };
    assert_eq!(plan_updates(Vec::new(), &command), Err(ModError::InvalidIssue(s(""))));
}

#[test]
fn issue_to_look_for_need_not_be_valid() {
    assert_eq!(plan(CodeMod::RemoveIssue { issue: s("nothing") }), vec![]);
    assert_eq!(plan(CodeMod::RenameIssue { from: s("nothing"), to: s("#1") }), vec![]);
}

#[test]
fn assignee_commands() {
    assert_eq!(
        plan(CodeMod::RemoveAssignee { assignee: s("alice") }),
        vec![row(1, "#1, 2024-01-01"), row(5, "")]
    );
    assert_eq!(
        plan(CodeMod::RemoveAllAssignees),
        vec![row(1, "#1, 2024-01-01"), row(2, "ABC-2"), row(5, "")]
    );
    assert_eq!(
        plan(CodeMod::RenameAssignee { from: s("bob"), to: s("carol") }),
        vec![row(2, "ABC-2, @carol")]
    );
    assert_eq!(
        plan(CodeMod::AssignUnassigned { assignee: s("dave") }),
        vec![row(3, "@dave"), row(4, "#1, @dave"), row(6, "@dave, 2025-05-05")]
    );
    assert_eq!(
        plan(CodeMod::AssignIssue { issue: s("#1"), assignee: s("erin") }),
        vec![row(1, "#1, @erin, 2024-01-01"), row(4, "#1, @erin")]
    );
}

#[test]
fn due_date_commands() {
    assert_eq!(plan(CodeMod::RemoveAllDueDates), vec![row(1, "#1, @alice"), row(6, "")]);
    assert_eq!(
        plan(CodeMod::AddMissingDueDates { date: s("2030-01-01") }),
        vec![
            row(2, "ABC-2, @bob, 2030-01-01"),
            row(3, "2030-01-01"),
            row(4, "#1, 2030-01-01"),
            row(5, "@alice, 2030-01-01")
        ]
    );
    assert_eq!(
        plan(CodeMod::SetIssueDueDate { issue: s("ABC-2"), date: s("2030-01-01") }),
        vec![row(2, "ABC-2, @bob, 2030-01-01")]
    );
}

#[test]
fn command_that_picks_nothing_changes_nothing() {
    let command = CodeMod::RemoveAssignee { assignee: s("nobody") };
    let updates = plan_updates(todos(), &command).unwrap();
    assert_eq!(updates, Vec::new());
    assert_eq!(group_by_file(updates), Vec::new());
    let lines = vec![s("// TODO(@alice): a"), s("x")];
    assert_eq!(rewrite_lines(lines.clone(), &Vec::new()), lines);
    assert_eq!(plan_updates(Vec::new(), &CodeMod::RemoveAllIssues), Ok(Vec::new()));
}

#[test]
fn format_plans_every_annotation_as_it_is() {
    let updates = format_updates(vec![todo(1, "@bob, #1"), todo(2, "")]);
    assert_eq!(
        updates,
        vec![
            TodoUpdate {
                path: s("a.rs"),
                line_number: 1,
                delimiter: s("//"),
                note: s("note 1"),
                metadata: TodoMetadata {
                    assignee: Some(s("bob")),
                    issue: Some(Issue::Numbered(s("#1"))),
                    due: None,
                },
            },
            TodoUpdate {
                path: s("a.rs"),
                line_number: 2,
                delimiter: s("//"),
                note: s("note 2"),
                metadata: TodoMetadata::empty(),
            },
        ]
    );
    assert_eq!(format_updates(Vec::new()), Vec::new());
}

#[test]
fn messages_of_issue_commands() {
    let c = CodeMod::RemoveIssue { issue: s("#1") };
    assert_eq!(c.nothing_to_do(), "No TODOs citing issue \"#1\"");
    assert_eq!(c.done(), "All citations of issue \"#1\" were removed.");
    let c = CodeMod::RemoveAllIssues;
    assert_eq!(c.nothing_to_do(), "No TODOs citing any issues");
    assert_eq!(c.done(), "All citations of issues were removed.");
    let c = CodeMod::RenameIssue { from: s("#1"), to: s("#2") };
    assert_eq!(c.nothing_to_do(), "No TODOs citing issue \"#1\"");
    assert_eq!(c.done(), "All TODOs citing issue \"#1\" assigned to \"#2\"");
    let c = CodeMod::AddIssueForAllUntracked { issue: s("#1") };
    assert_eq!(c.nothing_to_do(), "No TODOs untracked");
    assert_eq!(c.done(), "All untracked TODOs now cite issue \"#1\".");
}

#[test]
fn messages_of_assignee_commands() {
    let c = CodeMod::RemoveAssignee { assignee: s("bob") };
    assert_eq!(c.nothing_to_do(), "No TODOs assigned to \"bob\"");
    assert_eq!(c.done(), "All TODOs assigned to \"bob\" were unassigned.");
    let c = CodeMod::RemoveAllAssignees;
    assert_eq!(c.nothing_to_do(), "No TODOs assigned");
    assert_eq!(c.done(), "All TODOs were unassigned.");
    let c = CodeMod::RenameAssignee { from: s("bob"), to: s("al") };
    assert_eq!(c.nothing_to_do(), "No TODOs assigned to \"bob\"");
    assert_eq!(c.done(), "All TODOs assigned to \"bob\" were reassigned to \"al\"");
    let c = CodeMod::AssignUnassigned { assignee: s("bob") };
    assert_eq!(c.nothing_to_do(), "No TODOs unassigned");
    assert_eq!(c.done(), "All unassigned TODOs assigned to \"bob\"");
    let c = CodeMod::AssignIssue { issue: s("#1"), assignee: s("bob") };
    assert_eq!(c.nothing_to_do(), "No TODOs citing issue \"#1\"");
    assert_eq!(c.done(), "All TODOs citing issue \"#1\" assigned to \"bob\"");
}

#[test]
fn messages_of_due_date_commands() {
    let c = CodeMod::RemoveAllDueDates;
    assert_eq!(c.nothing_to_do(), "No TODOs with due dates");
    assert_eq!(c.done(), "All TODO due dates were removed.");
    let c = CodeMod::AddMissingDueDates { date: s("2030-01-01") };
    assert_eq!(c.nothing_to_do(), "No TODOs without due dates");
    assert_eq!(c.done(), "All TODO without due dates were set to be due \"2030-01-01\".");
    let c = CodeMod::SetIssueDueDate { issue: s("#1"), date: s("2030-01-01") };
    assert_eq!(c.nothing_to_do(), "No TODOs citing issue \"#1\"");
    assert_eq!(c.done(), "All TODO citing issue \"#1\" to be due \"2030-01-01\".");
}
