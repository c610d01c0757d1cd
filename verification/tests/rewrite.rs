use todo_track::issue::Issue;
use todo_track::metadata::TodoMetadata;
use todo_track::rewrite::{
    group_by_file, rewrite_file, rewrite_line, rewrite_lines, FileUpdates, TodoUpdate,
};

fn text(s: &str) -> Option<String> {
    Some(s.to_string())
}

fn lines(items: &[&str]) -> Vec<String> {
    items.iter().map(|s| s.to_string()).collect()
}

fn update(path: &str, line_number: u64, delimiter: &str, note: &str) -> TodoUpdate {
    TodoUpdate {
        path: path.to_string(),
        line_number,
        delimiter: delimiter.to_string(),
        note: note.to_string(),
        metadata: TodoMetadata::empty(),
    }
}

fn assigned(mut update: TodoUpdate, assignee: &str) -> TodoUpdate {
    update.metadata.assignee = text(assignee);
    update
}

#[test]
fn only_the_named_line_changes() {
    let before = lines(&["// TODO: a", "x = 1", "// TODO: b"]);
    let after = rewrite_lines(before, &vec![update("f", 1, "//", "new note")]);
    assert_eq!(after, lines(&["// TODO: new note", "x = 1", "// TODO: b"]));
}

#[test]
fn text_before_the_delimiter_stays() {
    let u = assigned(update("f", 1, "//", "b"), "bob");
    assert_eq!(rewrite_line("    // TODO: a", &u), "    // TODO(@bob): b");
    assert_eq!(rewrite_line("\tlet x = 1; // todo a", &u), "\tlet x = 1; // TODO(@bob): b");
    assert_eq!(rewrite_line("// TODO: a // b", &u), "// TODO(@bob): b");
    let u = update("f", 1, "/*", "b */");
    assert_eq!(rewrite_line("  /* TODO(@x): a */", &u), "  /* TODO: b */");
    let u = update("f", 1, "#", "b");
    assert_eq!(rewrite_line("caf\u{e9} # TODO: a", &u), "caf\u{e9} # TODO: b");
}

#[test]
fn line_without_the_delimiter_is_kept_in_front() {
    let u = update("f", 1, "//", "b");
    assert_eq!(rewrite_line("x = 1", &u), "x = 1// TODO: b");
    assert_eq!(rewrite_line("", &u), "// TODO: b");
    assert_eq!(rewrite_line("/", &u), "/// TODO: b");
    let u = update("f", 1, "", "b");
    assert_eq!(rewrite_line("x = 1", &u), " TODO: b");
}

#[test]
fn canonical_fields_are_written() {
    let mut u = update("f", 2, "//", "fix");
    u.metadata = TodoMetadata {
        assignee: text("bob"),
        issue: Some(Issue::ProjectKey { project_key: "ABC".to_string(), number: "1".to_string() }),
        due: text("2024-01-01"),
    };
    let after = rewrite_lines(lines(&["a", "  // TODO: b", "c"]), &vec![u]);
    assert_eq!(after, lines(&["a", "  // TODO(ABC-1, @bob, 2024-01-01): fix", "c"]));
}

#[test]
fn later_update_of_a_line_wins() {
    let updates =
        vec![update("f", 2, "//", "first"), update("f", 3, "//", "other"), update("f", 2, "//", "second")];
    let after = rewrite_lines(lines(&["// TODO: a", "// TODO: b", "// TODO: c"]), &updates);
    assert_eq!(after, lines(&["// TODO: a", "// TODO: second", "// TODO: other"]));
}

#[test]
fn updates_of_lines_that_are_not_there_change_nothing() {
    let before = lines(&["// TODO: a", "// TODO: b"]);
    let updates =
        vec![update("f", 0, "//", "x"), update("f", 3, "//", "y"), update("f", u64::MAX, "//", "z")];
    assert_eq!(rewrite_lines(before.clone(), &updates), before);
    assert_eq!(rewrite_lines(before.clone(), &Vec::new()), before);
    assert_eq!(rewrite_lines(Vec::new(), &updates), Vec::<String>::new());
}

#[test]
fn file_text_joins_lines_with_line_feeds() {
    let before = lines(&["// TODO: a", "x = 1\r", "", "// TODO: b"]);
    let text = rewrite_file(before, &vec![update("f", 4, "//", "c")]);
    assert_eq!(text, "// TODO: a\nx = 1\r\n\n// TODO: c");
    assert_eq!(rewrite_file(Vec::new(), &Vec::new()), "");
    assert_eq!(rewrite_file(lines(&["one"]), &Vec::new()), "one");
}

#[test]
fn updates_are_sorted_by_file_in_their_order() {
    let updates = vec![
        update("a.rs", 1, "//", "1"),
        update("b.rs", 1, "//", "2"),
        update("a.rs", 5, "//", "3"),
        update("c.rs", 2, "#", "4"),
        update("b.rs", 1, "//", "5"),
    ];
    let mut groups = group_by_file(updates);
    groups.sort_by(|x, y| x.path.cmp(&y.path));
    assert_eq!(
        groups,
        vec![
            FileUpdates {
                path: "a.rs".to_string(),
                updates: vec![update("a.rs", 1, "//", "1"), update("a.rs", 5, "//", "3")],
            },
            FileUpdates {
                path: "b.rs".to_string(),
                updates: vec![update("b.rs", 1, "//", "2"), update("b.rs", 1, "//", "5")],
            },
            FileUpdates { path: "c.rs".to_string(), updates: vec![update("c.rs", 2, "#", "4")] },
        ]
    );
}

#[test]
fn no_updates_name_no_file() {
    assert_eq!(group_by_file(Vec::new()), Vec::new());
}
