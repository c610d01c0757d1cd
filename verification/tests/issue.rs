use todo_track::issue::{parse_issue, Issue, IssueFormat};

fn numbered(s: &str) -> Issue {
    Issue::Numbered(s.to_string())
}

fn keyed(key: &str, number: &str) -> Issue {
    Issue::ProjectKey { project_key: key.to_string(), number: number.to_string() }
}

#[test]
fn hash_and_digits_is_numbered() {
    assert_eq!(parse_issue("#42"), Some(numbered("#42")));
    assert_eq!(parse_issue("#0"), Some(numbered("#0")));
}

#[test]
fn key_hyphen_digits_is_project_key() {
    assert_eq!(parse_issue("ABC-123"), Some(keyed("ABC", "123")));
    assert_eq!(parse_issue("A_1-7"), Some(keyed("A_1", "7")));
    assert_eq!(parse_issue("X-0"), Some(keyed("X", "0")));
}

#[test]
fn lowercase_key_is_no_issue() {
    assert_eq!(parse_issue("abc-123"), None);
}

#[test]
fn malformed_tokens_are_no_issue() {
    for token in ["", "#", "#1a", "# 1", "1-2", "_A-1", "ABC-", "-1", "ABC-1-2", "ABC123", "A-b", " #1", "#1 ", "A\u{0663}-1", "A-\u{0663}"] {
        assert_eq!(parse_issue(token), None, "{:?}", token);
    }
}

#[test]
fn issue_text_is_canonical() {
    assert_eq!(numbered("#7").as_string(), "#7");
    assert_eq!(keyed("ABC", "123").as_string(), "ABC-123");
}

#[test]
fn issue_text_reads_back() {
    for issue in [numbered("#7"), keyed("ABC", "123"), keyed("Q_9", "001")] {
        assert_eq!(parse_issue(&issue.as_string()), Some(issue));
    }
}

#[test]
fn issue_format_names() {
    assert_eq!(IssueFormat::from_str("numbered"), Some(IssueFormat::Numbered));
    assert_eq!(IssueFormat::from_str("project-key"), Some(IssueFormat::ProjectKey));
    assert_eq!(IssueFormat::from_str("Numbered"), None);
    assert_eq!(IssueFormat::from_str(""), None);
}

#[test]
fn issue_format_of_reference() {
    assert_eq!(numbered("#1").format(), IssueFormat::Numbered);
    assert_eq!(keyed("A", "1").format(), IssueFormat::ProjectKey);
}
