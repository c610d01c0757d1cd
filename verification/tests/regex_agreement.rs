use regex::Regex;
use todo_track::issue::{parse_issue, Issue};
use todo_track::metadata::TodoMetadata;

fn samples() -> Vec<&'static str> {
    vec![
        "", "#", "#1", "#123", "#12a", "##1", "#1#", " #1", "#1 ", "#\u{0661}", "A-1", "ABC-123",
        "A_B9-007", "AbC-1", "abc-1", "9A-1", "_A-1", "A-", "-1", "A--1", "A-1-2", "A-B-1", "A1",
        "A-1a", "\u{c9}-1", "A-\u{0967}", "2024-01-01", "x2024-01-01y", "2024-1-01", "2024-01-1",
        "20240101", "2024-01-0a", "12024-01-012", " 2024-01-01 ", "2024-01-01\n", "2024-01-01 x", "2024--01-01", "@bob", "@2024-01-01", "A-2024",
        "1999-12-31-2000-01-01", "a,b", "\n#1", "#1\n",
    ]
}

#[test]
fn issues_are_read_as_the_patterns_match() {
    let numbered = Regex::new(r"^#[[:digit:]]+$").unwrap();
    let project_key = Regex::new(r"^([A-Z][A-Z_0-9]*)-([[:digit:]]+)$").unwrap();
    for token in samples() {
        let expected = if numbered.is_match(token) {
            Some(Issue::Numbered(token.to_owned()))
        } else if let Some(captures) = project_key.captures(token) {
            let (_, [key, number]) = captures.extract();
            Some(Issue::ProjectKey { project_key: key.to_string(), number: number.to_string() })
        } else {
            None
        };
        assert_eq!(parse_issue(token), expected, "{:?}", token);
    }
}

#[test]
fn due_dates_are_read_as_the_pattern_matches_the_whole_token() {
    let date_format = Regex::new(r"^[0-9]{4}-[0-9]{2}-[0-9]{2}$").unwrap();
    for payload in samples() {
        if payload.contains(',') {
            continue;
        }
        let token = payload.trim();
        let expected = if date_format.is_match(token) { Some(token.to_string()) } else { None };
        assert_eq!(TodoMetadata::from_string(payload.to_string()).due, expected, "{:?}", payload);
    }
}
