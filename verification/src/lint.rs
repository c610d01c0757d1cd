//! Rules that annotations are held to, and the report of what breaks them.

use crate::issue::{format_of, Issue, IssueFormat, IssueView};
use crate::metadata::{metadata_wf, MetadataView};
use crate::text::{decimal, join, join_strings, list_contains, push_decimal, views};
use crate::todo::{
    canonical, format_todo_update, formatted, lemma_canonical_keeps_fields, search_result, Todo,
    TodoView,
};
use vstd::prelude::*;

verus! {

/// What annotations are held to.
#[derive(Debug, PartialEq, Eq)]
pub struct LintRules {
    /// Every annotation names an assignee.
    pub require_assignees: bool,
    /// Every annotation cites an issue.
    pub require_issues: bool,
    /// Every annotation carries a due date.
    pub require_due_dates: bool,
    /// The assignees that may be named.
    pub allowed_assignees: Option<Vec<String>>,
    /// The shape that issue references must have.
    pub issue_format: Option<IssueFormat>,
    /// The project keys that keyed issue references may use.
    pub issue_project_keys: Option<Vec<String>>,
}

/// True when the line is not written as the canonical text of its parts.
pub open spec fn breaks_format(t: TodoView) -> bool {
    formatted(t.delimiter, t.note, t.metadata) != t.raw
}

/// True when an assignee is named that the rules do not allow.
pub open spec fn breaks_assignee(m: MetadataView, rules: LintRules) -> bool {
    rules.allowed_assignees matches Some(allowed) && m.assignee matches Some(a) && !views(
        allowed@,
    ).contains(a)
}

/// True when an issue is cited in another shape than the rules ask for.
pub open spec fn breaks_issue_format(m: MetadataView, rules: LintRules) -> bool {
    m.issue matches Some(issue) && rules.issue_format matches Some(format) && format_of(issue)
        != format
}

/// True when a keyed issue is cited whose key the rules do not allow.
pub open spec fn breaks_project_key(m: MetadataView, rules: LintRules) -> bool {
    m.issue matches Some(IssueView::ProjectKey { project_key, .. })
        && rules.issue_project_keys matches Some(keys) && !views(keys@).contains(project_key)
}

/// The label alone where `broken` holds, else nothing.
pub open spec fn label_if(broken: bool, label: Seq<char>) -> Seq<Seq<char>> {
    if broken {
        seq![label]
    } else {
        seq![]
    }
}

/// The labels of the rules that `t` breaks, each rule judged by itself, in
/// the order of the rules.
pub open spec fn lint_errors(t: TodoView, rules: LintRules) -> Seq<Seq<char>> {
    label_if(breaks_format(t), "Invalid format"@) + label_if(
        rules.require_assignees && t.metadata.assignee is None,
        "Missing assignee"@,
    ) + label_if(breaks_assignee(t.metadata, rules), "Invalid assignee"@) + label_if(
        rules.require_issues && t.metadata.issue is None,
        "Missing issue"@,
    ) + label_if(breaks_issue_format(t.metadata, rules), "Invalid issue format"@) + label_if(
        breaks_project_key(t.metadata, rules),
        "Invalid project key"@,
    ) + label_if(rules.require_due_dates && t.metadata.due is None, "Missing due date"@)
}

/// Appends `label` to `errors` where `broken` holds.
fn note_if(errors: &mut Vec<String>, broken: bool, label: &str)
    ensures
        views(final(errors)@) == views(old(errors)@) + label_if(broken, label@),
{
    if broken {
        errors.push(String::from_str(label));
        assert(views(errors@) =~= views(old(errors)@) + seq![label@]);
    } else {
        assert(views(errors@) =~= views(old(errors)@) + Seq::<Seq<char>>::empty());
    }
}

/// The labels of the rules that `todo` breaks.
pub fn get_lint_errors(todo: &Todo, lint_rules: &LintRules) -> (r: Vec<String>)
    ensures
        views(r@) == lint_errors(todo@, *lint_rules),
{
    let mut errors: Vec<String> = Vec::new();
    assert(views(errors@) =~= Seq::<Seq<char>>::empty());
    let formatted = format_todo_update(&todo.delimiter, &todo.note, todo.metadata.clone());
    note_if(&mut errors, todo.raw != formatted, "Invalid format");
    assert(views(errors@) =~= label_if(breaks_format(todo@), "Invalid format"@));
    note_if(
        &mut errors,
        lint_rules.require_assignees && todo.metadata.assignee.is_none(),
        "Missing assignee",
    );
    let invalid_assignee = match (&lint_rules.allowed_assignees, &todo.metadata.assignee) {
        (Some(allowed), Some(assignee)) => !list_contains(allowed, assignee),
        _ => false,
    };
    note_if(&mut errors, invalid_assignee, "Invalid assignee");
    note_if(
        &mut errors,
        lint_rules.require_issues && todo.metadata.issue.is_none(),
        "Missing issue",
    );
    let invalid_format = match (&todo.metadata.issue, &lint_rules.issue_format) {
        (Some(issue), Some(format)) => match (format, issue.format()) {
            (IssueFormat::Numbered, IssueFormat::Numbered) => false,
            (IssueFormat::ProjectKey, IssueFormat::ProjectKey) => false,
            _ => true,
        },
        _ => false,
    };
    note_if(&mut errors, invalid_format, "Invalid issue format");
    let invalid_key = match (&todo.metadata.issue, &lint_rules.issue_project_keys) {
        (Some(Issue::ProjectKey { project_key, .. }), Some(keys)) => !list_contains(
            keys,
            project_key,
        ),
        _ => false,
    };
    note_if(&mut errors, invalid_key, "Invalid project key");
    note_if(
        &mut errors,
        lint_rules.require_due_dates && todo.metadata.due.is_none(),
        "Missing due date",
    );
    errors
}

/// An annotation and the labels of the rules that it breaks.
#[derive(Debug, PartialEq, Eq)]
pub struct LintErrorEntry {
    pub todo: Todo,
    pub errors: Vec<String>,
}

/// What a [`LintErrorEntry`] holds, as character sequences.
pub struct LintEntryView {
    pub todo: TodoView,
    pub errors: Seq<Seq<char>>,
}

impl View for LintErrorEntry {
    type V = LintEntryView;

    open spec fn view(&self) -> LintEntryView {
        LintEntryView { todo: self.todo@, errors: views(self.errors@) }
    }
}

/// The labels as the lines of a list, each behind a tab and a dash.
pub open spec fn listed(errors: Seq<Seq<char>>) -> Seq<Seq<char>> {
    Seq::new(errors.len(), |i: int| "\t- "@ + errors[i])
}

/// The report of one entry: the report line of the annotation, and below it
/// the labels, one on a line.
pub open spec fn cli_result(entry: LintEntryView) -> Seq<char> {
    search_result(entry.todo) + "\n"@ + join(listed(entry.errors), "\n"@)
}

impl LintErrorEntry {
    /// The report of this entry.
    pub fn as_cli_result(&self) -> (r: String)
        ensures
            r@ == cli_result(self@),
    {
        let mut lines: Vec<String> = Vec::new();
        let mut i: usize = 0;
        while i < self.errors.len()
            invariant
                i <= self.errors.len(),
                views(lines@) == listed(views(self.errors@)).take(i as int),
            decreases self.errors.len() - i,
        {
            let ghost before = views(lines@);
            let mut line = String::from_str("\t- ");
            line.append(self.errors[i].as_str());
            assert(line@ == "\t- "@ + self.errors@[i as int]@);
            assert(listed(views(self.errors@))[i as int] == line@);
            lines.push(line);
            assert(views(lines@) =~= before.push(line@));
            assert(views(lines@) =~= listed(views(self.errors@)).take(i + 1));
            i += 1;
        }
        assert(views(lines@) =~= listed(views(self.errors@)));
        let mut r = self.todo.as_search_result();
        r.append("\n");
        r.append(join_strings(&lines, "\n").as_str());
        r
    }
}

/// The entries of a report: one for each annotation of `list` that breaks a
/// rule, in the order of `list`.
pub open spec fn lint_report(list: Seq<TodoView>, rules: LintRules) -> Seq<LintEntryView>
    decreases list.len(),
{
    if list.len() == 0 {
        seq![]
    } else {
        let errors = lint_errors(list.last(), rules);
        let before = lint_report(list.drop_last(), rules);
        if errors.len() > 0 {
            before.push(LintEntryView { todo: list.last(), errors })
        } else {
            before
        }
    }
}

/// Holds every annotation of `list` to `rules`. The result is empty exactly
/// where no annotation breaks a rule.
pub fn lint_todo_list(list: Vec<Todo>, rules: &LintRules) -> (r: Vec<LintErrorEntry>)
    ensures
        views(r@) == lint_report(views(list@), *rules),
{
    let mut r: Vec<LintErrorEntry> = Vec::new();
    assert(views(r@) =~= Seq::<LintEntryView>::empty());
    assert(views(list@).take(0) =~= Seq::<TodoView>::empty());
    for todo in it: list
        invariant
            it.seq() == list@,
            views(r@) == lint_report(views(list@).take(it.index() as int), *rules),
    {
        let ghost i = it.index() as int;
        let ghost next = views(list@).take(i + 1);
        assert(next.drop_last() =~= views(list@).take(i));
        assert(next.last() == todo@);
        let errors = get_lint_errors(&todo, rules);
        if errors.len() > 0 {
            let ghost before = views(r@);
            let ghost entry = LintEntryView { todo: todo@, errors: views(errors@) };
            r.push(LintErrorEntry { todo, errors });
            assert(views(r@) =~= before.push(entry));
        }
    }
    assert(views(list@).take(list@.len() as int) =~= views(list@));
    r
}

/// An annotation that was put in canonical form does not break the format
/// rule, whatever the other rules are.
pub proof fn lemma_canonical_has_valid_format(t: TodoView, rules: LintRules)
    requires
        metadata_wf(t.metadata),
    ensures
        !breaks_format(canonical(t)),
        !lint_errors(canonical(t), rules).contains("Invalid format"@),
{
    lemma_canonical_keeps_fields(t);
    let errors = lint_errors(canonical(t), rules);
    reveal_strlit("Invalid format");
    reveal_strlit("Missing assignee");
    reveal_strlit("Invalid assignee");
    reveal_strlit("Missing issue");
    reveal_strlit("Invalid issue format");
    reveal_strlit("Invalid project key");
    reveal_strlit("Missing due date");
    assert forall|i: int| 0 <= i < errors.len() implies (#[trigger] errors[i]).len() != 14 by {}
    assert("Invalid format"@.len() == 14);
}

/// The report of a lint run: praise where nothing breaks a rule, else the
/// number of entries and the report of each, a blank line between them.
pub open spec fn lint_text(entries: Seq<LintEntryView>) -> Seq<char> {
    if entries.len() == 0 {
        "Lint errors (0): Great job!"@
    } else {
        "Lint errors ("@ + decimal(entries.len()) + "):\n\n"@ + join(
            Seq::new(entries.len(), |i: int| cli_result(entries[i])),
            "\n\n"@,
        )
    }
}

/// The report of a lint run.
pub fn render_lint(entries: &Vec<LintErrorEntry>) -> (r: String)
    ensures
        r@ == lint_text(views(entries@)),
{
    if entries.len() == 0 {
        return String::from_str("Lint errors (0): Great job!");
    }
    let ghost all = Seq::new(entries@.len(), |i: int| cli_result(entries@[i]@));
    let mut parts: Vec<String> = Vec::new();
    let mut i: usize = 0;
    while i < entries.len()
        invariant
            i <= entries.len(),
            all == Seq::new(entries@.len(), |i: int| cli_result(entries@[i]@)),
            views(parts@) == all.take(i as int),
        decreases entries.len() - i,
    {
        let ghost before = views(parts@);
        let part = entries[i].as_cli_result();
        assert(part@ == all[i as int]);
        parts.push(part);
        assert(views(parts@) =~= before.push(part@));
        assert(views(parts@) =~= all.take(i + 1));
        i += 1;
    }
    assert(views(parts@) =~= all);
    assert(all =~= Seq::new(views(entries@).len(), |i: int| cli_result(views(entries@)[i])));
    let mut r = String::from_str("Lint errors (");
    push_decimal(&mut r, entries.len() as u64);
    r.append("):\n\n");
    r.append(join_strings(&parts, "\n\n").as_str());
    r
}

} // verus!
