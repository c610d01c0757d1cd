//! Changes made to many annotations at once: which annotations a command
//! picks, what it writes into them, and what it says afterwards.

use crate::issue::{issue_of, parse_issue, Issue};
use crate::metadata::{MetadataView, TodoMetadata};
use crate::query::{issue_field, issue_string};
use crate::rewrite::{
    grouped, lemma_no_update_no_change, updated_lines, FileUpdatesView, TodoUpdate, UpdateView,
};
use crate::text::{opt_view, views};
use crate::todo::{Todo, TodoView};
use vstd::prelude::*;

verus! {

/// A change to the annotations of a tree.
#[derive(Debug, PartialEq, Eq)]
pub enum CodeMod {
    /// Drops the citation of one issue.
    RemoveIssue { issue: String },
    /// Drops every citation.
    RemoveAllIssues,
    /// Cites another issue in place of one.
    RenameIssue { from: String, to: String },
    /// Cites an issue wherever none is cited.
    AddIssueForAllUntracked { issue: String },
    /// Drops one assignee.
    RemoveAssignee { assignee: String },
    /// Drops every assignee.
    RemoveAllAssignees,
    /// Names another assignee in place of one.
    RenameAssignee { from: String, to: String },
    /// Names an assignee wherever none is named.
    AssignUnassigned { assignee: String },
    /// Names an assignee wherever one issue is cited.
    AssignIssue { issue: String, assignee: String },
    /// Drops every due date.
    RemoveAllDueDates,
    /// Sets a due date wherever there is none.
    AddMissingDueDates { date: String },
    /// Sets a due date wherever one issue is cited.
    SetIssueDueDate { issue: String, date: String },
}

/// True when the command picks an annotation with the fields `m`.
pub open spec fn selects(command: CodeMod, m: MetadataView) -> bool {
    match command {
        CodeMod::RemoveIssue { issue } => issue_field(m) == Some(issue@),
        CodeMod::RemoveAllIssues => m.issue is Some,
        CodeMod::RenameIssue { from, .. } => issue_field(m) == Some(from@),
        CodeMod::AddIssueForAllUntracked { .. } => m.issue is None,
        CodeMod::RemoveAssignee { assignee } => m.assignee == Some(assignee@),
        CodeMod::RemoveAllAssignees => m.assignee is Some,
        CodeMod::RenameAssignee { from, .. } => m.assignee == Some(from@),
        CodeMod::AssignUnassigned { .. } => m.assignee is None,
        CodeMod::AssignIssue { issue, .. } => issue_field(m) == Some(issue@),
        CodeMod::RemoveAllDueDates => m.due is Some,
        CodeMod::AddMissingDueDates { .. } => m.due is None,
        CodeMod::SetIssueDueDate { issue, .. } => issue_field(m) == Some(issue@),
    }
}

/// The text in which the command names the issue to cite, where it names
/// one.
pub open spec fn cited_text(command: CodeMod) -> Option<Seq<char>> {
    match command {
        CodeMod::RenameIssue { to, .. } => Some(to@),
        CodeMod::AddIssueForAllUntracked { issue } => Some(issue@),
        _ => None,
    }
}

/// True when the issue that the command is to cite, if any, is written as an
/// issue reference.
pub open spec fn command_valid(command: CodeMod) -> bool {
    cited_text(command) matches Some(text) ==> issue_of(text) is Some
}

/// The fields of a picked annotation after the command: the field that the
/// command is about is dropped or set, the others stay.
pub open spec fn changed(command: CodeMod, m: MetadataView) -> MetadataView {
    match command {
        CodeMod::RemoveIssue { .. } | CodeMod::RemoveAllIssues => MetadataView {
            issue: None,
            ..m
        },
        CodeMod::RenameIssue { to, .. } => MetadataView { issue: issue_of(to@), ..m },
        CodeMod::AddIssueForAllUntracked { issue } => MetadataView {
            issue: issue_of(issue@),
            ..m
        },
        CodeMod::RemoveAssignee { .. } | CodeMod::RemoveAllAssignees => MetadataView {
            assignee: None,
            ..m
        },
        CodeMod::RenameAssignee { to, .. } => MetadataView { assignee: Some(to@), ..m },
        CodeMod::AssignUnassigned { assignee } => MetadataView { assignee: Some(assignee@), ..m },
        CodeMod::AssignIssue { assignee, .. } => MetadataView { assignee: Some(assignee@), ..m },
        CodeMod::RemoveAllDueDates => MetadataView { due: None, ..m },
        CodeMod::AddMissingDueDates { date } => MetadataView { due: Some(date@), ..m },
        CodeMod::SetIssueDueDate { date, .. } => MetadataView { due: Some(date@), ..m },
    }
}

/// The update that writes the fields `m` into the annotation `t`.
pub open spec fn update_with(t: TodoView, m: MetadataView) -> UpdateView {
    UpdateView {
        path: t.path,
        line_number: t.line_number,
        delimiter: t.delimiter,
        note: t.note,
        metadata: m,
    }
}

/// The updates that the command makes in `list`: one for each annotation
/// that it picks, in the order of `list`.
pub open spec fn planned(list: Seq<TodoView>, command: CodeMod) -> Seq<UpdateView>
    decreases list.len(),
{
    if list.len() == 0 {
        seq![]
    } else {
        let before = planned(list.drop_last(), command);
        let t = list.last();
        if selects(command, t.metadata) {
            before.push(update_with(t, changed(command, t.metadata)))
        } else {
            before
        }
    }
}

/// The updates that put every annotation of `list` in canonical form.
pub open spec fn canonical_updates(list: Seq<TodoView>) -> Seq<UpdateView> {
    Seq::new(list.len(), |i: int| update_with(list[i], list[i].metadata))
}

/// True when `o` holds the text of `s`.
fn holds_text(o: &Option<String>, s: &String) -> (b: bool)
    ensures
        b == (opt_view(*o) == Some(s@)),
{
    match o {
        Some(text) => *text == *s,
        None => false,
    }
}

impl CodeMod {
    /// True when the command picks an annotation with the fields `metadata`.
    pub fn picks(&self, metadata: &TodoMetadata) -> (b: bool)
        ensures
            b == selects(*self, metadata@),
    {
        match self {
            CodeMod::RemoveIssue { issue } => holds_text(&issue_string(metadata), issue),
            CodeMod::RemoveAllIssues => metadata.issue.is_some(),
            CodeMod::RenameIssue { from, .. } => holds_text(&issue_string(metadata), from),
            CodeMod::AddIssueForAllUntracked { .. } => metadata.issue.is_none(),
            CodeMod::RemoveAssignee { assignee } => holds_text(&metadata.assignee, assignee),
            CodeMod::RemoveAllAssignees => metadata.assignee.is_some(),
            CodeMod::RenameAssignee { from, .. } => holds_text(&metadata.assignee, from),
            CodeMod::AssignUnassigned { .. } => metadata.assignee.is_none(),
            CodeMod::AssignIssue { issue, .. } => holds_text(&issue_string(metadata), issue),
            CodeMod::RemoveAllDueDates => metadata.due.is_some(),
            CodeMod::AddMissingDueDates { .. } => metadata.due.is_none(),
            CodeMod::SetIssueDueDate { issue, .. } => holds_text(&issue_string(metadata), issue),
        }
    }

    /// The issue that the command is to cite, read from its text. Nothing
    /// where the command names none, or names one that is not written as an
    /// issue reference.
    pub fn cited_issue(&self) -> (r: Option<Issue>)
        ensures
            opt_view(r) == match cited_text(*self) {
                Some(text) => issue_of(text),
                None => None,
            },
    {
        match self {
            CodeMod::RenameIssue { to, .. } => parse_issue(to.as_str()),
            CodeMod::AddIssueForAllUntracked { issue } => parse_issue(issue.as_str()),
            _ => None,
        }
    }

    /// The fields of a picked annotation after the command. `cited` is the
    /// issue that the command is to cite.
    fn apply(&self, metadata: TodoMetadata, cited: &Option<Issue>) -> (r: TodoMetadata)
        requires
            opt_view(*cited) == match cited_text(*self) {
                Some(text) => issue_of(text),
                None => None,
            },
        ensures
            r@ == changed(*self, metadata@),
    {
        let TodoMetadata { assignee, issue, due } = metadata;
        match self {
            CodeMod::RemoveIssue { .. } | CodeMod::RemoveAllIssues => TodoMetadata {
                assignee,
                issue: None,
                due,
            },
            CodeMod::RenameIssue { .. } | CodeMod::AddIssueForAllUntracked { .. } => TodoMetadata {
                assignee,
                issue: match cited {
                    Some(i) => Some(i.clone()),
                    None => None,
                },
                due,
            },
            CodeMod::RemoveAssignee { .. } | CodeMod::RemoveAllAssignees => TodoMetadata {
                assignee: None,
                issue,
                due,
            },
            CodeMod::RenameAssignee { to, .. } => TodoMetadata {
                assignee: Some(to.clone()),
                issue,
                due,
            },
            CodeMod::AssignUnassigned { assignee: name } => TodoMetadata {
                assignee: Some(name.clone()),
                issue,
                due,
            },
            CodeMod::AssignIssue { assignee: name, .. } => TodoMetadata {
                assignee: Some(name.clone()),
                issue,
                due,
            },
            CodeMod::RemoveAllDueDates => TodoMetadata { assignee, issue, due: None },
            CodeMod::AddMissingDueDates { date } => TodoMetadata {
                assignee,
                issue,
                due: Some(date.clone()),
            },
            CodeMod::SetIssueDueDate { date, .. } => TodoMetadata {
                assignee,
                issue,
                due: Some(date.clone()),
            },
        }
    }
}

/// Why a command was turned down before any annotation was looked at.
#[derive(Debug, PartialEq, Eq)]
pub enum ModError {
    /// The issue to cite is not written as an issue reference. Holds the
    /// text that was given.
    InvalidIssue(String),
}

/// The updates that the command makes in `list`, one for each annotation
/// that it picks. A command that is to cite an issue is turned down where
/// the issue is not written as an issue reference.
pub fn plan_updates(list: Vec<Todo>, command: &CodeMod) -> (r: Result<Vec<TodoUpdate>, ModError>)
    ensures
        match r {
            Ok(updates) => command_valid(*command) && views(updates@) == planned(
                views(list@),
                *command,
            ),
            Err(ModError::InvalidIssue(text)) => !command_valid(*command) && Some(text@)
                == cited_text(*command),
        },
{
    let cited = command.cited_issue();
    match command {
        CodeMod::RenameIssue { to, .. } => {
            if cited.is_none() {
                return Err(ModError::InvalidIssue(to.clone()));
            }
        },
        CodeMod::AddIssueForAllUntracked { issue } => {
            if cited.is_none() {
                return Err(ModError::InvalidIssue(issue.clone()));
            }
        },
        _ => {},
    }
    let mut r: Vec<TodoUpdate> = Vec::new();
    assert(views(r@) =~= Seq::<UpdateView>::empty());
    assert(views(list@).take(0) =~= Seq::<TodoView>::empty());
    for todo in it: list
        invariant
            it.seq() == list@,
            opt_view(cited) == match cited_text(*command) {
                Some(text) => issue_of(text),
                None => None,
            },
            views(r@) == planned(views(list@).take(it.index() as int), *command),
    {
        let ghost i = it.index() as int;
        let ghost next = views(list@).take(i + 1);
        assert(next.drop_last() =~= views(list@).take(i));
        assert(next.last() == todo@);
        if command.picks(&todo.metadata) {
            let ghost before = views(r@);
            let Todo { raw: _, delimiter, path, line_number, note, meta: _, metadata } = todo;
            let update = TodoUpdate {
                path,
                line_number,
                delimiter,
                note,
                metadata: command.apply(metadata, &cited),
            };
            r.push(update);
            assert(views(r@) =~= before.push(update@));
        }
    }
    assert(views(list@).take(list@.len() as int) =~= views(list@));
    Ok(r)
}

/// The updates that put every annotation of `list` in canonical form.
pub fn format_updates(list: Vec<Todo>) -> (r: Vec<TodoUpdate>)
    ensures
        views(r@) == canonical_updates(views(list@)),
{
    let mut r: Vec<TodoUpdate> = Vec::new();
    for todo in it: list
        invariant
            it.seq() == list@,
            r@.len() == it.index(),
            views(r@) == canonical_updates(views(list@)).take(it.index() as int),
    {
        let ghost i = it.index() as int;
        let ghost before = views(r@);
        let Todo { raw: _, delimiter, path, line_number, note, meta: _, metadata } = todo;
        let update = TodoUpdate { path, line_number, delimiter, note, metadata };
        assert(update@ == canonical_updates(views(list@))[i]);
        r.push(update);
        assert(views(r@) =~= before.push(update@));
        assert(views(r@) =~= canonical_updates(views(list@)).take(i + 1));
    }
    assert(views(r@) =~= canonical_updates(views(list@)));
    r
}

/// The text between double quotes.
pub open spec fn quoted(text: Seq<char>) -> Seq<char> {
    "\""@ + text + "\""@
}

/// What the command says when it picked no annotation.
pub open spec fn nothing_message(command: CodeMod) -> Seq<char> {
    match command {
        CodeMod::RemoveIssue { issue } => "No TODOs citing issue "@ + quoted(issue@),
        CodeMod::RemoveAllIssues => "No TODOs citing any issues"@,
        CodeMod::RenameIssue { from, .. } => "No TODOs citing issue "@ + quoted(from@),
        CodeMod::AddIssueForAllUntracked { .. } => "No TODOs untracked"@,
        CodeMod::RemoveAssignee { assignee } => "No TODOs assigned to "@ + quoted(assignee@),
        CodeMod::RemoveAllAssignees => "No TODOs assigned"@,
        CodeMod::RenameAssignee { from, .. } => "No TODOs assigned to "@ + quoted(from@),
        CodeMod::AssignUnassigned { .. } => "No TODOs unassigned"@,
        CodeMod::AssignIssue { issue, .. } => "No TODOs citing issue "@ + quoted(issue@),
        CodeMod::RemoveAllDueDates => "No TODOs with due dates"@,
        CodeMod::AddMissingDueDates { .. } => "No TODOs without due dates"@,
        CodeMod::SetIssueDueDate { issue, .. } => "No TODOs citing issue "@ + quoted(issue@),
    }
}

/// What the command says when its updates were written.
pub open spec fn done_message(command: CodeMod) -> Seq<char> {
    match command {
        CodeMod::RemoveIssue { issue } => "All citations of issue "@ + quoted(issue@)
            + " were removed."@,
        CodeMod::RemoveAllIssues => "All citations of issues were removed."@,
        CodeMod::RenameIssue { from, to } => "All TODOs citing issue "@ + quoted(from@)
            + " assigned to "@ + quoted(to@),
        CodeMod::AddIssueForAllUntracked { issue } => "All untracked TODOs now cite issue "@
            + quoted(issue@) + "."@,
        CodeMod::RemoveAssignee { assignee } => "All TODOs assigned to "@ + quoted(assignee@)
            + " were unassigned."@,
        CodeMod::RemoveAllAssignees => "All TODOs were unassigned."@,
        CodeMod::RenameAssignee { from, to } => "All TODOs assigned to "@ + quoted(from@)
            + " were reassigned to "@ + quoted(to@),
        CodeMod::AssignUnassigned { assignee } => "All unassigned TODOs assigned to "@ + quoted(
            assignee@,
        ),
        CodeMod::AssignIssue { issue, assignee } => "All TODOs citing issue "@ + quoted(issue@)
            + " assigned to "@ + quoted(assignee@),
        CodeMod::RemoveAllDueDates => "All TODO due dates were removed."@,
        CodeMod::AddMissingDueDates { date } => "All TODO without due dates were set to be due "@
            + quoted(date@) + "."@,
        CodeMod::SetIssueDueDate { issue, date } => "All TODO citing issue "@ + quoted(issue@)
            + " to be due "@ + quoted(date@) + "."@,
    }
}

/// What is said of a command that was turned down.
pub open spec fn refusal_message(command: CodeMod, text: Seq<char>) -> Seq<char> {
    match command {
        CodeMod::RenameIssue { .. } => "Invalid replacement issue "@ + quoted(text),
        _ => "Invalid issue "@ + quoted(text),
    }
}

/// Appends `text` between double quotes to `out`.
fn push_quoted(out: &mut String, text: &String)
    ensures
        final(out)@ == old(out)@ + quoted(text@),
{
    out.append("\"");
    out.append(text.as_str());
    out.append("\"");
    assert(out@ =~= old(out)@ + quoted(text@));
}

/// `head`, then `text` between double quotes, then `tail`.
fn frame(head: &str, text: &String, tail: &str) -> (r: String)
    ensures
        r@ == head@ + quoted(text@) + tail@,
{
    let mut r = String::from_str(head);
    push_quoted(&mut r, text);
    r.append(tail);
    r
}

/// `head`, `first` between double quotes, `middle`, `second` between double
/// quotes, `tail`.
fn frame_two(head: &str, first: &String, middle: &str, second: &String, tail: &str) -> (r: String)
    ensures
        r@ == head@ + quoted(first@) + middle@ + quoted(second@) + tail@,
{
    let mut r = frame(head, first, middle);
    push_quoted(&mut r, second);
    r.append(tail);
    r
}

impl CodeMod {
    /// What the command says when it picked no annotation.
    pub fn nothing_to_do(&self) -> (r: String)
        ensures
            r@ == nothing_message(*self),
    {
        let r = match self {
            CodeMod::RemoveIssue { issue } => frame("No TODOs citing issue ", issue, ""),
            CodeMod::RemoveAllIssues => String::from_str("No TODOs citing any issues"),
            CodeMod::RenameIssue { from, .. } => frame("No TODOs citing issue ", from, ""),
            CodeMod::AddIssueForAllUntracked { .. } => String::from_str("No TODOs untracked"),
            CodeMod::RemoveAssignee { assignee } => frame("No TODOs assigned to ", assignee, ""),
            CodeMod::RemoveAllAssignees => String::from_str("No TODOs assigned"),
            CodeMod::RenameAssignee { from, .. } => frame("No TODOs assigned to ", from, ""),
            CodeMod::AssignUnassigned { .. } => String::from_str("No TODOs unassigned"),
            CodeMod::AssignIssue { issue, .. } => frame("No TODOs citing issue ", issue, ""),
            CodeMod::RemoveAllDueDates => String::from_str("No TODOs with due dates"),
            CodeMod::AddMissingDueDates { .. } => String::from_str("No TODOs without due dates"),
            CodeMod::SetIssueDueDate { issue, .. } => frame("No TODOs citing issue ", issue, ""),
        };
        proof {
            reveal_strlit("");
            assert(r@ =~= nothing_message(*self));
        }
        r
    }

    /// What the command says when its updates were written.
    pub fn done(&self) -> (r: String)
        ensures
            r@ == done_message(*self),
    {
        let r = match self {
            CodeMod::RemoveIssue { issue } => frame(
                "All citations of issue ",
                issue,
                " were removed.",
            ),
            CodeMod::RemoveAllIssues => String::from_str("All citations of issues were removed."),
            CodeMod::RenameIssue { from, to } => frame_two(
                "All TODOs citing issue ",
                from,
                " assigned to ",
                to,
                "",
            ),
            CodeMod::AddIssueForAllUntracked { issue } => frame(
                "All untracked TODOs now cite issue ",
                issue,
                ".",
            ),
            CodeMod::RemoveAssignee { assignee } => frame(
                "All TODOs assigned to ",
                assignee,
                " were unassigned.",
            ),
            CodeMod::RemoveAllAssignees => String::from_str("All TODOs were unassigned."),
            CodeMod::RenameAssignee { from, to } => frame_two(
                "All TODOs assigned to ",
                from,
                " were reassigned to ",
                to,
                "",
            ),
            CodeMod::AssignUnassigned { assignee } => frame(
                "All unassigned TODOs assigned to ",
                assignee,
                "",
            ),
            CodeMod::AssignIssue { issue, assignee } => frame_two(
                "All TODOs citing issue ",
                issue,
                " assigned to ",
                assignee,
                "",
            ),
            CodeMod::RemoveAllDueDates => String::from_str("All TODO due dates were removed."),
            CodeMod::AddMissingDueDates { date } => frame(
                "All TODO without due dates were set to be due ",
                date,
                ".",
            ),
            CodeMod::SetIssueDueDate { issue, date } => frame_two(
                "All TODO citing issue ",
                issue,
                " to be due ",
                date,
                ".",
            ),
        };
        proof {
            reveal_strlit("");
            assert(r@ =~= done_message(*self));
        }
        r
    }

    /// What is said of this command where it was turned down with `error`.
    pub fn refusal(&self, error: &ModError) -> (r: String)
        ensures
            r@ == refusal_message(
                *self,
                match *error {
                    ModError::InvalidIssue(text) => text@,
                },
            ),
    {
        let r = match (self, error) {
            (CodeMod::RenameIssue { .. }, ModError::InvalidIssue(text)) => frame(
                "Invalid replacement issue ",
                text,
                "",
            ),
            (_, ModError::InvalidIssue(text)) => frame("Invalid issue ", text, ""),
        };
        proof {
            reveal_strlit("");
            assert(r@ =~= refusal_message(
                *self,
                match *error {
                    ModError::InvalidIssue(text) => text@,
                },
            ));
        }
        r
    }
}

/// A command that picks no annotation plans no update, so that no file is
/// named and no line changes.
pub proof fn lemma_nothing_picked(
    list: Seq<TodoView>,
    command: CodeMod,
    groups: Seq<FileUpdatesView>,
    lines: Seq<Seq<char>>,
)
    requires
        forall|i: int| 0 <= i < list.len() ==> !selects(command, (#[trigger] list[i]).metadata),
        grouped(groups, planned(list, command)),
    ensures
        planned(list, command).len() == 0,
        groups.len() == 0,
        updated_lines(lines, planned(list, command)) == lines,
{
    lemma_planned_empty(list, command);
    assert(planned(list, command) =~= Seq::<UpdateView>::empty());
    lemma_no_update_no_change(groups, lines);
}

/// A command that picks no annotation plans no update.
proof fn lemma_planned_empty(list: Seq<TodoView>, command: CodeMod)
    requires
        forall|i: int| 0 <= i < list.len() ==> !selects(command, (#[trigger] list[i]).metadata),
    ensures
        planned(list, command).len() == 0,
    decreases list.len(),
{
    if list.len() > 0 {
        assert forall|i: int| 0 <= i < list.drop_last().len() implies !selects(
            command,
            (#[trigger] list.drop_last()[i]).metadata,
        ) by {
            assert(list.drop_last()[i] == list[i]);
        }
        lemma_planned_empty(list.drop_last(), command);
        assert(list.last() == list[list.len() - 1]);
    }
}

} // verus!
