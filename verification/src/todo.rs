//! An annotation as it was found in a file, its canonical line and its
//! one-line report.

use crate::issue::issue_text;
use crate::metadata::{
    lemma_metadata_of_wf, lemma_metadata_round_trip, make_metadata_str, metadata_of,
    metadata_text, metadata_wf, no_metadata, MetadataView, TodoMetadata,
};
use crate::text::{
    chars_of, copy_range, decimal, join, join_strings, opt_view, push_decimal, same_text,
    string_of, strip_suffix, views, without_suffix,
};
use vstd::prelude::*;

verus! {

/// One annotation found in a file.
#[derive(Debug, PartialEq, Eq)]
pub struct Todo {
    /// The line from its comment delimiter on, without the line terminator.
    pub raw: String,
    /// The comment delimiter: `//`, `/*` or `#`.
    pub delimiter: String,
    /// The file that holds the annotation.
    pub path: String,
    /// The line of the annotation in that file, counted from one.
    pub line_number: u64,
    /// The text of the annotation.
    pub note: String,
    /// The payload between the parentheses, where there are any.
    pub meta: Option<String>,
    /// The payload as fields.
    pub metadata: TodoMetadata,
}

/// What a [`Todo`] holds, as character sequences.
pub struct TodoView {
    pub raw: Seq<char>,
    pub delimiter: Seq<char>,
    pub path: Seq<char>,
    pub line_number: u64,
    pub note: Seq<char>,
    pub meta: Option<Seq<char>>,
    pub metadata: MetadataView,
}

impl View for Todo {
    type V = TodoView;

    open spec fn view(&self) -> TodoView {
        TodoView {
            raw: self.raw@,
            delimiter: self.delimiter@,
            path: self.path@,
            line_number: self.line_number,
            note: self.note@,
            meta: opt_view(self.meta),
            metadata: self.metadata@,
        }
    }
}

/// The canonical text of an annotation from its delimiter on: the delimiter,
/// the keyword, the canonical payload in parentheses where there is one, a
/// colon and the note.
pub open spec fn formatted(delimiter: Seq<char>, note: Seq<char>, m: MetadataView) -> Seq<char> {
    match metadata_text(m) {
        Some(payload) => delimiter + " TODO("@ + payload + "): "@ + note,
        None => delimiter + " TODO: "@ + note,
    }
}

/// The canonical text of an annotation from its delimiter on.
pub fn format_todo_update(delimiter: &String, note: &String, metadata: TodoMetadata) -> (r: String)
    ensures
        r@ == formatted(delimiter@, note@, metadata@),
{
    let mut r = delimiter.clone();
    match make_metadata_str(metadata) {
        Some(payload) => {
            r.append(" TODO(");
            r.append(payload.as_str());
            r.append("): ");
        },
        None => {
            r.append(" TODO: ");
        },
    }
    r.append(note.as_str());
    r
}

/// The note as a report shows it: in a block comment, without the closing
/// `*/` at its end.
pub open spec fn shown_note(delimiter: Seq<char>, note: Seq<char>) -> Seq<char> {
    if delimiter == "/*"@ {
        without_suffix(note, "*/"@)
    } else {
        note
    }
}

/// The fields of `m` as a report shows them: issue, assignee with `@`, due
/// date with `due:`, each where set.
pub open spec fn shown_fields(m: MetadataView) -> Seq<Seq<char>> {
    let issue = match m.issue {
        Some(i) => seq![issue_text(i)],
        None => seq![],
    };
    let assignee = match m.assignee {
        Some(a) => seq!["@"@ + a],
        None => seq![],
    };
    let due = match m.due {
        Some(d) => seq!["due:"@ + d],
        None => seq![],
    };
    issue + assignee + due
}

/// The payload as a report shows it: the fields read from it, joined by a
/// comma and a space, or the payload itself where no field was read.
pub open spec fn shown_payload(payload: Seq<char>) -> Seq<char> {
    let fields = shown_fields(metadata_of(payload));
    if fields.len() == 0 {
        payload
    } else {
        join(fields, ", "@)
    }
}

/// The report line of an annotation: path, colon, line number, the payload
/// in square brackets where there is one, and the note.
pub open spec fn search_result(t: TodoView) -> Seq<char> {
    let place = t.path + seq![':'] + decimal(t.line_number as nat);
    let note = shown_note(t.delimiter, t.note);
    match t.meta {
        Some(payload) => place + " ["@ + shown_payload(payload) + "] "@ + note,
        None => place + seq![' '] + note,
    }
}

/// The payload as a report shows it.
fn payload_report(payload: &String) -> (r: String)
    ensures
        r@ == shown_payload(payload@),
{
    let metadata = TodoMetadata::from_string(payload.clone());
    let mut info: Vec<String> = Vec::new();
    assert(views(info@) =~= Seq::<Seq<char>>::empty());
    if let Some(issue) = metadata.issue {
        let ghost before = views(info@);
        info.push(issue.as_string());
        assert(views(info@) =~= before + seq![issue_text(issue@)]);
    }
    if let Some(assignee) = metadata.assignee {
        let ghost before = views(info@);
        let mut text = String::new();
        text.append("@");
        text.append(assignee.as_str());
        assert(text@ =~= "@"@ + assignee@);
        info.push(text);
        assert(views(info@) =~= before + seq!["@"@ + assignee@]);
    }
    if let Some(due) = metadata.due {
        let ghost before = views(info@);
        let mut text = String::new();
        text.append("due:");
        text.append(due.as_str());
        assert(text@ =~= "due:"@ + due@);
        info.push(text);
        assert(views(info@) =~= before + seq!["due:"@ + due@]);
    }
    assert(views(info@) =~= shown_fields(metadata_of(payload@)));
    if info.len() == 0 {
        payload.clone()
    } else {
        join_strings(&info, ", ")
    }
}

impl Todo {
    /// The report line of this annotation.
    pub fn as_search_result(&self) -> (r: String)
        ensures
            r@ == search_result(self@),
    {
        let note: String = if same_text(self.delimiter.as_str(), "/*") {
            let all = chars_of(self.note.as_str());
            let closer = chars_of("*/");
            string_of(&strip_suffix(&all, &closer))
        } else {
            self.note.clone()
        };
        let mut r = self.path.clone();
        r.push(':');
        push_decimal(&mut r, self.line_number);
        match &self.meta {
            Some(payload) => {
                let shown = payload_report(payload);
                r.append(" [");
                r.append(shown.as_str());
                r.append("] ");
            },
            None => {
                r.push(' ');
            },
        }
        r.append(note.as_str());
        r
    }
}

impl Clone for Todo {
    fn clone(&self) -> (r: Self)
        ensures
            r@ == self@,
    {
        Todo {
            raw: self.raw.clone(),
            delimiter: self.delimiter.clone(),
            path: self.path.clone(),
            line_number: self.line_number,
            note: self.note.clone(),
            meta: crate::metadata::clone_text(&self.meta),
            metadata: self.metadata.clone(),
        }
    }
}

/// A stretch of a line, from the character at `start` up to the one at `end`.
#[derive(Debug, PartialEq, Eq, Clone, Copy)]
pub struct Span {
    pub start: usize,
    pub end: usize,
}

/// A line that the annotation pattern matched, with the stretches that its
/// groups captured.
#[derive(Debug, PartialEq, Eq)]
pub struct LineMatch {
    /// The line, with its terminator where the file had one.
    pub line: String,
    /// The comment delimiter.
    pub delimiter: Option<Span>,
    /// The payload between the parentheses.
    pub meta: Option<Span>,
    /// The note.
    pub note: Option<Span>,
}

/// True when `span` lies in a line of `len` characters.
pub open spec fn span_in(span: Span, len: nat) -> bool {
    span.start <= span.end <= len
}

/// The characters of `line` that `span` covers.
pub open spec fn span_text(line: Seq<char>, span: Span) -> Seq<char> {
    line.subrange(span.start as int, span.end as int)
}

/// The length of `line` without the line feed at its end, where it has one.
pub open spec fn line_end(line: Seq<char>) -> int {
    if line.len() > 0 && line.last() == '\n' {
        line.len() - 1
    } else {
        line.len() as int
    }
}

/// The text of `line` from `start` to its end, the line feed left out.
pub open spec fn raw_text(line: Seq<char>, start: int) -> Seq<char> {
    if start <= line_end(line) {
        line.subrange(start, line_end(line))
    } else {
        Seq::<char>::empty()
    }
}

/// The annotation that a match stands for. A match without a delimiter or
/// without a note is none, and so is one with a stretch that leaves the line.
pub open spec fn annotation_of(path: Seq<char>, line_number: u64, m: LineMatch) -> Option<
    TodoView,
> {
    let line = m.line@;
    if m.delimiter is Some && m.note is Some && span_in(m.delimiter->0, line.len()) && span_in(
        m.note->0,
        line.len(),
    ) && (m.meta is Some ==> span_in(m.meta->0, line.len())) {
        Some(
            TodoView {
                raw: raw_text(line, m.delimiter->0.start as int),
                delimiter: span_text(line, m.delimiter->0),
                path,
                line_number,
                note: span_text(line, m.note->0),
                meta: match m.meta {
                    Some(span) => Some(span_text(line, span)),
                    None => None,
                },
                metadata: match m.meta {
                    Some(span) => metadata_of(span_text(line, span)),
                    None => no_metadata(),
                },
            },
        )
    } else {
        None
    }
}

/// The characters that `span` covers, where it lies in the line.
fn cut(line: &Vec<char>, span: &Span) -> (r: Option<String>)
    ensures
        r is Some <==> span_in(*span, line@.len()),
        r matches Some(text) ==> text@ == span_text(line@, *span),
{
    if span.start <= span.end && span.end <= line.len() {
        Some(string_of(&copy_range(line, span.start, span.end)))
    } else {
        None
    }
}

impl Todo {
    /// Builds the annotation of one matched line of the file `path`.
    pub fn from_match(path: String, line_number: u64, m: &LineMatch) -> (r: Option<Todo>)
        ensures
            opt_view(r) == annotation_of(path@, line_number, *m),
    {
        let line = chars_of(m.line.as_str());
        let n = line.len();
        let end = if n > 0 && line[n - 1] == '\n' {
            n - 1
        } else {
            n
        };
        let (delimiter_span, note_span) = match (&m.delimiter, &m.note) {
            (Some(d), Some(t)) => (d, t),
            _ => { return None; },
        };
        let delimiter = match cut(&line, delimiter_span) {
            Some(text) => text,
            None => { return None; },
        };
        let note = match cut(&line, note_span) {
            Some(text) => text,
            None => { return None; },
        };
        let meta = match &m.meta {
            Some(span) => match cut(&line, span) {
                Some(text) => Some(text),
                None => { return None; },
            },
            None => None,
        };
        let raw = if delimiter_span.start <= end {
            string_of(&copy_range(&line, delimiter_span.start, end))
        } else {
            String::new()
        };
        let metadata = match &meta {
            Some(payload) => TodoMetadata::from_string(payload.clone()),
            None => TodoMetadata::empty(),
        };
        Some(Todo { raw, delimiter, path, line_number, note, meta, metadata })
    }
}

/// The annotation that stands on the canonical line of `t`: the line is the
/// canonical text, the payload is the canonical payload, and the fields are
/// what is read from that payload.
pub open spec fn canonical(t: TodoView) -> TodoView {
    let payload = metadata_text(t.metadata);
    TodoView {
        raw: formatted(t.delimiter, t.note, t.metadata),
        meta: payload,
        metadata: match payload {
            Some(text) => metadata_of(text),
            None => no_metadata(),
        },
        ..t
    }
}

/// The fields of an annotation built from a match are well formed.
pub proof fn lemma_annotation_wf(path: Seq<char>, line_number: u64, m: LineMatch)
    ensures
        annotation_of(path, line_number, m) matches Some(t) ==> metadata_wf(t.metadata),
{
    if let Some(span) = m.meta {
        lemma_metadata_of_wf(span_text(m.line@, span));
    }
}

/// Putting an annotation with well-formed fields in canonical form changes
/// neither its fields nor its canonical text.
pub proof fn lemma_canonical_keeps_fields(t: TodoView)
    requires
        metadata_wf(t.metadata),
    ensures
        canonical(t).metadata == t.metadata,
        formatted(canonical(t).delimiter, canonical(t).note, canonical(t).metadata) == canonical(
            t,
        ).raw,
{
    lemma_metadata_round_trip(t.metadata);
    if metadata_text(t.metadata) is None {
        assert(t.metadata.issue is None);
        assert(t.metadata.assignee is None);
        assert(t.metadata.due is None);
    }
}

/// The report of a list of annotations: the report line of each, in order.
pub open spec fn list_text(list: Seq<TodoView>) -> Seq<char> {
    join(Seq::new(list.len(), |i: int| search_result(list[i])), "\n"@)
}

/// The report of a list of annotations.
pub fn render_list(list: &Vec<Todo>) -> (r: String)
    ensures
        r@ == list_text(views(list@)),
{
    let ghost all = Seq::new(list@.len(), |i: int| search_result(list@[i]@));
    let mut lines: Vec<String> = Vec::new();
    let mut i: usize = 0;
    while i < list.len()
        invariant
            i <= list.len(),
            all == Seq::new(list@.len(), |i: int| search_result(list@[i]@)),
            views(lines@) == all.take(i as int),
        decreases list.len() - i,
    {
        let ghost before = views(lines@);
        let line = list[i].as_search_result();
        assert(line@ == all[i as int]);
        lines.push(line);
        assert(views(lines@) =~= before.push(line@));
        assert(views(lines@) =~= all.take(i + 1));
        i += 1;
    }
    assert(views(lines@) =~= all);
    assert(all =~= Seq::new(views(list@).len(), |i: int| search_result(views(list@)[i])));
    join_strings(&lines, "\n")
}

} // verus!
