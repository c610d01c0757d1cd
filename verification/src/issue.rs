//! Issue references: the two accepted shapes, their recognition in a token and
//! their canonical text.

use crate::text::{
    chars_of, copy_range, digit, find_char, is_digit, is_number, is_upper, lemma_find_char, lemma_find_char_is,
    number_in, opt_view, same_text, string_of, upper,
};
use vstd::prelude::*;

verus! {

/// The shape an issue reference may be required to have.
#[derive(Debug, PartialEq, Eq, Clone, Copy)]
pub enum IssueFormat {
    Numbered,
    ProjectKey,
}

/// The shape that the option value `s` names, if it names one.
pub open spec fn format_named(s: Seq<char>) -> Option<IssueFormat> {
    if s == "numbered"@ {
        Some(IssueFormat::Numbered)
    } else if s == "project-key"@ {
        Some(IssueFormat::ProjectKey)
    } else {
        None
    }
}

impl IssueFormat {
    /// Reads the shape from its option value: `numbered` or `project-key`.
    pub fn from_str(s: &str) -> (r: Option<Self>)
        ensures
            r == format_named(s@),
    {
        if same_text(s, "numbered") {
            Some(IssueFormat::Numbered)
        } else if same_text(s, "project-key") {
            Some(IssueFormat::ProjectKey)
        } else {
            None
        }
    }
}

/// A reference to an issue in a tracker.
#[derive(Debug, PartialEq, Eq)]
pub enum Issue {
    /// `#` and a number, kept as written.
    Numbered(String),
    /// A project key and a number, written with a hyphen between them.
    ProjectKey { project_key: String, number: String },
}

/// What an [`Issue`] holds, as character sequences.
pub enum IssueView {
    Numbered(Seq<char>),
    ProjectKey { project_key: Seq<char>, number: Seq<char> },
}

impl View for Issue {
    type V = IssueView;

    open spec fn view(&self) -> IssueView {
        match self {
            Issue::Numbered(s) => IssueView::Numbered(s@),
            Issue::ProjectKey { project_key, number } => IssueView::ProjectKey {
                project_key: project_key@,
                number: number@,
            },
        }
    }
}

/// True when `s` is `#` followed by one or more digits.
pub open spec fn is_numbered(s: Seq<char>) -> bool {
    s.len() > 0 && s[0] == '#' && is_number(s.skip(1))
}

/// True when `s` is a project key: a capital letter followed by capital
/// letters, digits and underscores.
pub open spec fn is_project_key(s: Seq<char>) -> bool {
    &&& s.len() > 0
    &&& is_upper(s[0])
    &&& forall|k: int| 0 <= k < s.len() ==> is_key_char(#[trigger] s[k])
}

/// True for the characters a project key is made of.
pub open spec fn is_key_char(c: char) -> bool {
    is_upper(c) || is_digit(c) || c == '_'
}

/// True when `s` is a project key, a hyphen and a number.
pub open spec fn is_keyed(s: Seq<char>) -> bool {
    let i = find_char(s, '-');
    0 <= i < s.len() && is_project_key(s.take(i)) && is_number(s.skip(i + 1))
}

/// The issue reference that the token `s` is, if it is one. The numbered shape
/// is tried first.
pub open spec fn issue_of(s: Seq<char>) -> Option<IssueView> {
    if is_numbered(s) {
        Some(IssueView::Numbered(s))
    } else if is_keyed(s) {
        let i = find_char(s, '-');
        Some(IssueView::ProjectKey { project_key: s.take(i), number: s.skip(i + 1) })
    } else {
        None
    }
}

/// The canonical text of an issue reference.
pub open spec fn issue_text(issue: IssueView) -> Seq<char> {
    match issue {
        IssueView::Numbered(s) => s,
        IssueView::ProjectKey { project_key, number } => project_key + seq!['-'] + number,
    }
}

/// True when the parts of `issue` have the shape that its variant stands for.
pub open spec fn issue_wf(issue: IssueView) -> bool {
    match issue {
        IssueView::Numbered(s) => is_numbered(s),
        IssueView::ProjectKey { project_key, number } => is_project_key(project_key) && is_number(
            number,
        ),
    }
}

/// The shape of an issue reference.
pub open spec fn format_of(issue: IssueView) -> IssueFormat {
    match issue {
        IssueView::Numbered(_) => IssueFormat::Numbered,
        IssueView::ProjectKey { .. } => IssueFormat::ProjectKey,
    }
}

impl Clone for Issue {
    fn clone(&self) -> (r: Self)
        ensures
            r@ == self@,
    {
        match self {
            Issue::Numbered(s) => Issue::Numbered(s.clone()),
            Issue::ProjectKey { project_key, number } => Issue::ProjectKey {
                project_key: project_key.clone(),
                number: number.clone(),
            },
        }
    }
}

impl Issue {
    /// The canonical text: a numbered reference as it was written, a keyed one
    /// as key, hyphen, number.
    pub fn as_string(&self) -> (r: String)
        ensures
            r@ == issue_text(self@),
    {
        match self {
            Issue::Numbered(s) => s.clone(),
            Issue::ProjectKey { project_key, number } => {
                let mut r = project_key.clone();
                r.push('-');
                r.append(number.as_str());
                r
            },
        }
    }

    /// The shape of this reference.
    pub fn format(&self) -> (r: IssueFormat)
        ensures
            r == format_of(self@),
    {
        match self {
            Issue::Numbered(_) => IssueFormat::Numbered,
            Issue::ProjectKey { .. } => IssueFormat::ProjectKey,
        }
    }
}

/// True when the characters of `v` up to `hi` are a project key.
fn key_in(v: &Vec<char>, hi: usize) -> (b: bool)
    requires
        hi <= v.len(),
    ensures
        b == is_project_key(v@.take(hi as int)),
{
    let ghost part = v@.take(hi as int);
    if hi == 0 || !upper(v[0]) {
        return false;
    }
    let mut i: usize = 0;
    while i < hi
        invariant
            i <= hi <= v.len(),
            part == v@.take(hi as int),
            forall|k: int| 0 <= k < i ==> is_key_char(#[trigger] part[k]),
        decreases hi - i,
    {
        let c = v[i];
        if !(upper(c) || digit(c) || c == '_') {
            assert(part[i as int] == c);
            return false;
        }
        i += 1;
    }
    true
}

/// Index of the first `c` in `v`, or the length of `v`.
pub fn position_of(v: &Vec<char>, c: char) -> (i: usize)
    ensures
        i == find_char(v@, c),
{
    let mut i: usize = 0;
    while i < v.len() && v[i] != c
        invariant
            i <= v.len(),
            forall|k: int| 0 <= k < i ==> #[trigger] v@[k] != c,
        decreases v.len() - i,
    {
        i += 1;
    }
    proof {
        lemma_find_char_is(v@, c, i as int);
    }
    i
}

/// Reads the token `s` as an issue reference: `#` and digits, or a project
/// key, a hyphen and digits. Any other token is no issue reference.
pub fn parse_issue(s: &str) -> (r: Option<Issue>)
    ensures
        opt_view(r) == issue_of(s@),
{
    let v = chars_of(s);
    parse_issue_chars(&v)
}

/// [`parse_issue`] on the characters of a token.
pub fn parse_issue_chars(v: &Vec<char>) -> (r: Option<Issue>)
    ensures
        opt_view(r) == issue_of(v@),
{
    let n = v.len();
    assert(v@.skip(1) =~= v@.subrange(1, n as int));
    if n > 0 && v[0] == '#' && number_in(v, 1, n) {
        return Some(Issue::Numbered(string_of(v)));
    }
    let i = position_of(v, '-');
    if i < n {
        assert(v@.skip(i + 1) =~= v@.subrange(i + 1, n as int));
        if key_in(v, i) && number_in(v, i + 1, n) {
            let key = copy_range(v, 0, i);
            let number = copy_range(v, i + 1, n);
            return Some(
                Issue::ProjectKey { project_key: string_of(&key), number: string_of(&number) },
            );
        }
    }
    None
}

/// Reading the canonical text of a well-formed issue reference gives the
/// reference back.
pub proof fn lemma_issue_text_reads_back(issue: IssueView)
    requires
        issue_wf(issue),
    ensures
        issue_of(issue_text(issue)) == Some(issue),
{
    match issue {
        IssueView::Numbered(s) => {},
        IssueView::ProjectKey { project_key, number } => {
            let t = issue_text(issue);
            let i = project_key.len() as int;
            assert(t[0] == project_key[0]);
            assert(!is_numbered(t));
            assert forall|k: int| 0 <= k < i implies #[trigger] t[k] != '-' by {
                assert(t[k] == project_key[k]);
                assert(is_key_char(project_key[k]));
            }
            assert(t[i] == '-');
            lemma_find_char_is(t, '-', i);
            assert(t.take(i) =~= project_key);
            assert(t.skip(i + 1) =~= number);
        },
    }
}

/// What is read from a token is well formed, and its canonical text is the
/// token.
pub proof fn lemma_issue_of_sound(s: Seq<char>)
    ensures
        issue_of(s) matches Some(issue) ==> issue_wf(issue) && issue_text(issue) == s,
{
    if !is_numbered(s) && is_keyed(s) {
        let i = find_char(s, '-');
        lemma_find_char(s, '-');
        assert(s.take(i) + seq!['-'] + s.skip(i + 1) =~= s);
    }
}

} // verus!
