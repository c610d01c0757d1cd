//! The metadata written between the parentheses of an annotation: its reading
//! from the comma-separated payload and its canonical text.

use crate::issue::{
    is_key_char, issue_of, issue_text, issue_wf, lemma_issue_of_sound, lemma_issue_text_reads_back,
    parse_issue_chars, Issue, IssueView,
};
use crate::text::{
    chars_of, copy_range, digit, is_digit, is_space, is_trimmed, join, join_strings,
    lemma_split_free, lemma_split_join, lemma_split_whole, lemma_trim_blank, lemma_trim_fixed,
    lemma_trim_free, lemma_trim_is_trimmed, lemma_trim_padded,
    opt_view, padded, split, split_chars, string_of, trim, trim_chars, views,
};
use vstd::prelude::*;

verus! {

/// The three optional fields of an annotation.
#[derive(Debug, PartialEq, Eq)]
pub struct TodoMetadata {
    /// Who the annotation is assigned to, without the leading `@`.
    pub assignee: Option<String>,
    /// The issue that the annotation cites.
    pub issue: Option<Issue>,
    /// The token that carries the due date, kept as written.
    pub due: Option<String>,
}

/// What a [`TodoMetadata`] holds, as character sequences.
pub struct MetadataView {
    pub assignee: Option<Seq<char>>,
    pub issue: Option<IssueView>,
    pub due: Option<Seq<char>>,
}

impl View for TodoMetadata {
    type V = MetadataView;

    open spec fn view(&self) -> MetadataView {
        MetadataView {
            assignee: opt_view(self.assignee),
            issue: opt_view(self.issue),
            due: opt_view(self.due),
        }
    }
}

/// The metadata with no field set.
pub open spec fn no_metadata() -> MetadataView {
    MetadataView { assignee: None, issue: None, due: None }
}

/// True when the token is written as a date: four digits, a hyphen, two
/// digits, a hyphen, two digits, and nothing else.
pub open spec fn is_due_date(token: Seq<char>) -> bool {
    &&& token.len() == 10
    &&& is_digit(token[0])
    &&& is_digit(token[1])
    &&& is_digit(token[2])
    &&& is_digit(token[3])
    &&& token[4] == '-'
    &&& is_digit(token[5])
    &&& is_digit(token[6])
    &&& token[7] == '-'
    &&& is_digit(token[8])
    &&& is_digit(token[9])
}

/// True when the token opens with `@`.
pub open spec fn names_assignee(token: Seq<char>) -> bool {
    token.len() > 0 && token[0] == '@'
}

/// The metadata after one more token has been read. A field that is set stays
/// as it is. A token that opens with `@` names an assignee and nothing else.
/// Any other token sets the issue where it is an issue reference and the due
/// date where it is written as a date, and is passed over where it is
/// neither.
pub open spec fn absorb(acc: MetadataView, token: Seq<char>) -> MetadataView {
    if names_assignee(token) {
        if acc.assignee is None {
            MetadataView { assignee: Some(token.skip(1)), ..acc }
        } else {
            acc
        }
    } else {
        MetadataView {
            assignee: acc.assignee,
            issue: if acc.issue is None {
                issue_of(token)
            } else {
                acc.issue
            },
            due: if acc.due is None && is_due_date(token) {
                Some(token)
            } else {
                acc.due
            },
        }
    }
}

/// The metadata read from the pieces of a payload, each trimmed, first to
/// last.
pub open spec fn read_tokens(pieces: Seq<Seq<char>>) -> MetadataView
    decreases pieces.len(),
{
    if pieces.len() == 0 {
        no_metadata()
    } else {
        absorb(read_tokens(pieces.drop_last()), trim(pieces.last()))
    }
}

/// The metadata that a payload stands for: the payload is trimmed and cut at
/// its commas, and the pieces are read in order.
pub open spec fn metadata_of(payload: Seq<char>) -> MetadataView {
    read_tokens(split(trim(payload), ','))
}

/// The canonical tokens of `m`: issue, assignee, due date, each where set.
pub open spec fn tokens_of(m: MetadataView) -> Seq<Seq<char>> {
    let issue = match m.issue {
        Some(i) => seq![issue_text(i)],
        None => seq![],
    };
    let assignee = match m.assignee {
        Some(a) => seq![seq!['@'] + a],
        None => seq![],
    };
    let due = match m.due {
        Some(d) => seq![d],
        None => seq![],
    };
    issue + assignee + due
}

/// The separator between canonical tokens.
pub open spec fn token_separator() -> Seq<char> {
    seq![',', ' ']
}

/// The canonical payload of `m`; nothing where no field is set.
pub open spec fn metadata_text(m: MetadataView) -> Option<Seq<char>> {
    if tokens_of(m).len() == 0 {
        None
    } else {
        Some(join(tokens_of(m), token_separator()))
    }
}

/// True when the characters of `v` are written as a date.
pub fn due_date(v: &Vec<char>) -> (b: bool)
    ensures
        b == is_due_date(v@),
{
    v.len() == 10 && digit(v[0]) && digit(v[1]) && digit(v[2]) && digit(v[3]) && v[4] == '-'
        && digit(v[5]) && digit(v[6]) && v[7] == '-' && digit(v[8]) && digit(v[9])
}

impl Clone for TodoMetadata {
    fn clone(&self) -> (r: Self)
        ensures
            r@ == self@,
    {
        TodoMetadata {
            assignee: clone_text(&self.assignee),
            issue: match &self.issue {
                Some(i) => Some(i.clone()),
                None => None,
            },
            due: clone_text(&self.due),
        }
    }
}

/// A copy of an optional string.
pub fn clone_text(o: &Option<String>) -> (r: Option<String>)
    ensures
        opt_view(r) == opt_view(*o),
{
    match o {
        Some(s) => Some(s.clone()),
        None => None,
    }
}

impl TodoMetadata {
    /// The metadata with no field set.
    pub fn empty() -> (r: Self)
        ensures
            r@ == no_metadata(),
    {
        TodoMetadata { assignee: None, issue: None, due: None }
    }

    /// Reads a payload. Tokens are separated by commas and trimmed; for each
    /// field the first token that fits it wins, and tokens that fit nothing
    /// are passed over.
    pub fn from_string(str: String) -> (r: Self)
        ensures
            r@ == metadata_of(str@),
    {
        let all = chars_of(str.as_str());
        let trimmed = trim_chars(&all);
        let pieces = split_chars(&trimmed, ',');
        let mut r = TodoMetadata::empty();
        let mut i: usize = 0;
        assert(views(pieces@).take(0) =~= Seq::<Seq<char>>::empty());
        while i < pieces.len()
            invariant
                i <= pieces.len(),
                r@ == read_tokens(views(pieces@).take(i as int)),
            decreases pieces.len() - i,
        {
            let ghost seen = views(pieces@).take(i as int);
            let ghost next = views(pieces@).take(i + 1);
            assert(next.drop_last() =~= seen);
            assert(next.last() == pieces@[i as int]@);
            let token = trim_chars(&pieces[i]);
            if token.len() > 0 && token[0] == '@' {
                if r.assignee.is_none() {
                    let name = copy_range(&token, 1, token.len());
                    assert(name@ =~= token@.skip(1));
                    r.assignee = Some(string_of(&name));
                }
            } else {
                if r.issue.is_none() {
                    r.issue = parse_issue_chars(&token);
                }
                if r.due.is_none() && due_date(&token) {
                    r.due = Some(string_of(&token));
                }
            }
            i += 1;
        }
        assert(views(pieces@).take(pieces.len() as int) =~= views(pieces@));
        r
    }
}

/// The canonical payload of `metadata`: issue, assignee with its `@`, due
/// date, joined by a comma and a space; nothing where no field is set.
pub fn make_metadata_str(metadata: TodoMetadata) -> (r: Option<String>)
    ensures
        opt_view(r) == metadata_text(metadata@),
{
    let mut parts: Vec<String> = Vec::new();
    assert(views(parts@) =~= Seq::<Seq<char>>::empty());
    if let Some(issue) = metadata.issue {
        let ghost before = views(parts@);
        let text = issue.as_string();
        parts.push(text);
        assert(views(parts@) =~= before + seq![issue_text(issue@)]);
    }
    if let Some(assignee) = metadata.assignee {
        let ghost before = views(parts@);
        let mut text = String::new();
        text.push('@');
        text.append(assignee.as_str());
        assert(text@ =~= seq!['@'] + assignee@);
        parts.push(text);
        assert(views(parts@) =~= before + seq![seq!['@'] + assignee@]);
    }
    if let Some(due) = metadata.due {
        let ghost before = views(parts@);
        parts.push(due);
        assert(views(parts@) =~= before + seq![due@]);
    }
    assert(views(parts@) =~= tokens_of(metadata@));
    if parts.len() == 0 {
        None
    } else {
        proof {
            reveal_strlit(", ");
            assert(", "@ =~= token_separator());
        }
        Some(join_strings(&parts, ", "))
    }
}

/// True when every field of `m` is written so that its canonical token reads
/// as that field and no other: the assignee holds no comma and does not end
/// in whitespace; the issue reference has the shape of its variant; the due
/// date is written as a date.
pub open spec fn metadata_wf(m: MetadataView) -> bool {
    &&& m.assignee matches Some(a) ==> !a.contains(',') && (a.len() > 0 ==> !is_space(a.last()))
    &&& m.issue matches Some(i) ==> issue_wf(i)
    &&& m.due matches Some(d) ==> is_due_date(d)
}

/// The canonical text of a well-formed issue reference is a token of its own
/// kind alone: not empty, free of commas, trimmed, not opening with `@`, and
/// not written as a date.
pub proof fn lemma_issue_token(issue: IssueView)
    requires
        issue_wf(issue),
    ensures
        issue_text(issue).len() > 0,
        !issue_text(issue).contains(','),
        is_trimmed(issue_text(issue)),
        !names_assignee(issue_text(issue)),
        !is_due_date(issue_text(issue)),
{
    let t = issue_text(issue);
    match issue {
        IssueView::Numbered(s) => {
            assert forall|k: int| 0 <= k < t.len() implies t[k] == '#' || is_digit(
                #[trigger] t[k],
            ) by {
                if k > 0 {
                    assert(t[k] == t.skip(1)[k - 1]);
                }
            }
            assert(t.last() == t[t.len() - 1]);
        },
        IssueView::ProjectKey { project_key, number } => {
            let n = project_key.len() as int;
            assert forall|k: int| 0 <= k < t.len() implies (if k < n {
                is_key_char(#[trigger] t[k])
            } else if k == n {
                t[k] == '-'
            } else {
                is_digit(t[k])
            }) by {
                if k < n {
                    assert(t[k] == project_key[k]);
                } else if k > n {
                    assert(t[k] == number[k - n - 1]);
                }
            }
            assert(t[0] == project_key[0]);
            assert(t.last() == number[number.len() - 1]);
        },
    }
}

/// A token that is written as a date is no issue reference, is free of
/// commas, is trimmed and does not open with `@`.
pub proof fn lemma_date_token(s: Seq<char>)
    requires
        is_due_date(s),
    ensures
        issue_of(s) is None,
        !s.contains(','),
        is_trimmed(s),
        !names_assignee(s),
{
    lemma_issue_of_sound(s);
    if let Some(issue) = issue_of(s) {
        lemma_issue_token(issue);
    }
    assert forall|k: int| 0 <= k < s.len() implies is_digit(#[trigger] s[k]) || s[k] == '-' by {
        if k != 4 && k != 7 {
            assert(k == 0 || k == 1 || k == 2 || k == 3 || k == 5 || k == 6 || k == 8 || k == 9);
        }
    }
    assert(s.last() == s[9]);
}

/// Reading the canonical payload of a well-formed metadata value gives the
/// value back; where no field is set, there is no payload, and reading the
/// empty payload gives the value back.
pub proof fn lemma_metadata_round_trip(m: MetadataView)
    requires
        metadata_wf(m),
    ensures
        metadata_of(
            match metadata_text(m) {
                Some(text) => text,
                None => Seq::<char>::empty(),
            },
        ) == m,
{
    let tokens = tokens_of(m);
    let nothing = Seq::<char>::empty();
    let pad = seq![' '];
    if tokens.len() == 0 {
        lemma_trim_blank(nothing);
        lemma_split_whole(nothing, ',');
        let pieces = seq![nothing];
        assert(pieces.drop_last() =~= Seq::<Seq<char>>::empty());
        assert(read_tokens(pieces.drop_last()) == no_metadata());
        assert(pieces.last() == nothing);
        assert(!is_due_date(nothing));
        assert(issue_of(nothing) is None);
    } else {
        let text = join(tokens, token_separator());
        assert(token_separator() =~= seq![','] + pad);
        // every token is of one kind, trimmed, and free of commas
        assert forall|k: int| 0 <= k < tokens.len() implies {
            &&& tokens[k].len() > 0
            &&& is_trimmed(#[trigger] tokens[k])
            &&& !tokens[k].contains(',')
        } by {
            lemma_token_clean(m, k);
        }
        lemma_split_join(tokens, ',', pad);
        lemma_join_ends(tokens, token_separator());
        lemma_trim_fixed(text);
        let pieces = padded(tokens, pad);
        assert(metadata_of(text) == read_tokens(pieces));
        assert forall|k: int| 0 <= k < pieces.len() implies trim(#[trigger] pieces[k])
            == tokens[k] by {
            if k == 0 {
                lemma_trim_fixed(tokens[k]);
            } else {
                lemma_trim_padded(pad, tokens[k], nothing);
                assert(pad + tokens[k] + nothing =~= pieces[k]);
            }
        }
        lemma_read_trimmed(pieces, tokens, tokens.len() as int);
        assert(pieces.take(pieces.len() as int) =~= pieces);
        lemma_fold_canonical(m);
    }
}

/// Each canonical token of a well-formed value is not empty, trimmed and
/// free of commas.
proof fn lemma_token_clean(m: MetadataView, k: int)
    requires
        metadata_wf(m),
        0 <= k < tokens_of(m).len(),
    ensures
        tokens_of(m)[k].len() > 0,
        is_trimmed(tokens_of(m)[k]),
        !tokens_of(m)[k].contains(','),
{
    let t = tokens_of(m)[k];
    if let Some(i) = m.issue {
        lemma_issue_token(i);
    }
    if let Some(a) = m.assignee {
        let ta = seq!['@'] + a;
        assert(ta[0] == '@');
        if a.len() > 0 {
            assert(ta.last() == a.last());
        }
        if ta.contains(',') {
            let j = choose|j: int| 0 <= j < ta.len() && ta[j] == ',';
            assert(a.contains(a[j - 1]));
        }
    }
    if let Some(d) = m.due {
        lemma_date_token(d);
    }
}

/// A joined sequence starts as its first item starts and ends as its last
/// item ends.
proof fn lemma_join_ends(parts: Seq<Seq<char>>, sep: Seq<char>)
    requires
        parts.len() > 0,
        forall|k: int| 0 <= k < parts.len() ==> (#[trigger] parts[k]).len() > 0,
    ensures
        join(parts, sep).len() > 0,
        join(parts, sep).first() == parts.first().first(),
        join(parts, sep).last() == parts.last().last(),
    decreases parts.len(),
{
    if parts.len() > 1 {
        let init = parts.drop_last();
        assert forall|k: int| 0 <= k < init.len() implies (#[trigger] init[k]).len() > 0 by {
            assert(init[k] == parts[k]);
        }
        lemma_join_ends(init, sep);
        assert(init.first() == parts.first());
    }
}

/// Reading pieces whose trimmed forms are `tokens` is folding `absorb` over
/// `tokens`.
proof fn lemma_read_trimmed(pieces: Seq<Seq<char>>, tokens: Seq<Seq<char>>, n: int)
    requires
        pieces.len() == tokens.len(),
        0 <= n <= pieces.len(),
        forall|k: int| 0 <= k < pieces.len() ==> trim(#[trigger] pieces[k]) == tokens[k],
    ensures
        read_tokens(pieces.take(n)) == fold_tokens(tokens.take(n)),
    decreases n,
{
    if n > 0 {
        lemma_read_trimmed(pieces, tokens, n - 1);
        assert(pieces.take(n).drop_last() =~= pieces.take(n - 1));
        assert(tokens.take(n).drop_last() =~= tokens.take(n - 1));
        assert(pieces.take(n).last() == pieces[n - 1]);
    }
}

/// The metadata read from tokens that are trimmed already, first to last.
pub open spec fn fold_tokens(tokens: Seq<Seq<char>>) -> MetadataView
    decreases tokens.len(),
{
    if tokens.len() == 0 {
        no_metadata()
    } else {
        absorb(fold_tokens(tokens.drop_last()), tokens.last())
    }
}

/// Folding the canonical tokens of a well-formed value gives the value.
proof fn lemma_fold_canonical(m: MetadataView)
    requires
        metadata_wf(m),
    ensures
        fold_tokens(tokens_of(m).take(tokens_of(m).len() as int)) == m,
{
    let tokens = tokens_of(m);
    assert(tokens.take(tokens.len() as int) =~= tokens);
    let none = Seq::<Seq<char>>::empty();
    let with_issue = match m.issue {
        Some(i) => seq![issue_text(i)],
        None => none,
    };
    let with_assignee = match m.assignee {
        Some(a) => with_issue + seq![seq!['@'] + a],
        None => with_issue,
    };
    let after_issue = MetadataView { issue: m.issue, ..no_metadata() };
    let after_assignee = MetadataView { assignee: m.assignee, ..after_issue };
    assert(fold_tokens(none) == no_metadata());
    if let Some(i) = m.issue {
        lemma_issue_token(i);
        lemma_issue_text_reads_back(i);
        assert(with_issue.drop_last() =~= none);
    }
    assert(fold_tokens(with_issue) == after_issue);
    if let Some(a) = m.assignee {
        let ta = seq!['@'] + a;
        assert(ta[0] == '@');
        assert(ta.skip(1) =~= a);
        assert(with_assignee.drop_last() =~= with_issue);
        assert(with_assignee.last() == ta);
    }
    assert(fold_tokens(with_assignee) == after_assignee);
    if let Some(d) = m.due {
        lemma_date_token(d);
        assert(tokens =~= with_assignee + seq![d]);
        assert(tokens.drop_last() =~= with_assignee);
        assert(tokens.last() == d);
    } else {
        assert(tokens =~= with_assignee);
    }
    assert(fold_tokens(tokens) == m);
}

/// Reading one more trimmed, comma-free token leaves well-formed metadata
/// well formed.
proof fn lemma_absorb_wf(acc: MetadataView, token: Seq<char>)
    requires
        metadata_wf(acc),
        is_trimmed(token),
        !token.contains(','),
    ensures
        metadata_wf(absorb(acc, token)),
{
    if names_assignee(token) {
        let a = token.skip(1);
        if a.contains(',') {
            let j = choose|j: int| 0 <= j < a.len() && a[j] == ',';
            assert(token.contains(token[j + 1]));
        }
        if a.len() > 0 {
            assert(a.last() == token.last());
        }
    } else {
        lemma_issue_of_sound(token);
    }
}

/// Whatever payload is read, the metadata read from it is well formed.
pub proof fn lemma_metadata_of_wf(payload: Seq<char>)
    ensures
        metadata_wf(metadata_of(payload)),
{
    let pieces = split(trim(payload), ',');
    lemma_split_free(trim(payload), ',');
    lemma_read_wf(pieces, pieces.len() as int);
    assert(pieces.take(pieces.len() as int) =~= pieces);
}

/// Reading comma-free pieces gives well-formed metadata.
proof fn lemma_read_wf(pieces: Seq<Seq<char>>, n: int)
    requires
        0 <= n <= pieces.len(),
        forall|k: int| 0 <= k < pieces.len() ==> !(#[trigger] pieces[k]).contains(','),
    ensures
        metadata_wf(read_tokens(pieces.take(n))),
    decreases n,
{
    if n > 0 {
        lemma_read_wf(pieces, n - 1);
        assert(pieces.take(n).drop_last() =~= pieces.take(n - 1));
        assert(pieces.take(n).last() == pieces[n - 1]);
        lemma_trim_free(pieces[n - 1], ',');
        lemma_trim_is_trimmed(pieces[n - 1]);
        lemma_absorb_wf(read_tokens(pieces.take(n - 1)), trim(pieces[n - 1]));
    }
}

/// The first token that sets a field wins: a field that is set after some
/// pieces were read is the same after all pieces were read.
pub proof fn lemma_first_wins(pieces: Seq<Seq<char>>, n: int)
    requires
        0 <= n <= pieces.len(),
    ensures
        read_tokens(pieces.take(n)).assignee is Some ==> read_tokens(pieces).assignee
            == read_tokens(pieces.take(n)).assignee,
        read_tokens(pieces.take(n)).issue is Some ==> read_tokens(pieces).issue == read_tokens(
            pieces.take(n),
        ).issue,
        read_tokens(pieces.take(n)).due is Some ==> read_tokens(pieces).due == read_tokens(
            pieces.take(n),
        ).due,
    decreases pieces.len() - n,
{
    if n < pieces.len() {
        assert(pieces.take(n + 1).drop_last() =~= pieces.take(n));
        lemma_first_wins(pieces, n + 1);
    } else {
        assert(pieces.take(n) =~= pieces);
    }
}

/// Reading a payload, writing what was read as canonical text and reading
/// that text gives what was read the first time.
pub proof fn lemma_reading_settles(payload: Seq<char>)
    ensures
        metadata_of(
            match metadata_text(metadata_of(payload)) {
                Some(text) => text,
                None => Seq::<char>::empty(),
            },
        ) == metadata_of(payload),
{
    lemma_metadata_of_wf(payload);
    lemma_metadata_round_trip(metadata_of(payload));
}

} // verus!
