//! Selecting annotations by their fields, and counting them by one field.

use crate::date::{is_overdue, overdue, Date};
use crate::issue::issue_text;
use crate::metadata::{MetadataView, TodoMetadata};
use crate::text::{
    decimal, join, join_strings, list_contains, opt_view, push_decimal, same_text, views,
};
use crate::todo::{Todo, TodoView};
use vstd::prelude::*;

verus! {

/// The texts of an optional list.
pub open spec fn opt_views(o: Option<Vec<String>>) -> Option<Seq<Seq<char>>> {
    match o {
        Some(list) => Some(views(list@)),
        None => None,
    }
}

/// The test of one field. With an allow list, a set value passes when it is
/// in the list and an unset one when `include_unset` holds. Without a list,
/// `include_unset` lets only unset values pass, and otherwise every value
/// passes.
pub open spec fn field_matches(
    value: Option<Seq<char>>,
    selection: Option<Seq<Seq<char>>>,
    include_unset: bool,
) -> bool {
    match selection {
        Some(list) => match value {
            Some(text) => list.contains(text),
            None => include_unset,
        },
        None => include_unset ==> value is None,
    }
}

/// The test of one field against an allow list and the flag for unset
/// values.
pub fn filter_by_match(
    value: Option<String>,
    selection: Option<Vec<String>>,
    include_unset: bool,
) -> (b: bool)
    ensures
        b == field_matches(opt_view(value), opt_views(selection), include_unset),
{
    matches_field(&value, &selection, include_unset)
}

/// [`filter_by_match`] on borrowed values.
pub fn matches_field(
    value: &Option<String>,
    selection: &Option<Vec<String>>,
    include_unset: bool,
) -> (b: bool)
    ensures
        b == field_matches(opt_view(*value), opt_views(*selection), include_unset),
{
    match selection {
        Some(list) => match value {
            Some(text) => list_contains(list, text),
            None => include_unset,
        },
        None => if include_unset {
            value.is_none()
        } else {
            true
        },
    }
}

/// What a query asks of the three fields.
#[derive(Debug, PartialEq, Eq)]
pub struct TodoFilters {
    /// The assignees that pass.
    pub assignee: Option<Vec<String>>,
    /// Lets annotations without an assignee pass.
    pub unassigned: bool,
    /// The issue references that pass, in canonical text.
    pub issue: Option<Vec<String>>,
    /// Lets annotations without an issue reference pass.
    pub untracked: bool,
    /// The due dates that pass.
    pub due: Option<Vec<String>>,
    /// Lets only annotations pass whose due date lies in the past.
    pub overdue: bool,
    /// Lets annotations without a due date pass.
    pub someday: bool,
}

/// The canonical text of the issue reference of `m`, where it has one.
pub open spec fn issue_field(m: MetadataView) -> Option<Seq<char>> {
    match m.issue {
        Some(i) => Some(issue_text(i)),
        None => None,
    }
}

/// True when an annotation with the fields `m` passes `filters` on the day
/// `today`: each field passes its test, and under `overdue` the due date lies
/// before `today`.
pub open spec fn passes(m: MetadataView, filters: TodoFilters, today: Date) -> bool {
    &&& field_matches(m.assignee, opt_views(filters.assignee), filters.unassigned)
    &&& field_matches(issue_field(m), opt_views(filters.issue), filters.untracked)
    &&& field_matches(m.due, opt_views(filters.due), filters.someday)
    &&& filters.overdue ==> is_overdue(m.due, today)
}

/// The annotations of `list` that pass `filters` on the day `today`, in their
/// order.
pub open spec fn selected(list: Seq<TodoView>, filters: TodoFilters, today: Date) -> Seq<
    TodoView,
> {
    list.filter(|t: TodoView| passes(t.metadata, filters, today))
}

/// The canonical text of the issue reference of `metadata`, where it has one.
pub fn issue_string(metadata: &TodoMetadata) -> (r: Option<String>)
    ensures
        opt_view(r) == issue_field(metadata@),
{
    match &metadata.issue {
        Some(i) => Some(i.as_string()),
        None => None,
    }
}

/// True when the annotation passes `filters` on the day `today`.
pub fn passes_filters(todo: &Todo, filters: &TodoFilters, today: Date) -> (b: bool)
    ensures
        b == passes(todo@.metadata, *filters, today),
{
    let issue = issue_string(&todo.metadata);
    matches_field(&todo.metadata.assignee, &filters.assignee, filters.unassigned) && matches_field(
        &issue,
        &filters.issue,
        filters.untracked,
    ) && matches_field(&todo.metadata.due, &filters.due, filters.someday) && (!filters.overdue
        || overdue(&todo.metadata.due, today))
}

/// Keeps the annotations that pass `filters` on the day `today`, in their
/// order.
pub fn filter_todo_list_on(list: Vec<Todo>, filters: &TodoFilters, today: Date) -> (r: Vec<Todo>)
    ensures
        views(r@) == selected(views(list@), *filters, today),
{
    let ghost pred = |t: TodoView| passes(t.metadata, *filters, today);
    let mut r: Vec<Todo> = Vec::new();
    assert(views(r@) =~= Seq::<TodoView>::empty());
    assert(views(list@).take(0) =~= Seq::<TodoView>::empty());
    assert(Seq::<TodoView>::empty().filter(pred) =~= Seq::<TodoView>::empty()) by {
        reveal(Seq::filter);
    }
    for todo in it: list
        invariant
            it.seq() == list@,
            pred == |t: TodoView| passes(t.metadata, *filters, today),
            views(r@) == views(list@).take(it.index() as int).filter(pred),
    {
        let ghost i = it.index() as int;
        let ghost before = views(list@).take(i);
        proof {
            assert(views(list@).take(i + 1) =~= before.push(todo@));
            before.lemma_filter_push(todo@, pred);
        }
        if passes_filters(&todo, filters, today) {
            let ghost kept = views(r@);
            r.push(todo);
            assert(views(r@) =~= kept.push(todo@));
        }
    }
    assert(views(list@).take(list@.len() as int) =~= views(list@));
    r
}

/// Keeps the annotations that pass `filters` today, in their order. The day
/// is read from the clock where `filters` asks for overdue annotations.
pub fn filter_todo_list(list: Vec<Todo>, filters: TodoFilters) -> (r: Vec<Todo>)
    ensures
        exists|today: Date|
            1 <= today.month <= 12 && 1 <= today.day <= 31 && views(r@) == selected(
                views(list@),
                filters,
                today,
            ),
        !filters.overdue ==> forall|day: Date|
            views(r@) == #[trigger] selected(views(list@), filters, day),
{
    let today = if filters.overdue {
        Date::today()
    } else {
        Date { year: 0, month: 1, day: 1 }
    };
    proof {
        if !filters.overdue {
            assert forall|day: Date|
                selected(views(list@), filters, today) == #[trigger] selected(
                    views(list@),
                    filters,
                    day,
                ) by {
                lemma_day_matters_only_if_overdue(views(list@), filters, today, day);
            }
        }
    }
    filter_todo_list_on(list, &filters, today)
}

/// The field by which annotations are counted.
#[derive(Debug, PartialEq, Eq, Clone, Copy)]
pub enum Grouping {
    Assignee,
    Due,
    Issue,
}

/// The field that the option value `s` names, if it names one.
pub open spec fn grouping_named(s: Seq<char>) -> Option<Grouping> {
    if s == "assignee"@ {
        Some(Grouping::Assignee)
    } else if s == "due"@ {
        Some(Grouping::Due)
    } else if s == "issue"@ {
        Some(Grouping::Issue)
    } else {
        None
    }
}

impl Grouping {
    /// Reads the field from its option value: `assignee`, `due` or `issue`.
    pub fn from_str(s: &str) -> (r: Option<Self>)
        ensures
            r == grouping_named(s@),
    {
        if same_text(s, "assignee") {
            Some(Grouping::Assignee)
        } else if same_text(s, "due") {
            Some(Grouping::Due)
        } else if same_text(s, "issue") {
            Some(Grouping::Issue)
        } else {
            None
        }
    }
}

/// The key under which an annotation with the fields `m` is counted: the
/// value of the field, or the field's stand-in where it is unset.
pub open spec fn group_key(m: MetadataView, grouping: Grouping) -> Seq<char> {
    match grouping {
        Grouping::Assignee => match m.assignee {
            Some(a) => a,
            None => "<unassigned>"@,
        },
        Grouping::Due => match m.due {
            Some(d) => d,
            None => "<someday>"@,
        },
        Grouping::Issue => match m.issue {
            Some(i) => issue_text(i),
            None => "<untracked>"@,
        },
    }
}

/// The keys of the annotations of `list`, one for each.
pub open spec fn group_keys(list: Seq<TodoView>, grouping: Grouping) -> Seq<Seq<char>> {
    Seq::new(list.len(), |i: int| group_key(list[i].metadata, grouping))
}

/// How often `key` stands in `keys`.
pub open spec fn occurrences(keys: Seq<Seq<char>>, key: Seq<char>) -> nat
    decreases keys.len(),
{
    if keys.len() == 0 {
        0
    } else {
        occurrences(keys.drop_last(), key) + if keys.last() == key {
            1nat
        } else {
            0nat
        }
    }
}

/// A key and the number of annotations counted under it.
#[derive(Debug, PartialEq, Eq)]
pub struct GroupCount {
    pub key: String,
    pub count: usize,
}

/// True when `counts` is the tally of `keys`: every entry holds how often
/// its key stands in `keys`, which is at least once; no key has two entries;
/// and every key of `keys` has an entry.
pub open spec fn tallies(counts: Seq<GroupCount>, keys: Seq<Seq<char>>) -> bool {
    &&& forall|i: int|
        0 <= i < counts.len() ==> (#[trigger] counts[i]).count > 0 && counts[i].count
            == occurrences(keys, counts[i].key@)
    &&& forall|i: int, j: int|
        0 <= i < counts.len() && 0 <= j < counts.len() && i != j ==> (#[trigger] counts[i]).key@
            != (#[trigger] counts[j]).key@
    &&& forall|k: int|
        0 <= k < keys.len() ==> exists|i: int|
            0 <= i < counts.len() && (#[trigger] counts[i]).key@ == #[trigger] keys[k]
}

/// True when no entry holds a larger count than an entry before it.
pub open spec fn descending(counts: Seq<GroupCount>) -> bool {
    forall|i: int, j: int|
        0 <= i < j < counts.len() ==> (#[trigger] counts[i]).count >= (#[trigger] counts[j]).count
}

/// A key stands in `keys` no more often than `keys` is long, and not at all
/// where no item is that key.
proof fn lemma_occurrences(keys: Seq<Seq<char>>, key: Seq<char>)
    ensures
        occurrences(keys, key) <= keys.len(),
        (forall|k: int| 0 <= k < keys.len() ==> #[trigger] keys[k] != key) ==> occurrences(
            keys,
            key,
        ) == 0,
    decreases keys.len(),
{
    if keys.len() > 0 {
        lemma_occurrences(keys.drop_last(), key);
        assert forall|k: int| 0 <= k < keys.drop_last().len() implies keys.drop_last()[k]
            == keys[k] by {}
    }
}

/// Moving one entry to an earlier place leaves a tally a tally.
proof fn lemma_tally_moved(counts: Seq<GroupCount>, keys: Seq<Seq<char>>, from: int, to: int)
    requires
        tallies(counts, keys),
        0 <= to <= from < counts.len(),
    ensures
        tallies(counts.remove(from).insert(to, counts[from]), keys),
{
    let moved = counts.remove(from).insert(to, counts[from]);
    let origin = |i: int|
        if i < to {
            i
        } else if i == to {
            from
        } else if i <= from {
            i - 1
        } else {
            i
        };
    assert forall|i: int| 0 <= i < moved.len() implies #[trigger] moved[i] == counts[origin(i)] by {}
    assert forall|k: int| 0 <= k < keys.len() implies exists|i: int|
        0 <= i < moved.len() && (#[trigger] moved[i]).key@ == #[trigger] keys[k] by {
        let j = choose|j: int| 0 <= j < counts.len() && (#[trigger] counts[j]).key@ == keys[k];
        let i = if j < to {
            j
        } else if j < from {
            j + 1
        } else if j == from {
            to
        } else {
            j
        };
        assert(moved[i] == counts[origin(i)]);
        assert(moved[i].key@ == keys[k]);
    }
    assert forall|i: int, j: int|
        0 <= i < moved.len() && 0 <= j < moved.len() && i != j implies (#[trigger] moved[i]).key@
        != (#[trigger] moved[j]).key@ by {
        assert(moved[i] == counts[origin(i)]);
        assert(moved[j] == counts[origin(j)]);
    }
}

/// The key under which the annotation with the fields `metadata` is counted.
pub fn key_of(metadata: &TodoMetadata, grouping: Grouping) -> (r: String)
    ensures
        r@ == group_key(metadata@, grouping),
{
    match grouping {
        Grouping::Assignee => match &metadata.assignee {
            Some(a) => a.clone(),
            None => String::from_str("<unassigned>"),
        },
        Grouping::Due => match &metadata.due {
            Some(d) => d.clone(),
            None => String::from_str("<someday>"),
        },
        Grouping::Issue => match &metadata.issue {
            Some(i) => i.as_string(),
            None => String::from_str("<untracked>"),
        },
    }
}

/// Counts the annotations of `list` by the field `grouping`: one entry for
/// each key, largest count first.
pub fn group_and_count(list: &Vec<Todo>, grouping: Grouping) -> (r: Vec<GroupCount>)
    ensures
        tallies(r@, group_keys(views(list@), grouping)),
        descending(r@),
{
    let ghost keys = group_keys(views(list@), grouping);
    let mut r: Vec<GroupCount> = Vec::new();
    let mut n: usize = 0;
    while n < list.len()
        invariant
            n <= list.len(),
            keys == group_keys(views(list@), grouping),
            tallies(r@, keys.take(n as int)),
        decreases list.len() - n,
    {
        let ghost seen = keys.take(n as int);
        let ghost next = keys.take(n + 1);
        let key = key_of(&list[n].metadata, grouping);
        assert(next.drop_last() =~= seen);
        assert(next.last() == key@);
        let mut j: usize = 0;
        while j < r.len() && r[j].key != key
            invariant
                j <= r.len(),
                forall|i: int| 0 <= i < j ==> (#[trigger] r@[i]).key@ != key@,
            decreases r.len() - j,
        {
            j += 1;
        }
        let ghost old_r = r@;
        if j < r.len() {
            proof {
                lemma_occurrences(seen, key@);
            }
            let entry = r.remove(j);
            r.insert(j, GroupCount { key: entry.key, count: entry.count + 1 });
            proof {
                assert forall|i: int| 0 <= i < r@.len() implies (#[trigger] r@[i]).key@
                    == old_r[i].key@ by {}
                assert forall|i: int| 0 <= i < r@.len() implies (#[trigger] r@[i]).count > 0
                    && r@[i].count == occurrences(next, r@[i].key@) by {
                    assert(old_r[i].count == occurrences(seen, old_r[i].key@));
                    if i != j {
                        assert(old_r[i].key@ != old_r[j as int].key@);
                    }
                }
                assert forall|k: int| 0 <= k < next.len() implies exists|i: int|
                    0 <= i < r@.len() && (#[trigger] r@[i]).key@ == #[trigger] next[k] by {
                    if k < n {
                        assert(seen[k] == next[k]);
                        let i = choose|i: int|
                            0 <= i < old_r.len() && (#[trigger] old_r[i]).key@ == seen[k];
                        assert(r@[i].key@ == next[k]);
                    } else {
                        assert(r@[j as int].key@ == next[k]);
                    }
                }
            }
        } else {
            proof {
                assert forall|k: int| 0 <= k < seen.len() implies #[trigger] seen[k] != key@ by {
                    let i = choose|i: int|
                        0 <= i < old_r.len() && (#[trigger] old_r[i]).key@ == seen[k];
                    assert(old_r[i].key@ != key@);
                }
                lemma_occurrences(seen, key@);
            }
            r.push(GroupCount { key, count: 1 });
            proof {
                assert forall|i: int| 0 <= i < r@.len() implies (#[trigger] r@[i]).count > 0
                    && r@[i].count == occurrences(next, r@[i].key@) by {
                    if i < old_r.len() {
                        assert(r@[i] == old_r[i]);
                    }
                }
                assert forall|k: int| 0 <= k < next.len() implies exists|i: int|
                    0 <= i < r@.len() && (#[trigger] r@[i]).key@ == #[trigger] next[k] by {
                    if k < n {
                        assert(seen[k] == next[k]);
                        let i = choose|i: int|
                            0 <= i < old_r.len() && (#[trigger] old_r[i]).key@ == seen[k];
                        assert(r@[i] == old_r[i]);
                    } else {
                        assert(r@[old_r.len() as int].key@ == next[k]);
                    }
                }
                assert forall|i: int, j: int|
                    0 <= i < r@.len() && 0 <= j < r@.len() && i != j implies (
                #[trigger] r@[i]).key@ != (#[trigger] r@[j]).key@ by {
                    if i < old_r.len() {
                        assert(r@[i] == old_r[i]);
                    }
                    if j < old_r.len() {
                        assert(r@[j] == old_r[j]);
                    }
                }
            }
        }
        n += 1;
    }
    assert(keys.take(list.len() as int) =~= keys);
    sort_counts(&mut r, Ghost(keys));
    r
}

/// Orders a tally by count, largest first.
fn sort_counts(r: &mut Vec<GroupCount>, Ghost(keys): Ghost<Seq<Seq<char>>>)
    requires
        tallies(old(r)@, keys),
    ensures
        tallies(final(r)@, keys),
        descending(final(r)@),
{
    let mut done: usize = 0;
    while done < r.len()
        invariant
            done <= r.len(),
            tallies(r@, keys),
            descending(r@.take(done as int)),
        decreases r.len() - done,
    {
        let ghost before = r@;
        let count = r[done].count;
        let mut to: usize = 0;
        while to < done && r[to].count >= count
            invariant
                to <= done < r.len(),
                count == r@[done as int].count,
                forall|i: int| 0 <= i < to ==> (#[trigger] r@[i]).count >= count,
            decreases done - to,
        {
            to += 1;
        }
        let entry = r.remove(done);
        r.insert(to, entry);
        proof {
            lemma_tally_moved(before, keys, done as int, to as int);
            let sorted = r@.take(done + 1);
            assert forall|i: int, j: int| 0 <= i < j < sorted.len() implies (
            #[trigger] sorted[i]).count >= (#[trigger] sorted[j]).count by {
                let prefix = before.take(done as int);
                if j < to {
                    assert(sorted[i] == prefix[i] && sorted[j] == prefix[j]);
                } else if j == to {
                    assert(sorted[i] == before[i]);
                } else if i < to {
                    assert(sorted[i] == prefix[i] && sorted[j] == prefix[j - 1]);
                } else if i == to {
                    assert(sorted[j] == prefix[j - 1]);
                    assert(prefix[to as int].count >= prefix[j - 1].count || to == j - 1);
                } else {
                    assert(sorted[i] == prefix[i - 1] && sorted[j] == prefix[j - 1]);
                }
            }
        }
        done += 1;
    }
    assert(r@.take(r.len() as int) =~= r@);
}

/// The line of one entry of a tally: key, colon, space, count.
pub open spec fn count_line(entry: GroupCount) -> Seq<char> {
    entry.key@ + ": "@ + decimal(entry.count as nat)
}

/// The report of a tally: one line for each entry, in order.
pub open spec fn counts_text(counts: Seq<GroupCount>) -> Seq<char> {
    join(Seq::new(counts.len(), |i: int| count_line(counts[i])), "\n"@)
}

/// The report of a tally.
pub fn render_counts(counts: &Vec<GroupCount>) -> (r: String)
    ensures
        r@ == counts_text(counts@),
{
    let ghost all = Seq::new(counts@.len(), |i: int| count_line(counts@[i]));
    let mut lines: Vec<String> = Vec::new();
    let mut i: usize = 0;
    while i < counts.len()
        invariant
            i <= counts.len(),
            all == Seq::new(counts@.len(), |i: int| count_line(counts@[i])),
            views(lines@) == all.take(i as int),
        decreases counts.len() - i,
    {
        let ghost before = views(lines@);
        let mut line = counts[i].key.clone();
        line.append(": ");
        push_decimal(&mut line, counts[i].count as u64);
        assert(line@ == all[i as int]);
        lines.push(line);
        assert(views(lines@) =~= before.push(line@));
        assert(views(lines@) =~= all.take(i + 1));
        i += 1;
    }
    assert(views(lines@) =~= all);
    join_strings(&lines, "\n")
}

/// Where `filters` does not ask for overdue annotations, the day does not
/// matter to what passes.
pub proof fn lemma_day_matters_only_if_overdue(
    list: Seq<TodoView>,
    filters: TodoFilters,
    one_day: Date,
    other_day: Date,
)
    requires
        !filters.overdue,
    ensures
        selected(list, filters, one_day) == selected(list, filters, other_day),
    decreases list.len(),
{
    reveal(Seq::filter);
    if list.len() > 0 {
        lemma_day_matters_only_if_overdue(list.drop_last(), filters, one_day, other_day);
    }
}

/// Under `overdue` an annotation passes exactly where it passes the other
/// tests and its due date lies before the day. One without a due date never
/// does, though the flag for unset due dates lets it pass the test of that
/// field.
pub proof fn lemma_overdue_gate(m: MetadataView, filters: TodoFilters, today: Date)
    requires
        filters.overdue,
    ensures
        passes(m, filters, today) <==> passes(m, TodoFilters { overdue: false, ..filters }, today)
            && is_overdue(m.due, today),
        m.due is None ==> !passes(m, filters, today),
        m.due is None ==> field_matches(m.due, opt_views(filters.due), true),
{
}

} // verus!
