//! Writing annotations back: which lines of which files change, and what
//! stands on them afterwards.

use crate::metadata::{MetadataView, TodoMetadata};
use crate::text::{chars_before, chars_of, join, join_strings, string_of, text_before, views};
use crate::todo::{format_todo_update, formatted};
use vstd::prelude::*;

verus! {

/// The new state of one annotation, to be written on its line.
#[derive(Debug, PartialEq, Eq)]
pub struct TodoUpdate {
    /// The file that holds the annotation.
    pub path: String,
    /// The line of the annotation in that file, counted from one.
    pub line_number: u64,
    /// The comment delimiter of the annotation.
    pub delimiter: String,
    /// The text of the annotation.
    pub note: String,
    /// The fields to write.
    pub metadata: TodoMetadata,
}

/// What a [`TodoUpdate`] holds, as character sequences.
pub struct UpdateView {
    pub path: Seq<char>,
    pub line_number: u64,
    pub delimiter: Seq<char>,
    pub note: Seq<char>,
    pub metadata: MetadataView,
}

impl View for TodoUpdate {
    type V = UpdateView;

    open spec fn view(&self) -> UpdateView {
        UpdateView {
            path: self.path@,
            line_number: self.line_number,
            delimiter: self.delimiter@,
            note: self.note@,
            metadata: self.metadata@,
        }
    }
}

/// The line after `update` was written on it: what stood before the first
/// occurrence of the delimiter, then the canonical text of the annotation.
pub open spec fn updated_line(line: Seq<char>, update: UpdateView) -> Seq<char> {
    text_before(line, update.delimiter) + formatted(
        update.delimiter,
        update.note,
        update.metadata,
    )
}

/// The update that is written on the line with the index `index`, counted
/// from zero: the last of `updates` whose line number is `index + 1`.
pub open spec fn update_for(updates: Seq<UpdateView>, index: int) -> Option<UpdateView>
    decreases updates.len(),
{
    if updates.len() == 0 {
        None
    } else if updates.last().line_number == index + 1 {
        Some(updates.last())
    } else {
        update_for(updates.drop_last(), index)
    }
}

/// The lines of a file after `updates` were written: a line with an update
/// is written anew, every other line stays as it is.
pub open spec fn updated_lines(lines: Seq<Seq<char>>, updates: Seq<UpdateView>) -> Seq<
    Seq<char>,
> {
    Seq::new(
        lines.len(),
        |i: int|
            match update_for(updates, i) {
                Some(update) => updated_line(lines[i], update),
                None => lines[i],
            },
    )
}

/// The text of a file: its lines with a line feed between them.
pub open spec fn file_text(lines: Seq<Seq<char>>) -> Seq<char> {
    join(lines, "\n"@)
}

/// Writes `update` on `line`: the text before the comment delimiter stays,
/// the annotation is put in canonical form.
pub fn rewrite_line(line: &str, update: &TodoUpdate) -> (r: String)
    ensures
        r@ == updated_line(line@, update@),
{
    let all = chars_of(line);
    let delimiter = chars_of(update.delimiter.as_str());
    let mut r = string_of(&chars_before(&all, &delimiter));
    let annotation = format_todo_update(&update.delimiter, &update.note, update.metadata.clone());
    r.append(annotation.as_str());
    r
}

/// The place in `updates` of the update for the line with the index `index`.
fn find_update(updates: &Vec<TodoUpdate>, index: usize) -> (r: Option<usize>)
    ensures
        match r {
            Some(j) => j < updates.len() && update_for(views(updates@), index as int) == Some(
                updates@[j as int]@,
            ),
            None => update_for(views(updates@), index as int) is None,
        },
{
    let mut j: usize = updates.len();
    assert(views(updates@).take(j as int) =~= views(updates@));
    while j > 0
        invariant
            j <= updates.len(),
            update_for(views(updates@), index as int) == update_for(
                views(updates@).take(j as int),
                index as int,
            ),
        decreases j,
    {
        let ghost rest = views(updates@).take(j as int);
        assert(rest.drop_last() =~= views(updates@).take(j - 1));
        assert(rest.last() == updates@[j - 1]@);
        j -= 1;
        if updates[j].line_number >= 1 && updates[j].line_number - 1 == index as u64 {
            return Some(j);
        }
    }
    None
}

/// Writes `updates` on the lines of one file. Where two updates name one
/// line, the later one is written.
pub fn rewrite_lines(lines: Vec<String>, updates: &Vec<TodoUpdate>) -> (r: Vec<String>)
    ensures
        views(r@) == updated_lines(views(lines@), views(updates@)),
{
    let mut r: Vec<String> = Vec::new();
    for line in it: lines
        invariant
            it.seq() == lines@,
            r@.len() == it.index(),
            views(r@) == updated_lines(views(lines@), views(updates@)).take(it.index() as int),
    {
        let ghost i = it.index() as int;
        let ghost before = views(r@);
        let index: usize = r.len();
        assert(index == i);
        let new_line = match find_update(updates, index) {
            Some(j) => rewrite_line(line.as_str(), &updates[j]),
            None => line,
        };
        assert(new_line@ == updated_lines(views(lines@), views(updates@))[i]);
        r.push(new_line);
        assert(views(r@) =~= before.push(new_line@));
        assert(views(r@) =~= updated_lines(views(lines@), views(updates@)).take(i + 1));
    }
    assert(views(r@) =~= updated_lines(views(lines@), views(updates@)));
    r
}

/// The text of the file whose lines are `lines` after `updates` were written
/// on them.
pub fn rewrite_file(lines: Vec<String>, updates: &Vec<TodoUpdate>) -> (r: String)
    ensures
        r@ == file_text(updated_lines(views(lines@), views(updates@))),
{
    let new_lines = rewrite_lines(lines, updates);
    join_strings(&new_lines, "\n")
}

/// The updates of one file.
#[derive(Debug, PartialEq, Eq)]
pub struct FileUpdates {
    pub path: String,
    pub updates: Vec<TodoUpdate>,
}

/// What a [`FileUpdates`] holds, as character sequences.
pub struct FileUpdatesView {
    pub path: Seq<char>,
    pub updates: Seq<UpdateView>,
}

impl View for FileUpdates {
    type V = FileUpdatesView;

    open spec fn view(&self) -> FileUpdatesView {
        FileUpdatesView { path: self.path@, updates: views(self.updates@) }
    }
}

/// The updates of `updates` for the file `path`, in their order.
pub open spec fn updates_of(updates: Seq<UpdateView>, path: Seq<char>) -> Seq<UpdateView>
    decreases updates.len(),
{
    if updates.len() == 0 {
        seq![]
    } else if updates.last().path == path {
        updates_of(updates.drop_last(), path).push(updates.last())
    } else {
        updates_of(updates.drop_last(), path)
    }
}

/// True when `groups` sorts `updates` by file: every group holds the updates
/// of its file, in their order, and at least one; no file has two groups;
/// and the file of every update has a group.
pub open spec fn grouped(groups: Seq<FileUpdatesView>, updates: Seq<UpdateView>) -> bool {
    &&& forall|g: int|
        0 <= g < groups.len() ==> (#[trigger] groups[g]).updates.len() > 0 && groups[g].updates
            == updates_of(updates, groups[g].path)
    &&& forall|g: int, h: int|
        0 <= g < groups.len() && 0 <= h < groups.len() && g != h ==> (#[trigger] groups[g]).path
            != (#[trigger] groups[h]).path
    &&& forall|k: int|
        0 <= k < updates.len() ==> exists|g: int|
            0 <= g < groups.len() && (#[trigger] groups[g]).path == (#[trigger] updates[k]).path
}

/// A file that no update names has no updates.
proof fn lemma_no_updates(updates: Seq<UpdateView>, path: Seq<char>)
    requires
        forall|k: int| 0 <= k < updates.len() ==> (#[trigger] updates[k]).path != path,
    ensures
        updates_of(updates, path).len() == 0,
    decreases updates.len(),
{
    if updates.len() > 0 {
        assert forall|k: int| 0 <= k < updates.drop_last().len() implies (
        #[trigger] updates.drop_last()[k]).path != path by {
            assert(updates.drop_last()[k] == updates[k]);
        }
        lemma_no_updates(updates.drop_last(), path);
        assert(updates.last() == updates[updates.len() - 1]);
    }
}

/// Sorts `updates` by file, keeping for each file the order in which its
/// updates came.
pub fn group_by_file(updates: Vec<TodoUpdate>) -> (r: Vec<FileUpdates>)
    ensures
        grouped(views(r@), views(updates@)),
{
    let mut r: Vec<FileUpdates> = Vec::new();
    assert(views(updates@).take(0) =~= Seq::<UpdateView>::empty());
    for update in it: updates
        invariant
            it.seq() == updates@,
            grouped(views(r@), views(updates@).take(it.index() as int)),
    {
        let ghost i = it.index() as int;
        let ghost seen = views(updates@).take(i);
        let ghost next = views(updates@).take(i + 1);
        let ghost old_groups = views(r@);
        assert(next.drop_last() =~= seen);
        assert(next.last() == update@);
        let mut j: usize = 0;
        while j < r.len() && r[j].path != update.path
            invariant
                j <= r.len(),
                forall|g: int| 0 <= g < j ==> (#[trigger] views(r@)[g]).path != update@.path,
            decreases r.len() - j,
        {
            assert(views(r@)[j as int].path == r@[j as int].path@);
            j += 1;
        }
        if j < r.len() {
            let mut group = r.remove(j);
            let ghost before = views(group.updates@);
            assert(group@ == old_groups[j as int]);
            group.updates.push(update);
            assert(views(group.updates@) =~= before.push(update@));
            r.insert(j, group);
            proof {
                let groups = views(r@);
                assert forall|g: int| 0 <= g < groups.len() implies (#[trigger] groups[g]).path
                    == old_groups[g].path by {
                    assert(groups[g] == r@[g]@);
                }
                assert forall|g: int| 0 <= g < groups.len() implies (
                #[trigger] groups[g]).updates.len() > 0 && groups[g].updates == updates_of(
                    next,
                    groups[g].path,
                ) by {
                    assert(groups[g] == r@[g]@);
                    assert(old_groups[g].updates == updates_of(seen, old_groups[g].path));
                    if g != j {
                        assert(old_groups[g].path != old_groups[j as int].path);
                    }
                }
                assert forall|k: int| 0 <= k < next.len() implies exists|g: int|
                    0 <= g < groups.len() && (#[trigger] groups[g]).path == (
                    #[trigger] next[k]).path by {
                    if k < i {
                        assert(next[k] == seen[k]);
                        let g = choose|g: int|
                            0 <= g < old_groups.len() && (#[trigger] old_groups[g]).path
                                == seen[k].path;
                        assert(groups[g].path == next[k].path);
                    } else {
                        assert(groups[j as int].path == next[k].path);
                    }
                }
            }
        } else {
            proof {
                assert forall|k: int| 0 <= k < seen.len() implies (#[trigger] seen[k]).path
                    != update@.path by {
                    let g = choose|g: int|
                        0 <= g < old_groups.len() && (#[trigger] old_groups[g]).path
                            == seen[k].path;
                    assert(old_groups[g].path != update@.path);
                }
                lemma_no_updates(seen, update@.path);
            }
            let path = update.path.clone();
            let mut list: Vec<TodoUpdate> = Vec::new();
            list.push(update);
            assert(views(list@) =~= seq![update@]);
            r.push(FileUpdates { path, updates: list });
            proof {
                let groups = views(r@);
                let last = old_groups.len() as int;
                assert(groups[last].path == update@.path);
                assert forall|g: int| 0 <= g < groups.len() implies (
                #[trigger] groups[g]).updates.len() > 0 && groups[g].updates == updates_of(
                    next,
                    groups[g].path,
                ) by {
                    if g < last {
                        assert(groups[g] == old_groups[g]);
                        assert(old_groups[g].path != update@.path);
                    } else {
                        assert(groups[g].updates =~= updates_of(next, update@.path));
                    }
                }
                assert forall|g: int, h: int|
                    0 <= g < groups.len() && 0 <= h < groups.len() && g != h implies (
                #[trigger] groups[g]).path != (#[trigger] groups[h]).path by {
                    if g < last {
                        assert(groups[g] == old_groups[g]);
                    }
                    if h < last {
                        assert(groups[h] == old_groups[h]);
                    }
                }
                assert forall|k: int| 0 <= k < next.len() implies exists|g: int|
                    0 <= g < groups.len() && (#[trigger] groups[g]).path == (
                    #[trigger] next[k]).path by {
                    if k < i {
                        assert(next[k] == seen[k]);
                        let g = choose|g: int|
                            0 <= g < old_groups.len() && (#[trigger] old_groups[g]).path
                                == seen[k].path;
                        assert(groups[g] == old_groups[g]);
                    } else {
                        assert(groups[last].path == next[k].path);
                    }
                }
            }
        }
    }
    assert(views(updates@).take(updates@.len() as int) =~= views(updates@));
    r
}

/// A line has an update exactly where some update names it, and the update
/// it has names it.
pub proof fn lemma_update_for(updates: Seq<UpdateView>, index: int)
    ensures
        update_for(updates, index) is None <==> forall|k: int|
            0 <= k < updates.len() ==> (#[trigger] updates[k]).line_number != index + 1,
        update_for(updates, index) matches Some(u) ==> u.line_number == index + 1
            && updates.contains(u),
    decreases updates.len(),
{
    if updates.len() > 0 {
        let init = updates.drop_last();
        lemma_update_for(init, index);
        assert(updates.last() == updates[updates.len() - 1]);
        assert forall|k: int| 0 <= k < init.len() implies init[k] == updates[k] by {}
        if updates.last().line_number != index + 1 {
            if let Some(u) = update_for(init, index) {
                let k = choose|k: int| 0 <= k < init.len() && init[k] == u;
                assert(updates[k] == u);
            }
            if forall|k: int|
                0 <= k < init.len() ==> (#[trigger] init[k]).line_number != index + 1 {
                assert forall|k: int| 0 <= k < updates.len() implies (
                #[trigger] updates[k]).line_number != index + 1 by {
                    if k < init.len() {
                        assert(init[k] == updates[k]);
                    }
                }
            } else {
                let k = choose|k: int|
                    0 <= k < init.len() && (#[trigger] init[k]).line_number == index + 1;
                assert(updates[k].line_number == index + 1);
            }
        }
    }
}

/// Writing updates keeps the number of lines, and every line that no update
/// names stays as it is.
pub proof fn lemma_other_lines_stay(lines: Seq<Seq<char>>, updates: Seq<UpdateView>)
    ensures
        updated_lines(lines, updates).len() == lines.len(),
        forall|i: int|
            0 <= i < lines.len() && (forall|k: int|
                0 <= k < updates.len() ==> (#[trigger] updates[k]).line_number != i + 1)
                ==> #[trigger] updated_lines(lines, updates)[i] == lines[i],
{
    assert forall|i: int|
        0 <= i < lines.len() && (forall|k: int|
            0 <= k < updates.len() ==> (#[trigger] updates[k]).line_number != i + 1)
        implies #[trigger] updated_lines(lines, updates)[i] == lines[i] by {
        lemma_update_for(updates, i);
    }
}

/// Where there is no update, no file is named and no line changes.
pub proof fn lemma_no_update_no_change(groups: Seq<FileUpdatesView>, lines: Seq<Seq<char>>)
    requires
        grouped(groups, Seq::<UpdateView>::empty()),
    ensures
        groups.len() == 0,
        updated_lines(lines, Seq::<UpdateView>::empty()) == lines,
{
    if groups.len() > 0 {
        assert(groups[0].updates.len() > 0);
    }
    assert(updated_lines(lines, Seq::<UpdateView>::empty()) =~= lines);
}

} // verus!
