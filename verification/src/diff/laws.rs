//! What holds of every comparison of two snapshots, and of every count of
//! lines.

use crate::diff::explain::{
    below, differs_at, lemma_single_entry, lemma_tree_changes_explained,
    lemma_tree_changes_unique, unique,
};
use crate::diff::stats::{lemma_sum_insert_zero, line_deletions, line_insertions};
use crate::diff::tree::{entry_changes, lemma_with_no_tree_changes, tree_changes, TreeChanges};
use crate::diff::{DiffView, HunkView, LineChange};
use crate::file_system::insert::lemma_find_is_entry;
use crate::file_system::{
    compare_names, distinct, file_at, files_of, find, lemma_compare_equal, names_differ, sorted,
    Entry, NameOrder,
};
use vstd::prelude::*;

verus! {

/// An entry compared with itself gives no change.
pub proof fn lemma_same_entry_no_changes(prefix: Seq<Seq<u8>>, entry: Entry)
    ensures
        entry_changes(prefix, entry, entry) == TreeChanges::empty(),
    decreases entry, 0nat,
{
    match entry {
        Entry::File { .. } => {},
        Entry::Directory { name, entries } => {
            lemma_same_entries_no_changes(prefix.push(name), entries);
        },
    }
}

/// The entries of a directory compared with themselves give no change.
pub proof fn lemma_same_entries_no_changes(prefix: Seq<Seq<u8>>, entries: Seq<Entry>)
    ensures
        tree_changes(prefix, entries, entries) == TreeChanges::empty(),
    decreases entries, 1nat,
{
    if entries.len() > 0 {
        lemma_compare_equal(entries[0].name(), entries[0].name());
        lemma_same_entry_no_changes(prefix, entries[0]);
        lemma_same_entries_no_changes(prefix, entries.drop_first());
        assert(TreeChanges::empty().followed_by(TreeChanges::empty()) =~= TreeChanges::empty());
    }
}

/// A snapshot compared with a snapshot that holds the same entries gives a
/// difference in which every list is empty. This needs no order among the
/// entries.
pub proof fn lemma_identical_snapshots(snapshot: Seq<Entry>)
    ensures
        DiffView::empty().with_tree_changes(tree_changes(Seq::empty(), snapshot, snapshot))
            == DiffView::empty(),
{
    lemma_same_entries_no_changes(Seq::empty(), snapshot);
    lemma_with_no_tree_changes(DiffView::empty());
}

/// Where the comparison meets a directory in the old snapshot and a file of
/// the same name in the new one, it reports for the two exactly this: the
/// file as created, once; every file below the directory as deleted, once
/// each and in their order; and no modification. What it reports for the
/// entries that follow comes after that.
pub proof fn lemma_file_replaces_directory(
    prefix: Seq<Seq<u8>>,
    old: Seq<Entry>,
    new: Seq<Entry>,
)
    requires
        old.len() > 0,
        new.len() > 0,
        old[0] is Directory,
        new[0] is File,
        old[0].name() == new[0].name(),
    ensures
        entry_changes(prefix, old[0], new[0]) == (TreeChanges {
            created: seq![prefix.push(new[0].name())],
            deleted: files_of(prefix.push(old[0].name()), old[0]->entries),
            modified: Seq::empty(),
        }),
        tree_changes(prefix, old, new) == entry_changes(prefix, old[0], new[0]).followed_by(
            tree_changes(prefix, old.drop_first(), new.drop_first()),
        ),
{
    lemma_compare_equal(new[0].name(), old[0].name());
}

/// A file that both sorted snapshots hold at the same path, with the same
/// size and the same checksum, is listed nowhere: not as modified, and not
/// as created or deleted either. Where the file stands among its siblings
/// plays no part.
pub proof fn lemma_unchanged_file_not_listed(
    old: Seq<Entry>,
    new: Seq<Entry>,
    path: Seq<Seq<u8>>,
)
    requires
        sorted(old),
        sorted(new),
        file_at(old, path) is Some,
        file_at(old, path) == file_at(new, path),
    ensures
        !tree_changes(Seq::empty(), old, new).modified.contains(path),
        !tree_changes(Seq::empty(), old, new).created.contains(path),
        !tree_changes(Seq::empty(), old, new).deleted.contains(path),
{
    lemma_tree_changes_explained(Seq::empty(), old, new);
    assert(Seq::<Seq<u8>>::empty() + path =~= path);
}

/// A path is listed as modified exactly where both sorted snapshots hold a
/// file there and the two differ in size or in checksum.
pub proof fn lemma_modified_iff_differs(old: Seq<Entry>, new: Seq<Entry>, path: Seq<Seq<u8>>)
    requires
        sorted(old),
        sorted(new),
    ensures
        tree_changes(Seq::empty(), old, new).modified.contains(path) <==> differs_at(
            old,
            new,
            path,
        ),
{
    lemma_tree_changes_explained(Seq::empty(), old, new);
    assert(Seq::<Seq<u8>>::empty() + path =~= path);
}

/// Where the old one of two sorted snapshots holds a directory under a name
/// and the new one a file under the same name, wherever the two stand among
/// their siblings: the file is listed as created, and nothing below it is;
/// the files below the directory, and no other paths that begin with the
/// name, are listed as deleted; no path that begins with the name is listed
/// as modified; and no list holds a path twice.
pub proof fn lemma_type_change_by_name(old: Seq<Entry>, new: Seq<Entry>, name: Seq<u8>)
    requires
        sorted(old),
        sorted(new),
        find(old, name) matches Some(o) && o is Directory,
        find(new, name) matches Some(n) && n is File,
    ensures
        tree_changes(Seq::empty(), old, new).created.contains(seq![name]),
        forall|q: Seq<Seq<u8>>|
            q.len() > 0 ==> !(#[trigger] tree_changes(Seq::empty(), old, new).created.contains(
                seq![name] + q,
            )),
        forall|q: Seq<Seq<u8>>| #[trigger]
            tree_changes(Seq::empty(), old, new).deleted.contains(seq![name] + q) <==> file_at(
                find(old, name)->0->entries,
                q,
            ) is Some,
        forall|p: Seq<Seq<u8>>| #[trigger]
            tree_changes(Seq::empty(), old, new).modified.contains(p) ==> !below(seq![name], p),
        unique(tree_changes(Seq::empty(), old, new)),
{
    let changes = tree_changes(Seq::empty(), old, new);
    let nothing = Seq::<Seq<u8>>::empty();
    lemma_tree_changes_explained(nothing, old, new);
    lemma_tree_changes_unique(nothing, old, new);
    assert(nothing + seq![name] =~= seq![name]);
    assert(seq![name][0] == name);
    assert forall|q: Seq<Seq<u8>>| q.len() > 0 implies !(#[trigger] changes.created.contains(
        seq![name] + q,
    )) by {
        let p = seq![name] + q;
        assert(nothing + p =~= p);
        assert(p[0] == name);
    }
    assert forall|q: Seq<Seq<u8>>| #[trigger]
        changes.deleted.contains(seq![name] + q) <==> file_at(find(old, name)->0->entries, q)
            is Some by {
        let p = seq![name] + q;
        assert(nothing + p =~= p);
        assert(p[0] == name);
        assert(p.drop_first() =~= q);
        if q.len() == 0 {
            assert(p.len() == 1);
        }
    }
    assert forall|p: Seq<Seq<u8>>| #[trigger] changes.modified.contains(p) implies !below(
        seq![name],
        p,
    ) by {
        assert(nothing + p =~= p);
        if below(seq![name], p) {
            assert(p.take(1)[0] == name);
        }
    }
}

/// What entries without a name twice hold at a path after their first
/// entry, they hold at that path.
proof fn lemma_held_by_tail(entries: Seq<Entry>, path: Seq<Seq<u8>>)
    requires
        names_differ(entries),
        entries.len() > 0,
        file_at(entries.drop_first(), path) is Some,
    ensures
        file_at(entries, path) == file_at(entries.drop_first(), path),
{
    let tail = entries.drop_first();
    lemma_find_is_entry(tail, path[0]);
    let e = find(tail, path[0])->0;
    let k = choose|k: int| 0 <= k < tail.len() && tail[k] == e;
    assert(entries[k + 1] == e);
    assert(entries[0].name() != entries[k + 1].name());
}

/// What is left of entries without a name twice has no name twice, nor has
/// what is nested in the first of them.
proof fn lemma_distinct_tail(entries: Seq<Entry>)
    requires
        distinct(entries),
        entries.len() > 0,
    ensures
        distinct(entries.drop_first()),
        names_differ(entries),
        entries[0] matches Entry::Directory { entries: nested, .. } ==> distinct(nested),
{
    let tail = entries.drop_first();
    assert forall|i: int, j: int| 0 <= i < j < tail.len() implies (#[trigger] tail[i]).name() != (
    #[trigger] tail[j]).name() by {
        assert(tail[i] == entries[i + 1] && tail[j] == entries[j + 1]);
    }
    assert forall|i: int| 0 <= i < tail.len() implies (#[trigger] tail[i] matches Entry::Directory {
        entries: nested,
        ..
    } ==> distinct(nested)) by {
        assert(tail[i] == entries[i + 1]);
    }
}

/// A path is listed as modified only below `prefix`, and only where both
/// snapshots hold a file at it and the two differ in size or in checksum.
pub open spec fn modified_where_differs(
    changes: TreeChanges,
    prefix: Seq<Seq<u8>>,
    old: Seq<Entry>,
    new: Seq<Entry>,
) -> bool {
    forall|p: Seq<Seq<u8>>| #[trigger]
        changes.modified.contains(p) ==> below(prefix, p) && differs_at(
            old,
            new,
            p.skip(prefix.len() as int),
        )
}

/// What holds of the modifications between the entries after the first few
/// holds of them between all entries.
proof fn lemma_modified_lifted(
    changes: TreeChanges,
    prefix: Seq<Seq<u8>>,
    old: Seq<Entry>,
    new: Seq<Entry>,
    old_rest: Seq<Entry>,
    new_rest: Seq<Entry>,
)
    requires
        names_differ(old),
        names_differ(new),
        old_rest == old || (old.len() > 0 && old_rest == old.drop_first()),
        new_rest == new || (new.len() > 0 && new_rest == new.drop_first()),
        modified_where_differs(changes, prefix, old_rest, new_rest),
    ensures
        modified_where_differs(changes, prefix, old, new),
{
    assert forall|p: Seq<Seq<u8>>| #[trigger] changes.modified.contains(p) implies below(prefix, p)
        && differs_at(old, new, p.skip(prefix.len() as int)) by {
        let q = p.skip(prefix.len() as int);
        assert(differs_at(old_rest, new_rest, q));
        if old_rest != old {
            lemma_held_by_tail(old, q);
        }
        if new_rest != new {
            lemma_held_by_tail(new, q);
        }
    }
}

/// The modifications between two entries of the same name, in directories
/// that hold no name twice.
proof fn lemma_entry_modified_where_differs(prefix: Seq<Seq<u8>>, old: Entry, new: Entry)
    requires
        old.name() == new.name(),
        old matches Entry::Directory { entries: nested, .. } ==> distinct(nested),
        new matches Entry::Directory { entries: nested, .. } ==> distinct(nested),
    ensures
        modified_where_differs(entry_changes(prefix, old, new), prefix, seq![old], seq![new]),
    decreases old, new, 0nat,
{
    let changes = entry_changes(prefix, old, new);
    let name = new.name();
    let inner = prefix.push(name);
    assert(seq![old][0] == old && seq![new][0] == new);
    assert(find(seq![old], name) == Some(old));
    assert(find(seq![new], name) == Some(new));
    match (new, old) {
        (Entry::File { .. }, Entry::File { .. }) => {
            assert forall|p: Seq<Seq<u8>>| #[trigger] changes.modified.contains(p) implies below(
                prefix,
                p,
            ) && differs_at(seq![old], seq![new], p.skip(prefix.len() as int)) by {
                assert(p == inner);
                assert(p.take(prefix.len() as int) =~= prefix);
                assert(p.skip(prefix.len() as int) =~= seq![name]);
            }
        },
        (Entry::Directory { entries, .. }, Entry::Directory { entries: old_entries, .. }) => {
            lemma_modified_where_differs(inner, old_entries, entries);
            assert forall|p: Seq<Seq<u8>>| #[trigger] changes.modified.contains(p) implies below(
                prefix,
                p,
            ) && differs_at(seq![old], seq![new], p.skip(prefix.len() as int)) by {
                let q = p.skip(prefix.len() as int);
                assert(below(inner, p));
                assert(p.take(inner.len() as int)[prefix.len() as int] == name);
                assert(p.take(prefix.len() as int) =~= p.take(inner.len() as int).take(
                    prefix.len() as int,
                ));
                assert(inner.take(prefix.len() as int) =~= prefix);
                assert(q[0] == name);
                assert(q.drop_first() =~= p.skip(inner.len() as int));
                assert(differs_at(old_entries, entries, q.drop_first()));
                assert(q.len() > 1);
            }
        },
        _ => {},
    }
}

/// In whatever order the entries stand: as long as no directory holds a
/// name twice, the comparison lists a path as modified only where both
/// snapshots hold a file at it and the two differ in size or in checksum.
pub proof fn lemma_modified_where_differs(prefix: Seq<Seq<u8>>, old: Seq<Entry>, new: Seq<Entry>)
    requires
        distinct(old),
        distinct(new),
    ensures
        modified_where_differs(tree_changes(prefix, old, new), prefix, old, new),
    decreases old, new, 1nat,
{
    let changes = tree_changes(prefix, old, new);
    if old.len() == 0 && new.len() == 0 {
    } else if old.len() == 0 {
        lemma_distinct_tail(new);
        let rest = tree_changes(prefix, old, new.drop_first());
        lemma_modified_where_differs(prefix, old, new.drop_first());
        assert(changes.modified =~= rest.modified);
        lemma_modified_lifted(rest, prefix, old, new, old, new.drop_first());
    } else if new.len() == 0 {
        lemma_distinct_tail(old);
        let rest = tree_changes(prefix, old.drop_first(), new);
        lemma_modified_where_differs(prefix, old.drop_first(), new);
        assert(changes.modified =~= rest.modified);
        lemma_modified_lifted(rest, prefix, old, new, old.drop_first(), new);
    } else {
        lemma_distinct_tail(old);
        lemma_distinct_tail(new);
        lemma_compare_equal(new[0].name(), old[0].name());
        match compare_names(new[0].name(), old[0].name()) {
            NameOrder::Greater => {
                let rest = tree_changes(prefix, old.drop_first(), new);
                lemma_modified_where_differs(prefix, old.drop_first(), new);
                assert(changes.modified =~= rest.modified);
                lemma_modified_lifted(rest, prefix, old, new, old.drop_first(), new);
            },
            NameOrder::Less => {
                let rest = tree_changes(prefix, old, new.drop_first());
                lemma_modified_where_differs(prefix, old, new.drop_first());
                assert(changes.modified =~= rest.modified);
                lemma_modified_lifted(rest, prefix, old, new, old, new.drop_first());
            },
            NameOrder::Equal => {
                let step = entry_changes(prefix, old[0], new[0]);
                let rest = tree_changes(prefix, old.drop_first(), new.drop_first());
                lemma_entry_modified_where_differs(prefix, old[0], new[0]);
                lemma_modified_where_differs(prefix, old.drop_first(), new.drop_first());
                lemma_modified_lifted(
                    rest,
                    prefix,
                    old,
                    new,
                    old.drop_first(),
                    new.drop_first(),
                );
                assert forall|p: Seq<Seq<u8>>| #[trigger] changes.modified.contains(
                    p,
                ) implies below(prefix, p) && differs_at(
                    old,
                    new,
                    p.skip(prefix.len() as int),
                ) by {
                    let q = p.skip(prefix.len() as int);
                    if step.modified.contains(p) {
                        assert(differs_at(seq![old[0]], seq![new[0]], q));
                        lemma_single_entry(old[0], q);
                        lemma_single_entry(new[0], q);
                        assert(find(old, q[0]) == Some(old[0]));
                        assert(find(new, q[0]) == Some(new[0]));
                    } else {
                        let i = choose|i: int|
                            0 <= i < changes.modified.len() && changes.modified[i] == p;
                        assert(changes.modified =~= step.modified + rest.modified);
                        if i < step.modified.len() {
                            assert(step.modified[i] == p);
                            assert(step.modified.contains(p));
                        } else {
                            assert(rest.modified[i - step.modified.len()] == p);
                            assert(rest.modified.contains(p));
                        }
                    }
                }
            },
        }
    }
}

/// A file that both snapshots hold at the same path, with the same size and
/// the same checksum, is never listed as modified, wherever it and its
/// siblings stand in their directories, as long as no directory holds a
/// name twice.
pub proof fn lemma_unchanged_file_not_modified(
    old: Seq<Entry>,
    new: Seq<Entry>,
    path: Seq<Seq<u8>>,
)
    requires
        distinct(old),
        distinct(new),
        file_at(old, path) is Some,
        file_at(old, path) == file_at(new, path),
    ensures
        !tree_changes(Seq::empty(), old, new).modified.contains(path),
{
    lemma_modified_where_differs(Seq::empty(), old, new);
    assert(path.skip(0) =~= path);
}

/// A context line counts neither as an insertion nor as a deletion: lines
/// with one more context line among them, at any place, count as they did
/// without it.
pub proof fn lemma_context_counts_nothing(lines: Seq<LineChange>, at: int, context: LineChange)
    requires
        0 <= at <= lines.len(),
        context is Context,
    ensures
        (HunkView { header: Seq::empty(), lines: lines.insert(at, context) }).insertions() == (
        HunkView { header: Seq::empty(), lines }).insertions(),
        (HunkView { header: Seq::empty(), lines: lines.insert(at, context) }).deletions() == (
        HunkView { header: Seq::empty(), lines }).deletions(),
{
    let more = lines.insert(at, context);
    let ins = lines.map_values(|l: LineChange| line_insertions(l));
    let del = lines.map_values(|l: LineChange| line_deletions(l));
    assert(more.map_values(|l: LineChange| line_insertions(l)) =~= ins.insert(at, 0nat));
    assert(more.map_values(|l: LineChange| line_deletions(l)) =~= del.insert(at, 0nat));
    lemma_sum_insert_zero(ins, at);
    lemma_sum_insert_zero(del, at);
}

/// The insertions of a hunk are as many as its lines that are additions,
/// and its deletions as many as its lines that are deletions.
pub proof fn lemma_counts_are_additions_and_deletions(hunk: HunkView)
    ensures
        hunk.insertions() == hunk.lines.filter(|l: LineChange| l is Addition).len(),
        hunk.deletions() == hunk.lines.filter(|l: LineChange| l is Deletion).len(),
    decreases hunk.lines.len(),
{
    reveal(Seq::filter);
    let lines = hunk.lines;
    if lines.len() > 0 {
        let shorter = HunkView { header: hunk.header, lines: lines.drop_last() };
        lemma_counts_are_additions_and_deletions(shorter);
        assert(lines.map_values(|l: LineChange| line_insertions(l)).drop_last()
            =~= lines.drop_last().map_values(|l: LineChange| line_insertions(l)));
        assert(lines.map_values(|l: LineChange| line_deletions(l)).drop_last()
            =~= lines.drop_last().map_values(|l: LineChange| line_deletions(l)));
    }
}

} // verus!
