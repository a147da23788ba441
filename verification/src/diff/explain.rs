//! The comparison of two sorted snapshots, told path by path: which files
//! it lists, and that it lists none twice.

use crate::diff::tree::{entry_changes, tree_changes, TreeChanges};
use crate::file_system::{
    compare_names, file_at, files_of, find, lemma_compare_equal, lemma_compare_flip,
    lemma_compare_transitive, names_ascend, sorted, Entry, File, NameOrder,
};
use vstd::prelude::*;

verus! {

/// The two snapshots hold a file at `path`, and the two differ in size or
/// in checksum.
pub open spec fn differs_at(old: Seq<Entry>, new: Seq<Entry>, path: Seq<Seq<u8>>) -> bool {
    &&& file_at(old, path) matches Some(a)
    &&& file_at(new, path) matches Some(b)
    &&& a != b
}

/// The path `path` begins with `prefix`.
pub open spec fn below(prefix: Seq<Seq<u8>>, path: Seq<Seq<u8>>) -> bool {
    path.len() >= prefix.len() && path.take(prefix.len() as int) == prefix
}

/// The changes `changes` are those between the entries `old` and `new` of
/// the directory at `prefix`, file by file: created is what only `new`
/// holds, deleted what only `old` holds, modified what both hold with
/// another size or checksum; and nothing outside that directory is listed.
pub open spec fn explains(
    changes: TreeChanges,
    prefix: Seq<Seq<u8>>,
    old: Seq<Entry>,
    new: Seq<Entry>,
) -> bool {
    &&& forall|q: Seq<Seq<u8>>| #[trigger]
        changes.created.contains(prefix + q) <==> (file_at(new, q) is Some && file_at(old, q)
            is None)
    &&& forall|q: Seq<Seq<u8>>| #[trigger]
        changes.deleted.contains(prefix + q) <==> (file_at(old, q) is Some && file_at(new, q)
            is None)
    &&& forall|q: Seq<Seq<u8>>| #[trigger]
        changes.modified.contains(prefix + q) <==> differs_at(old, new, q)
    &&& forall|p: Seq<Seq<u8>>| #[trigger] changes.created.contains(p) ==> below(prefix, p)
    &&& forall|p: Seq<Seq<u8>>| #[trigger] changes.deleted.contains(p) ==> below(prefix, p)
    &&& forall|p: Seq<Seq<u8>>| #[trigger] changes.modified.contains(p) ==> below(prefix, p)
}

/// What `whole` holds at a path is what `head` holds there or, where `head`
/// holds nothing, what `rest` holds.
spec fn splits(whole: Seq<Entry>, head: Seq<Entry>, rest: Seq<Entry>) -> bool {
    forall|q: Seq<Seq<u8>>| #[trigger]
        file_at(whole, q) == if file_at(head, q) is Some {
            file_at(head, q)
        } else {
            file_at(rest, q)
        }
}

/// No path leads to a file in both lists of entries.
spec fn apart(a: Seq<Entry>, b: Seq<Entry>) -> bool {
    forall|q: Seq<Seq<u8>>| !(#[trigger] file_at(a, q) is Some && #[trigger] file_at(b, q) is Some)
}

/// What two lists hold, one after the other, is what one of them holds.
proof fn lemma_concat_contains<A>(s: Seq<A>, t: Seq<A>, x: A)
    ensures
        (s + t).contains(x) <==> s.contains(x) || t.contains(x),
{
    if s.contains(x) {
        let i = choose|i: int| 0 <= i < s.len() && s[i] == x;
        assert((s + t)[i] == x);
    }
    if t.contains(x) {
        let i = choose|i: int| 0 <= i < t.len() && t[i] == x;
        assert((s + t)[s.len() + i] == x);
    }
    if (s + t).contains(x) {
        let i = choose|i: int| 0 <= i < (s + t).len() && (s + t)[i] == x;
        if i < s.len() {
            assert(s[i] == x);
        } else {
            assert(t[i - s.len()] == x);
        }
    }
}

/// A path that begins with `prefix` is `prefix` and what follows it.
proof fn lemma_below_split(prefix: Seq<Seq<u8>>, p: Seq<Seq<u8>>)
    requires
        below(prefix, p),
    ensures
        p == prefix + p.skip(prefix.len() as int),
{
    assert(p =~= p.take(prefix.len() as int) + p.skip(prefix.len() as int));
}

/// A name that comes before the first of ascending names is none of them.
proof fn lemma_find_none_before(entries: Seq<Entry>, name: Seq<u8>)
    requires
        names_ascend(entries),
        entries.len() > 0 ==> compare_names(name, entries[0].name()) is Less,
    ensures
        find(entries, name) is None,
    decreases entries.len(),
{
    if entries.len() > 0 {
        lemma_compare_equal(name, entries[0].name());
        let tail = entries.drop_first();
        assert forall|i: int, j: int| 0 <= i < j < tail.len() implies compare_names(
            #[trigger] tail[i].name(),
            #[trigger] tail[j].name(),
        ) is Less by {
            assert(tail[i] == entries[i + 1] && tail[j] == entries[j + 1]);
        }
        if tail.len() > 0 {
            assert(tail[0] == entries[1]);
            lemma_compare_transitive(name, entries[0].name(), entries[1].name());
        }
        lemma_find_none_before(tail, name);
    }
}

/// What is left of sorted entries without the first is sorted.
proof fn lemma_sorted_tail(entries: Seq<Entry>)
    requires
        sorted(entries),
        entries.len() > 0,
    ensures
        sorted(entries.drop_first()),
        entries.len() > 1 ==> compare_names(
            entries[0].name(),
            entries.drop_first()[0].name(),
        ) is Less,
        entries[0] matches Entry::Directory { entries: nested, .. } ==> sorted(nested),
{
    let tail = entries.drop_first();
    assert forall|i: int, j: int| 0 <= i < j < tail.len() implies compare_names(
        #[trigger] tail[i].name(),
        #[trigger] tail[j].name(),
    ) is Less by {
        assert(tail[i] == entries[i + 1] && tail[j] == entries[j + 1]);
    }
    assert forall|i: int| 0 <= i < tail.len() implies (#[trigger] tail[i] matches Entry::Directory {
        entries: nested,
        ..
    } ==> sorted(nested)) by {
        assert(tail[i] == entries[i + 1]);
    }
    if entries.len() > 1 {
        assert(tail[0] == entries[1]);
    }
}

/// A single entry holds files only at paths that begin with its name.
pub proof fn lemma_single_entry(entry: Entry, q: Seq<Seq<u8>>)
    ensures
        file_at(seq![entry], q) is Some ==> q.len() > 0 && q[0] == entry.name(),
        q.len() > 0 && q[0] == entry.name() ==> file_at(seq![entry], q) == match entry {
            Entry::File { size, checksum, .. } => if q.len() == 1 {
                Some(File { size, checksum })
            } else {
                None
            },
            Entry::Directory { entries: nested, .. } => if q.len() == 1 {
                None
            } else {
                file_at(nested, q.drop_first())
            },
        },
{
    let s = seq![entry];
    assert(s[0] == entry);
    assert(s.drop_first().len() == 0);
    if q.len() > 0 {
        if entry.name() == q[0] {
            assert(find(s, q[0]) == Some(entry));
        } else {
            assert(find(s.drop_first(), q[0]) is None);
            assert(find(s, q[0]) is None);
        }
    }
}

/// Entries that all come after an entry by name share no file with it.
proof fn lemma_apart_before(entry: Entry, entries: Seq<Entry>)
    requires
        names_ascend(entries),
        entries.len() > 0 ==> compare_names(entry.name(), entries[0].name()) is Less,
    ensures
        apart(seq![entry], entries),
        apart(entries, seq![entry]),
{
    assert forall|q: Seq<Seq<u8>>| !(#[trigger] file_at(seq![entry], q) is Some
        && #[trigger] file_at(entries, q) is Some) by {
        lemma_single_entry(entry, q);
        if q.len() > 0 && q[0] == entry.name() {
            lemma_find_none_before(entries, entry.name());
        }
    }
}

/// Sorted entries hold what their first entry holds and what the others
/// hold.
proof fn lemma_splits_head(entries: Seq<Entry>)
    requires
        sorted(entries),
        entries.len() > 0,
    ensures
        splits(entries, seq![entries[0]], entries.drop_first()),
{
    lemma_sorted_tail(entries);
    let tail = entries.drop_first();
    assert forall|q: Seq<Seq<u8>>| #[trigger]
        file_at(entries, q) == if file_at(seq![entries[0]], q) is Some {
            file_at(seq![entries[0]], q)
        } else {
            file_at(tail, q)
        } by {
        lemma_single_entry(entries[0], q);
        if q.len() > 0 {
            if q[0] == entries[0].name() {
                lemma_find_none_before(tail, entries[0].name());
            }
        }
    }
}

/// Entries hold what they hold and what no entries hold; no entries share
/// no file with them.
proof fn lemma_splits_nothing(entries: Seq<Entry>)
    ensures
        splits(entries, Seq::empty(), entries),
        apart(Seq::empty(), entries),
        apart(entries, Seq::empty()),
{
    assert forall|q: Seq<Seq<u8>>| file_at(Seq::<Entry>::empty(), q) is None by {}
}

/// The changes of a first part and of what is left, one after the other,
/// are the changes of the whole.
proof fn lemma_compose(
    prefix: Seq<Seq<u8>>,
    a: TreeChanges,
    b: TreeChanges,
    old_head: Seq<Entry>,
    new_head: Seq<Entry>,
    old_rest: Seq<Entry>,
    new_rest: Seq<Entry>,
    old: Seq<Entry>,
    new: Seq<Entry>,
)
    requires
        explains(a, prefix, old_head, new_head),
        explains(b, prefix, old_rest, new_rest),
        splits(old, old_head, old_rest),
        splits(new, new_head, new_rest),
        apart(new_head, old_rest),
        apart(old_head, new_rest),
    ensures
        explains(a.followed_by(b), prefix, old, new),
{
    let c = a.followed_by(b);
    assert forall|q: Seq<Seq<u8>>| #[trigger]
        c.created.contains(prefix + q) <==> (file_at(new, q) is Some && file_at(old, q)
            is None) by {
        lemma_concat_contains(a.created, b.created, prefix + q);
        let _ = (file_at(new_head, q), file_at(old_rest, q), file_at(old_head, q), file_at(new_rest, q));
    }
    assert forall|q: Seq<Seq<u8>>| #[trigger]
        c.deleted.contains(prefix + q) <==> (file_at(old, q) is Some && file_at(new, q)
            is None) by {
        lemma_concat_contains(a.deleted, b.deleted, prefix + q);
        let _ = (file_at(new_head, q), file_at(old_rest, q), file_at(old_head, q), file_at(new_rest, q));
    }
    assert forall|q: Seq<Seq<u8>>| #[trigger]
        c.modified.contains(prefix + q) <==> differs_at(old, new, q) by {
        lemma_concat_contains(a.modified, b.modified, prefix + q);
        let _ = (file_at(new_head, q), file_at(old_rest, q), file_at(old_head, q), file_at(new_rest, q));
    }
    assert forall|p: Seq<Seq<u8>>| #[trigger] c.created.contains(p) implies below(prefix, p) by {
        lemma_concat_contains(a.created, b.created, p);
    }
    assert forall|p: Seq<Seq<u8>>| #[trigger] c.deleted.contains(p) implies below(prefix, p) by {
        lemma_concat_contains(a.deleted, b.deleted, p);
    }
    assert forall|p: Seq<Seq<u8>>| #[trigger] c.modified.contains(p) implies below(prefix, p) by {
        lemma_concat_contains(a.modified, b.modified, p);
    }
}

/// No changes are the changes between no entries and no entries.
proof fn lemma_explains_nothing(prefix: Seq<Seq<u8>>)
    ensures
        explains(TreeChanges::empty(), prefix, Seq::empty(), Seq::empty()),
{
    assert forall|q: Seq<Seq<u8>>| file_at(Seq::<Entry>::empty(), q) is None by {}
}

/// What is listed below the directory `name` of the directory at `prefix`.
proof fn lemma_lift(
    prefix: Seq<Seq<u8>>,
    name: Seq<u8>,
    a: TreeChanges,
    old_nested: Seq<Entry>,
    new_nested: Seq<Entry>,
    old: Seq<Entry>,
    new: Seq<Entry>,
)
    requires
        explains(a, prefix.push(name), old_nested, new_nested),
        (old.len() == 0 && old_nested.len() == 0) || old == seq![
            Entry::Directory { name, entries: old_nested },
        ],
        (new.len() == 0 && new_nested.len() == 0) || new == seq![
            Entry::Directory { name, entries: new_nested },
        ],
    ensures
        explains(a, prefix, old, new),
{
    let inner = prefix.push(name);
    let old_dir = Entry::Directory { name, entries: old_nested };
    let new_dir = Entry::Directory { name, entries: new_nested };
    assert forall|p: Seq<Seq<u8>>| below(inner, p) implies below(prefix, p) && p.len()
        > prefix.len() && p[prefix.len() as int] == name by {
        assert(p.take(inner.len() as int)[prefix.len() as int] == name);
        assert(p.take(prefix.len() as int) =~= p.take(inner.len() as int).take(
            prefix.len() as int,
        ));
        assert(inner.take(prefix.len() as int) =~= prefix);
    }
    assert forall|q: Seq<Seq<u8>>|
        (q.len() > 0 && q[0] == name) ==> #[trigger] (prefix + q) == inner + q.drop_first() by {
        if q.len() > 0 && q[0] == name {
            assert(prefix + q =~= inner + q.drop_first());
        }
    }
    assert forall|q: Seq<Seq<u8>>| !(q.len() > 0 && q[0] == name) implies !below(
        inner,
        #[trigger] (prefix + q),
    ) by {
        if below(inner, prefix + q) {
            assert((prefix + q)[prefix.len() as int] == name);
            assert((prefix + q)[prefix.len() as int] == q[0]);
        }
    }
    assert forall|q: Seq<Seq<u8>>|
        #![trigger file_at(old, q)]
        #![trigger file_at(new, q)]
        {
            &&& file_at(old, q) == if q.len() > 1 && q[0] == name {
                file_at(old_nested, q.drop_first())
            } else {
                None
            }
            &&& file_at(new, q) == if q.len() > 1 && q[0] == name {
                file_at(new_nested, q.drop_first())
            } else {
                None
            }
        } by {
        lemma_single_entry(old_dir, q);
        lemma_single_entry(new_dir, q);
        assert(file_at(Seq::<Entry>::empty(), q) is None);
        assert(file_at(Seq::<Entry>::empty(), q.drop_first()) is None);
        if q.len() == 1 {
            assert(file_at(old_nested, q.drop_first()) is None);
            assert(file_at(new_nested, q.drop_first()) is None);
        }
    }
    assert forall|q: Seq<Seq<u8>>| #[trigger]
        a.created.contains(prefix + q) <==> (file_at(new, q) is Some && file_at(old, q)
            is None) by {
        let _ = (file_at(new, q), file_at(old, q));
        if q.len() > 0 && q[0] == name {
            assert(a.created.contains(inner + q.drop_first()) <==> (file_at(
                new_nested,
                q.drop_first(),
            ) is Some && file_at(old_nested, q.drop_first()) is None));
            if q.len() == 1 {
                assert(file_at(new_nested, q.drop_first()) is None);
            }
        }
    }
    assert forall|q: Seq<Seq<u8>>| #[trigger]
        a.deleted.contains(prefix + q) <==> (file_at(old, q) is Some && file_at(new, q)
            is None) by {
        let _ = (file_at(new, q), file_at(old, q));
        if q.len() > 0 && q[0] == name {
            assert(a.deleted.contains(inner + q.drop_first()) <==> (file_at(
                old_nested,
                q.drop_first(),
            ) is Some && file_at(new_nested, q.drop_first()) is None));
            if q.len() == 1 {
                assert(file_at(old_nested, q.drop_first()) is None);
            }
        }
    }
    assert forall|q: Seq<Seq<u8>>| #[trigger]
        a.modified.contains(prefix + q) <==> differs_at(old, new, q) by {
        let _ = (file_at(new, q), file_at(old, q));
        if q.len() > 0 && q[0] == name {
            assert(a.modified.contains(inner + q.drop_first()) <==> differs_at(
                old_nested,
                new_nested,
                q.drop_first(),
            ));
            if q.len() == 1 {
                assert(file_at(old_nested, q.drop_first()) is None);
            }
        }
    }
}

/// A single file, listed in one list.
proof fn lemma_explains_file(prefix: Seq<Seq<u8>>, entry: Entry)
    requires
        entry is File,
    ensures
        explains(
            TreeChanges::created(seq![prefix.push(entry.name())]),
            prefix,
            Seq::empty(),
            seq![entry],
        ),
        explains(
            TreeChanges::deleted(seq![prefix.push(entry.name())]),
            prefix,
            seq![entry],
            Seq::empty(),
        ),
{
    let path = prefix.push(entry.name());
    let only = seq![path];
    assert(only[0] == path);
    assert forall|q: Seq<Seq<u8>>| #[trigger]
        only.contains(prefix + q) <==> file_at(seq![entry], q) is Some by {
        lemma_single_entry(entry, q);
        if prefix + q == path {
            assert((prefix + q).len() == path.len());
            assert((prefix + q)[prefix.len() as int] == path[prefix.len() as int]);
        }
        if q.len() == 1 && q[0] == entry.name() {
            assert(prefix + q =~= path);
        }
    }
    assert forall|q: Seq<Seq<u8>>| file_at(Seq::<Entry>::empty(), q) is None by {}
    assert forall|p: Seq<Seq<u8>>| #[trigger] only.contains(p) implies below(prefix, p) by {
        assert(path.take(prefix.len() as int) =~= prefix);
    }
    assert(!Seq::<Seq<Seq<u8>>>::empty().contains(path));
}

/// The files below one entry, listed in one list.
proof fn lemma_entry_files_explained(prefix: Seq<Seq<u8>>, entry: Entry)
    requires
        entry matches Entry::Directory { entries: nested, .. } ==> sorted(nested),
    ensures
        explains(TreeChanges::created(entry.files(prefix)), prefix, Seq::empty(), seq![entry]),
        explains(TreeChanges::deleted(entry.files(prefix)), prefix, seq![entry], Seq::empty()),
    decreases entry, 0nat,
{
    match entry {
        Entry::File { .. } => {
            lemma_explains_file(prefix, entry);
        },
        Entry::Directory { name, entries } => {
            lemma_files_explained(prefix.push(name), entries);
            let files = files_of(prefix.push(name), entries);
            lemma_lift(
                prefix,
                name,
                TreeChanges::created(files),
                Seq::empty(),
                entries,
                Seq::empty(),
                seq![entry],
            );
            lemma_lift(
                prefix,
                name,
                TreeChanges::deleted(files),
                entries,
                Seq::empty(),
                seq![entry],
                Seq::empty(),
            );
        },
    }
}

/// The files below the entries of one directory, listed in one list.
proof fn lemma_files_explained(prefix: Seq<Seq<u8>>, entries: Seq<Entry>)
    requires
        sorted(entries),
    ensures
        explains(TreeChanges::created(files_of(prefix, entries)), prefix, Seq::empty(), entries),
        explains(TreeChanges::deleted(files_of(prefix, entries)), prefix, entries, Seq::empty()),
    decreases entries, 1nat,
{
    if entries.len() == 0 {
        lemma_explains_nothing(prefix);
        assert(entries =~= Seq::empty());
        assert(TreeChanges::created(files_of(prefix, entries)) =~= TreeChanges::empty());
        assert(TreeChanges::deleted(files_of(prefix, entries)) =~= TreeChanges::empty());
    } else {
        let tail = entries.drop_first();
        lemma_sorted_tail(entries);
        lemma_entry_files_explained(prefix, entries[0]);
        lemma_files_explained(prefix, tail);
        lemma_splits_head(entries);
        lemma_splits_nothing(Seq::empty());
        lemma_splits_nothing(tail);
        lemma_splits_nothing(seq![entries[0]]);
        let head_files = entries[0].files(prefix);
        let tail_files = files_of(prefix, tail);
        lemma_compose(
            prefix,
            TreeChanges::created(head_files),
            TreeChanges::created(tail_files),
            Seq::empty(),
            seq![entries[0]],
            Seq::empty(),
            tail,
            Seq::empty(),
            entries,
        );
        assert(TreeChanges::created(head_files).followed_by(TreeChanges::created(tail_files))
            =~= TreeChanges::created(files_of(prefix, entries)));
        lemma_compose(
            prefix,
            TreeChanges::deleted(head_files),
            TreeChanges::deleted(tail_files),
            seq![entries[0]],
            Seq::empty(),
            tail,
            Seq::empty(),
            entries,
            Seq::empty(),
        );
        assert(TreeChanges::deleted(head_files).followed_by(TreeChanges::deleted(tail_files))
            =~= TreeChanges::deleted(files_of(prefix, entries)));
    }
}

/// A file and a directory of the same name share no file.
proof fn lemma_apart_file_directory(file: Entry, dir: Entry)
    requires
        file is File,
        dir is Directory,
    ensures
        apart(seq![file], seq![dir]),
        apart(seq![dir], seq![file]),
{
    assert forall|q: Seq<Seq<u8>>| !(#[trigger] file_at(seq![file], q) is Some
        && #[trigger] file_at(seq![dir], q) is Some) by {
        lemma_single_entry(file, q);
        lemma_single_entry(dir, q);
    }
}

/// The changes between two entries of the same name, by path.
proof fn lemma_entry_changes_explained(prefix: Seq<Seq<u8>>, old: Entry, new: Entry)
    requires
        old.name() == new.name(),
        old matches Entry::Directory { entries: nested, .. } ==> sorted(nested),
        new matches Entry::Directory { entries: nested, .. } ==> sorted(nested),
    ensures
        explains(entry_changes(prefix, old, new), prefix, seq![old], seq![new]),
    decreases old, new, 0nat,
{
    let changes = entry_changes(prefix, old, new);
    let name = new.name();
    let path = prefix.push(name);
    lemma_splits_nothing(Seq::empty());
    lemma_splits_nothing(seq![old]);
    lemma_splits_nothing(seq![new]);
    match (new, old) {
        (Entry::File { size, checksum, .. }, Entry::File { size: old_size, checksum: old_checksum, .. }) => {
            let only = seq![path];
            assert(only[0] == path);
            assert forall|q: Seq<Seq<u8>>|
                #![trigger file_at(seq![old], q)]
                #![trigger file_at(seq![new], q)]
                #![trigger only.contains(prefix + q)]
                {
                    &&& (only.contains(prefix + q) <==> q.len() == 1 && q[0] == name)
                    &&& file_at(seq![new], q) == if q.len() == 1 && q[0] == name {
                        Some(File { size, checksum })
                    } else {
                        None
                    }
                    &&& file_at(seq![old], q) == if q.len() == 1 && q[0] == name {
                        Some(File { size: old_size, checksum: old_checksum })
                    } else {
                        None
                    }
                } by {
                lemma_single_entry(old, q);
                lemma_single_entry(new, q);
                if prefix + q == path {
                    assert((prefix + q).len() == path.len());
                    assert((prefix + q)[prefix.len() as int] == path[prefix.len() as int]);
                }
                if q.len() == 1 && q[0] == name {
                    assert(prefix + q =~= path);
                }
            }
            assert forall|p: Seq<Seq<u8>>| #[trigger] only.contains(p) implies below(prefix, p) by {
                assert(path.take(prefix.len() as int) =~= prefix);
            }
            let none = Seq::<Seq<Seq<u8>>>::empty();
            assert forall|p: Seq<Seq<u8>>| !(#[trigger] none.contains(p)) by {}
            assert forall|q: Seq<Seq<u8>>| #[trigger]
                changes.modified.contains(prefix + q) <==> differs_at(seq![old], seq![new], q) by {
                let _ = (file_at(seq![old], q), file_at(seq![new], q), only.contains(prefix + q));
            }
            assert forall|q: Seq<Seq<u8>>| #[trigger]
                changes.created.contains(prefix + q) <==> (file_at(seq![new], q) is Some
                    && file_at(seq![old], q) is None) by {
                let _ = (file_at(seq![old], q), file_at(seq![new], q));
            }
            assert forall|q: Seq<Seq<u8>>| #[trigger]
                changes.deleted.contains(prefix + q) <==> (file_at(seq![old], q) is Some
                    && file_at(seq![new], q) is None) by {
                let _ = (file_at(seq![old], q), file_at(seq![new], q));
            }
        },
        (Entry::File { .. }, Entry::Directory { .. }) => {
            lemma_explains_file(prefix, new);
            lemma_entry_files_explained(prefix, old);
            lemma_apart_file_directory(new, old);
            lemma_compose(
                prefix,
                TreeChanges::created(seq![path]),
                TreeChanges::deleted(old.files(prefix)),
                Seq::empty(),
                seq![new],
                seq![old],
                Seq::empty(),
                seq![old],
                seq![new],
            );
            assert(TreeChanges::created(seq![path]).followed_by(
                TreeChanges::deleted(old.files(prefix)),
            ) =~= changes);
        },
        (Entry::Directory { .. }, Entry::File { .. }) => {
            lemma_explains_file(prefix, old);
            lemma_entry_files_explained(prefix, new);
            lemma_apart_file_directory(old, new);
            lemma_compose(
                prefix,
                TreeChanges::created(new.files(prefix)),
                TreeChanges::deleted(seq![path]),
                Seq::empty(),
                seq![new],
                seq![old],
                Seq::empty(),
                seq![old],
                seq![new],
            );
            assert(TreeChanges::created(new.files(prefix)).followed_by(
                TreeChanges::deleted(seq![path]),
            ) =~= changes);
        },
        (Entry::Directory { entries, .. }, Entry::Directory { entries: old_entries, .. }) => {
            lemma_tree_changes_explained(path, old_entries, entries);
            lemma_lift(prefix, name, changes, old_entries, entries, seq![old], seq![new]);
        },
    }
}

/// The comparison of two sorted snapshots matches the entries by name, not
/// by position, at every level: it lists as created exactly the files that
/// only the new snapshot holds, as deleted exactly those that only the old
/// one holds, and as modified exactly those that both hold with another
/// size or another checksum. Paths are taken below `prefix`, the path of
/// the directory whose entries `old` and `new` are.
pub proof fn lemma_tree_changes_explained(prefix: Seq<Seq<u8>>, old: Seq<Entry>, new: Seq<Entry>)
    requires
        sorted(old),
        sorted(new),
    ensures
        explains(tree_changes(prefix, old, new), prefix, old, new),
    decreases old, new, 1nat,
{
    let changes = tree_changes(prefix, old, new);
    if old.len() == 0 && new.len() == 0 {
        lemma_explains_nothing(prefix);
        assert(old =~= Seq::empty() && new =~= Seq::empty());
    } else if old.len() == 0 {
        lemma_sorted_tail(new);
        lemma_entry_files_explained(prefix, new[0]);
        lemma_tree_changes_explained(prefix, old, new.drop_first());
        lemma_splits_head(new);
        lemma_splits_nothing(old);
        lemma_splits_nothing(seq![new[0]]);
        assert(old =~= Seq::empty());
        lemma_compose(
            prefix,
            TreeChanges::created(new[0].files(prefix)),
            tree_changes(prefix, old, new.drop_first()),
            Seq::empty(),
            seq![new[0]],
            old,
            new.drop_first(),
            old,
            new,
        );
    } else if new.len() == 0 {
        lemma_sorted_tail(old);
        lemma_entry_files_explained(prefix, old[0]);
        lemma_tree_changes_explained(prefix, old.drop_first(), new);
        lemma_splits_head(old);
        lemma_splits_nothing(new);
        lemma_splits_nothing(seq![old[0]]);
        assert(new =~= Seq::empty());
        lemma_compose(
            prefix,
            TreeChanges::deleted(old[0].files(prefix)),
            tree_changes(prefix, old.drop_first(), new),
            seq![old[0]],
            Seq::empty(),
            old.drop_first(),
            new,
            old,
            new,
        );
    } else {
        lemma_sorted_tail(old);
        lemma_sorted_tail(new);
        lemma_compare_flip(new[0].name(), old[0].name());
        lemma_compare_equal(new[0].name(), old[0].name());
        match compare_names(new[0].name(), old[0].name()) {
            NameOrder::Greater => {
                lemma_entry_files_explained(prefix, old[0]);
                lemma_tree_changes_explained(prefix, old.drop_first(), new);
                lemma_splits_head(old);
                lemma_splits_nothing(new);
                lemma_apart_before(old[0], new);
                lemma_compose(
                    prefix,
                    TreeChanges::deleted(old[0].files(prefix)),
                    tree_changes(prefix, old.drop_first(), new),
                    seq![old[0]],
                    Seq::empty(),
                    old.drop_first(),
                    new,
                    old,
                    new,
                );
            },
            NameOrder::Less => {
                lemma_entry_files_explained(prefix, new[0]);
                lemma_tree_changes_explained(prefix, old, new.drop_first());
                lemma_splits_head(new);
                lemma_splits_nothing(old);
                lemma_apart_before(new[0], old);
                lemma_compose(
                    prefix,
                    TreeChanges::created(new[0].files(prefix)),
                    tree_changes(prefix, old, new.drop_first()),
                    Seq::empty(),
                    seq![new[0]],
                    old,
                    new.drop_first(),
                    old,
                    new,
                );
            },
            NameOrder::Equal => {
                lemma_entry_changes_explained(prefix, old[0], new[0]);
                lemma_tree_changes_explained(prefix, old.drop_first(), new.drop_first());
                lemma_splits_head(old);
                lemma_splits_head(new);
                lemma_apart_before(old[0], new.drop_first());
                lemma_apart_before(new[0], old.drop_first());
                lemma_compose(
                    prefix,
                    entry_changes(prefix, old[0], new[0]),
                    tree_changes(prefix, old.drop_first(), new.drop_first()),
                    seq![old[0]],
                    seq![new[0]],
                    old.drop_first(),
                    new.drop_first(),
                    old,
                    new,
                );
            },
        }
    }
}

/// No path stands twice in one list.
pub open spec fn unique(changes: TreeChanges) -> bool {
    &&& changes.created.no_duplicates()
    &&& changes.deleted.no_duplicates()
    &&& changes.modified.no_duplicates()
}

/// Two lists that hold nothing twice and nothing in common hold nothing
/// twice, one after the other.
proof fn lemma_concat_no_duplicates<A>(a: Seq<A>, b: Seq<A>)
    requires
        a.no_duplicates(),
        b.no_duplicates(),
        forall|x: A| !(a.contains(x) && b.contains(x)),
    ensures
        (a + b).no_duplicates(),
{
    let c = a + b;
    assert forall|i: int, j: int| 0 <= i < c.len() && 0 <= j < c.len() && i != j implies c[i]
        != c[j] by {
        if i < a.len() && j >= a.len() {
            assert(a.contains(a[i]) && b.contains(b[j - a.len()]));
        }
        if j < a.len() && i >= a.len() {
            assert(a.contains(a[j]) && b.contains(b[i - a.len()]));
        }
    }
}

/// Where a first part and what is left share no file on either side, their
/// changes, one after the other, list no path twice.
proof fn lemma_compose_unique(
    prefix: Seq<Seq<u8>>,
    a: TreeChanges,
    b: TreeChanges,
    old_head: Seq<Entry>,
    new_head: Seq<Entry>,
    old_rest: Seq<Entry>,
    new_rest: Seq<Entry>,
)
    requires
        explains(a, prefix, old_head, new_head),
        explains(b, prefix, old_rest, new_rest),
        unique(a),
        unique(b),
        apart(old_head, old_rest),
        apart(new_head, new_rest),
    ensures
        unique(a.followed_by(b)),
{
    assert forall|x: Seq<Seq<u8>>| !(a.created.contains(x) && b.created.contains(x)) by {
        if a.created.contains(x) && b.created.contains(x) {
            lemma_below_split(prefix, x);
            let q = x.skip(prefix.len() as int);
            assert(a.created.contains(prefix + q) && b.created.contains(prefix + q));
            assert(file_at(new_head, q) is Some && file_at(new_rest, q) is Some);
        }
    }
    assert forall|x: Seq<Seq<u8>>| !(a.deleted.contains(x) && b.deleted.contains(x)) by {
        if a.deleted.contains(x) && b.deleted.contains(x) {
            lemma_below_split(prefix, x);
            let q = x.skip(prefix.len() as int);
            assert(a.deleted.contains(prefix + q) && b.deleted.contains(prefix + q));
            assert(file_at(old_head, q) is Some && file_at(old_rest, q) is Some);
        }
    }
    assert forall|x: Seq<Seq<u8>>| !(a.modified.contains(x) && b.modified.contains(x)) by {
        if a.modified.contains(x) && b.modified.contains(x) {
            lemma_below_split(prefix, x);
            let q = x.skip(prefix.len() as int);
            assert(a.modified.contains(prefix + q) && b.modified.contains(prefix + q));
            assert(file_at(old_head, q) is Some && file_at(old_rest, q) is Some);
        }
    }
    lemma_concat_no_duplicates(a.created, b.created);
    lemma_concat_no_duplicates(a.deleted, b.deleted);
    lemma_concat_no_duplicates(a.modified, b.modified);
}

/// The walk below one sorted entry meets no file twice.
proof fn lemma_entry_files_unique(prefix: Seq<Seq<u8>>, entry: Entry)
    requires
        entry matches Entry::Directory { entries: nested, .. } ==> sorted(nested),
    ensures
        entry.files(prefix).no_duplicates(),
    decreases entry, 0nat,
{
    match entry {
        Entry::File { .. } => {},
        Entry::Directory { name, entries } => {
            lemma_files_unique(prefix.push(name), entries);
        },
    }
}

/// The walk below sorted entries meets no file twice.
pub proof fn lemma_files_unique(prefix: Seq<Seq<u8>>, entries: Seq<Entry>)
    requires
        sorted(entries),
    ensures
        files_of(prefix, entries).no_duplicates(),
    decreases entries, 1nat,
{
    if entries.len() > 0 {
        let tail = entries.drop_first();
        lemma_sorted_tail(entries);
        lemma_entry_files_unique(prefix, entries[0]);
        lemma_files_unique(prefix, tail);
        lemma_entry_files_explained(prefix, entries[0]);
        lemma_files_explained(prefix, tail);
        lemma_apart_before(entries[0], tail);
        lemma_splits_nothing(Seq::empty());
        lemma_compose_unique(
            prefix,
            TreeChanges::created(entries[0].files(prefix)),
            TreeChanges::created(files_of(prefix, tail)),
            Seq::empty(),
            seq![entries[0]],
            Seq::empty(),
            tail,
        );
    }
}

/// The comparison of two sorted entries of the same name lists no path
/// twice in one list.
proof fn lemma_entry_changes_unique(prefix: Seq<Seq<u8>>, old: Entry, new: Entry)
    requires
        old.name() == new.name(),
        old matches Entry::Directory { entries: nested, .. } ==> sorted(nested),
        new matches Entry::Directory { entries: nested, .. } ==> sorted(nested),
    ensures
        unique(entry_changes(prefix, old, new)),
    decreases old, new, 0nat,
{
    match (new, old) {
        (Entry::File { .. }, Entry::File { .. }) => {},
        (Entry::File { .. }, Entry::Directory { .. }) => {
            lemma_entry_files_unique(prefix, old);
        },
        (Entry::Directory { .. }, Entry::File { .. }) => {
            lemma_entry_files_unique(prefix, new);
        },
        (Entry::Directory { name, entries }, Entry::Directory { entries: old_entries, .. }) => {
            lemma_tree_changes_unique(prefix.push(name), old_entries, entries);
        },
    }
}

/// The comparison of two sorted snapshots lists no path twice in one list.
pub proof fn lemma_tree_changes_unique(prefix: Seq<Seq<u8>>, old: Seq<Entry>, new: Seq<Entry>)
    requires
        sorted(old),
        sorted(new),
    ensures
        unique(tree_changes(prefix, old, new)),
    decreases old, new, 1nat,
{
    lemma_splits_nothing(old);
    lemma_splits_nothing(new);
    if old.len() == 0 && new.len() == 0 {
    } else if old.len() == 0 {
        lemma_sorted_tail(new);
        lemma_entry_files_unique(prefix, new[0]);
        lemma_entry_files_explained(prefix, new[0]);
        lemma_tree_changes_unique(prefix, old, new.drop_first());
        lemma_tree_changes_explained(prefix, old, new.drop_first());
        lemma_apart_before(new[0], new.drop_first());
        assert(old =~= Seq::empty());
        lemma_compose_unique(
            prefix,
            TreeChanges::created(new[0].files(prefix)),
            tree_changes(prefix, old, new.drop_first()),
            Seq::empty(),
            seq![new[0]],
            old,
            new.drop_first(),
        );
    } else if new.len() == 0 {
        lemma_sorted_tail(old);
        lemma_entry_files_unique(prefix, old[0]);
        lemma_entry_files_explained(prefix, old[0]);
        lemma_tree_changes_unique(prefix, old.drop_first(), new);
        lemma_tree_changes_explained(prefix, old.drop_first(), new);
        lemma_apart_before(old[0], old.drop_first());
        assert(new =~= Seq::empty());
        lemma_compose_unique(
            prefix,
            TreeChanges::deleted(old[0].files(prefix)),
            tree_changes(prefix, old.drop_first(), new),
            seq![old[0]],
            Seq::empty(),
            old.drop_first(),
            new,
        );
    } else {
        lemma_sorted_tail(old);
        lemma_sorted_tail(new);
        lemma_compare_equal(new[0].name(), old[0].name());
        match compare_names(new[0].name(), old[0].name()) {
            NameOrder::Greater => {
                lemma_entry_files_unique(prefix, old[0]);
                lemma_entry_files_explained(prefix, old[0]);
                lemma_tree_changes_unique(prefix, old.drop_first(), new);
                lemma_tree_changes_explained(prefix, old.drop_first(), new);
                lemma_apart_before(old[0], old.drop_first());
                lemma_compose_unique(
                    prefix,
                    TreeChanges::deleted(old[0].files(prefix)),
                    tree_changes(prefix, old.drop_first(), new),
                    seq![old[0]],
                    Seq::empty(),
                    old.drop_first(),
                    new,
                );
            },
            NameOrder::Less => {
                lemma_entry_files_unique(prefix, new[0]);
                lemma_entry_files_explained(prefix, new[0]);
                lemma_tree_changes_unique(prefix, old, new.drop_first());
                lemma_tree_changes_explained(prefix, old, new.drop_first());
                lemma_apart_before(new[0], new.drop_first());
                lemma_compose_unique(
                    prefix,
                    TreeChanges::created(new[0].files(prefix)),
                    tree_changes(prefix, old, new.drop_first()),
                    Seq::empty(),
                    seq![new[0]],
                    old,
                    new.drop_first(),
                );
            },
            NameOrder::Equal => {
                lemma_entry_changes_unique(prefix, old[0], new[0]);
                lemma_entry_changes_explained(prefix, old[0], new[0]);
                lemma_tree_changes_unique(prefix, old.drop_first(), new.drop_first());
                lemma_tree_changes_explained(prefix, old.drop_first(), new.drop_first());
                lemma_apart_before(old[0], old.drop_first());
                lemma_apart_before(new[0], new.drop_first());
                lemma_compose_unique(
                    prefix,
                    entry_changes(prefix, old[0], new[0]),
                    tree_changes(prefix, old.drop_first(), new.drop_first()),
                    seq![old[0]],
                    seq![new[0]],
                    old.drop_first(),
                    new.drop_first(),
                );
            },
        }
    }
}

} // verus!
