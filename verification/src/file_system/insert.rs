//! Building a sorted snapshot, file by file.

use crate::file_system::{
    compare_names, file_at, find, lemma_compare_equal, lemma_compare_flip,
    lemma_compare_transitive, names_ascend, sorted, Directory, DirectoryContents, Entry, File,
    Label, NameOrder, Path,
};
use vstd::prelude::*;

verus! {

/// A file can be put at `path` below `entries`: nothing stands there yet,
/// and no file stands in the way to it.
pub open spec fn place_free(entries: Seq<Entry>, path: Seq<Seq<u8>>) -> bool
    decreases path.len(),
{
    if path.len() == 0 {
        false
    } else {
        match find(entries, path[0]) {
            None => true,
            Some(Entry::File { .. }) => false,
            Some(Entry::Directory { entries: nested, .. }) => path.len() > 1 && place_free(
                nested,
                path.drop_first(),
            ),
        }
    }
}

/// Among ascending names, an entry is found under its name.
pub proof fn lemma_find_at(entries: Seq<Entry>, at: int)
    requires
        names_ascend(entries),
        0 <= at < entries.len(),
    ensures
        find(entries, entries[at].name()) == Some(entries[at]),
    decreases entries.len(),
{
    if at > 0 {
        let tail = entries.drop_first();
        assert forall|i: int, j: int| 0 <= i < j < tail.len() implies compare_names(
            #[trigger] tail[i].name(),
            #[trigger] tail[j].name(),
        ) is Less by {
            assert(tail[i] == entries[i + 1] && tail[j] == entries[j + 1]);
        }
        assert(tail[at - 1] == entries[at]);
        lemma_find_at(tail, at - 1);
        assert(compare_names(entries[0].name(), entries[at].name()) is Less);
        lemma_compare_equal(entries[0].name(), entries[at].name());
    }
}

/// What is found under a name is one of the entries and has that name;
/// where nothing is found, no entry has it.
pub proof fn lemma_find_is_entry(entries: Seq<Entry>, name: Seq<u8>)
    ensures
        find(entries, name) matches Some(e) ==> e.name() == name && entries.contains(e),
        find(entries, name) is None ==> forall|k: int|
            0 <= k < entries.len() ==> (#[trigger] entries[k]).name() != name,
    decreases entries.len(),
{
    if entries.len() > 0 {
        let tail = entries.drop_first();
        lemma_find_is_entry(tail, name);
        if entries[0].name() != name {
            if find(tail, name) is Some {
                let e = find(tail, name)->0;
                let k = choose|k: int| 0 <= k < tail.len() && tail[k] == e;
                assert(entries[k + 1] == e);
            } else {
                assert forall|k: int| 0 <= k < entries.len() implies (#[trigger] entries[k]).name()
                    != name by {
                    if k > 0 {
                        assert(tail[k - 1] == entries[k]);
                    }
                }
            }
        } else {
            assert(entries[0] == entries[0]);
        }
    }
}

/// Among ascending names, what is found under a name is the one entry that
/// has it.
proof fn lemma_find_by_index(entries: Seq<Entry>, name: Seq<u8>)
    requires
        names_ascend(entries),
    ensures
        forall|k: int|
            0 <= k < entries.len() && (#[trigger] entries[k]).name() == name ==> find(
                entries,
                name,
            ) == Some(entries[k]),
{
    assert forall|k: int| 0 <= k < entries.len() && (#[trigger] entries[k]).name()
        == name implies find(entries, name) == Some(entries[k]) by {
        lemma_find_at(entries, k);
    }
}

/// Putting an entry among ascending names, at its place, changes what is
/// found under its name and nothing else.
proof fn lemma_find_insert(entries: Seq<Entry>, at: int, entry: Entry, name: Seq<u8>)
    requires
        0 <= at <= entries.len(),
        names_ascend(entries),
        names_ascend(entries.insert(at, entry)),
    ensures
        find(entries.insert(at, entry), name) == if name == entry.name() {
            Some(entry)
        } else {
            find(entries, name)
        },
{
    let more = entries.insert(at, entry);
    assert(more[at] == entry);
    if name == entry.name() {
        lemma_find_at(more, at);
    } else {
        lemma_find_is_entry(entries, name);
        lemma_find_is_entry(more, name);
        lemma_find_by_index(entries, name);
        lemma_find_by_index(more, name);
        if find(entries, name) is Some {
            let e = find(entries, name)->0;
            let k = choose|k: int| 0 <= k < entries.len() && entries[k] == e;
            let m = if k < at { k } else { k + 1 };
            assert(more[m] == e);
        } else if find(more, name) is Some {
            let e = find(more, name)->0;
            let m = choose|m: int| 0 <= m < more.len() && more[m] == e;
            let k = if m < at { m } else { m - 1 };
            assert(entries[k] == e);
        }
    }
}

/// Putting another entry of the same name in the place of an entry, among
/// ascending names, changes what is found under that name and nothing else.
proof fn lemma_find_update(entries: Seq<Entry>, at: int, entry: Entry, name: Seq<u8>)
    requires
        0 <= at < entries.len(),
        names_ascend(entries),
        entry.name() == entries[at].name(),
    ensures
        names_ascend(entries.update(at, entry)),
        find(entries.update(at, entry), name) == if name == entry.name() {
            Some(entry)
        } else {
            find(entries, name)
        },
{
    let other = entries.update(at, entry);
    assert forall|i: int, j: int| 0 <= i < j < other.len() implies compare_names(
        #[trigger] other[i].name(),
        #[trigger] other[j].name(),
    ) is Less by {
        assert(other[i].name() == entries[i].name());
        assert(other[j].name() == entries[j].name());
    }
    assert(other[at] == entry);
    if name == entry.name() {
        lemma_find_at(other, at);
    } else {
        lemma_find_is_entry(entries, name);
        lemma_find_is_entry(other, name);
        lemma_find_by_index(entries, name);
        lemma_find_by_index(other, name);
        if find(entries, name) is Some {
            let e = find(entries, name)->0;
            let k = choose|k: int| 0 <= k < entries.len() && entries[k] == e;
            assert(other[k] == e);
        } else if find(other, name) is Some {
            let e = find(other, name)->0;
            let m = choose|m: int| 0 <= m < other.len() && other[m] == e;
            assert(entries[m] == e);
        }
    }
}

/// Ascending names stay ascending where an entry is put between the
/// entries that come before it and those that come after it.
proof fn lemma_insert_ascends(entries: Seq<Entry>, at: int, entry: Entry)
    requires
        0 <= at <= entries.len(),
        names_ascend(entries),
        forall|k: int| 0 <= k < at ==> compare_names(
            (#[trigger] entries[k]).name(),
            entry.name(),
        ) is Less,
        at < entries.len() ==> compare_names(entry.name(), entries[at].name()) is Less,
    ensures
        names_ascend(entries.insert(at, entry)),
{
    let more = entries.insert(at, entry);
    assert forall|i: int, j: int| 0 <= i < j < more.len() implies compare_names(
        #[trigger] more[i].name(),
        #[trigger] more[j].name(),
    ) is Less by {
        if j == at {
            assert(more[i] == entries[i]);
        } else if i == at {
            assert(more[j] == entries[j - 1]);
            if j - 1 > at {
                assert(compare_names(entries[at].name(), entries[j - 1].name()) is Less);
                lemma_compare_transitive(entry.name(), entries[at].name(), entries[j - 1].name());
            }
        } else {
            let a = if i < at { i } else { i - 1 };
            let b = if j < at { j } else { j - 1 };
            assert(more[i] == entries[a] && more[j] == entries[b]);
        }
    }
}

impl Directory {
    /// An empty directory.
    pub fn new(name: Label) -> (d: Directory)
        ensures
            d@ == Seq::<Entry>::empty(),
            d.name == name,
            sorted(d@),
    {
        let d = Directory { name, entries: Vec::new() };
        assert(d@ =~= Seq::<Entry>::empty());
        d
    }

    /// Where among the ascending entries the name `name` stands or would
    /// stand, and whether it stands there.
    fn position(&self, name: &Label) -> (r: (usize, bool))
        requires
            names_ascend(self@),
        ensures
            r.0 <= self@.len(),
            self@.len() == self.entries.len(),
            forall|k: int| 0 <= k < r.0 ==> compare_names(
                (#[trigger] self@[k]).name(),
                name@,
            ) is Less,
            r.1 ==> r.0 < self@.len() && self@[r.0 as int].name() == name@,
            !r.1 ==> (r.0 < self@.len() ==> compare_names(
                name@,
                self@[r.0 as int].name(),
            ) is Less),
            !r.1 ==> find(self@, name@) is None,
            r.1 ==> find(self@, name@) == Some(self@[r.0 as int]),
    {
        let n = self.entries.len();
        let mut i: usize = 0;
        let mut found = false;
        while i < n
            invariant_except_break
                !found,
            invariant
                n == self.entries.len(),
                n == self@.len(),
                i <= n,
                forall|k: int| 0 <= k < i ==> compare_names(
                    (#[trigger] self@[k]).name(),
                    name@,
                ) is Less,
            ensures
                i <= n,
                found ==> i < n && self@[i as int].name() == name@,
                !found ==> (i < n ==> compare_names(name@, self@[i as int].name()) is Less),
            decreases n - i,
        {
            assert(self@[i as int] == self.entries[i as int]@);
            let o = self.entries[i].label().compare(name);
            proof {
                lemma_compare_equal(self@[i as int].name(), name@);
                lemma_compare_flip(self@[i as int].name(), name@);
            }
            match o {
                NameOrder::Less => {},
                NameOrder::Equal => {
                    found = true;
                    break ;
                },
                NameOrder::Greater => {
                    break ;
                },
            }
            i = i + 1;
        }
        proof {
            if found {
                lemma_find_at(self@, i as int);
            } else {
                lemma_find_is_entry(self@, name@);
                if find(self@, name@) is Some {
                    let e = find(self@, name@)->0;
                    let k = choose|k: int| 0 <= k < self@.len() && self@[k] == e;
                    lemma_compare_equal(self@[k].name(), name@);
                    if k >= i {
                        lemma_compare_equal(name@, self@[i as int].name());
                        if k > i {
                            assert(compare_names(self@[i as int].name(), self@[k].name()) is Less);
                            lemma_compare_transitive(
                                name@,
                                self@[i as int].name(),
                                self@[k].name(),
                            );
                        }
                    }
                }
            }
        }
        (i, found)
    }

    /// Puts a file into the snapshot, under the name `name` in the
    /// directory that `path` leads to from this one. The directories on the
    /// way are made where they are missing.
    ///
    /// Nothing happens where the place is not free: where something stands
    /// at the place already, or a file stands in the way to it. Otherwise
    /// the snapshot holds the file at the place from then on, and at every
    /// other place what it held before. Either way it stays sorted.
    pub fn insert_file(&mut self, path: &Path, name: Label, file: File) -> (done: bool)
        requires
            sorted(old(self)@),
        ensures
            sorted(final(self)@),
            final(self).name == old(self).name,
            done == place_free(old(self)@, path@.push(name@)),
            done ==> forall|q: Seq<Seq<u8>>| #[trigger]
                file_at(final(self)@, q) == if q == path@.push(name@) {
                    Some(file)
                } else {
                    file_at(old(self)@, q)
                },
            !done ==> final(self)@ == old(self)@,
    {
        assert(path@.skip(0) =~= path@);
        self.put(path, 0, name, file)
    }

    /// Puts a file into the directory, below what is left of `path` from
    /// the name at `from` on.
    fn put(&mut self, path: &Path, from: usize, name: Label, file: File) -> (done: bool)
        requires
            sorted(old(self)@),
            from <= path@.len(),
        ensures
            sorted(final(self)@),
            final(self).name == old(self).name,
            done == place_free(old(self)@, path@.skip(from as int).push(name@)),
            done ==> forall|q: Seq<Seq<u8>>| #[trigger]
                file_at(final(self)@, q) == if q == path@.skip(from as int).push(name@) {
                    Some(file)
                } else {
                    file_at(old(self)@, q)
                },
            !done ==> final(self)@ == old(self)@,
        decreases path@.len() - from,
    {
        let ghost before = self@;
        let ghost target = path@.skip(from as int).push(name@);
        if from == path.labels.len() {
            let (at, found) = self.position(&name);
            assert(target =~= seq![name@]);
            assert(target[0] == name@);
            if found {
                return false;
            }
            let entry = DirectoryContents::File { name, file };
            let ghost added = entry@;
            self.entries.insert(at, entry);
            proof {
                assert(self@ =~= before.insert(at as int, added));
                lemma_insert_ascends(before, at as int, added);
                assert forall|i: int| 0 <= i < self@.len() implies (#[trigger] self@[i] matches Entry::Directory {
                    entries: nested,
                    ..
                } ==> sorted(nested)) by {
                    if i < at {
                        assert(self@[i] == before[i]);
                    } else if i > at {
                        assert(self@[i] == before[i - 1]);
                    }
                }
                assert forall|q: Seq<Seq<u8>>| #[trigger]
                    file_at(self@, q) == if q == target {
                        Some(file)
                    } else {
                        file_at(before, q)
                    } by {
                    if q.len() > 0 {
                        lemma_find_insert(before, at as int, added, q[0]);
                        if q.len() == 1 && q[0] == name@ {
                            assert(q =~= target);
                        }
                    }
                }
            }
            true
        } else {
            let next = &path.labels[from];
            let (at, found) = self.position(next);
            let ghost rest = path@.skip(from + 1).push(name@);
            proof {
                assert(path@.skip(from as int)[0] == next@);
                assert(target[0] == next@);
                assert(target.drop_first() =~= rest);
                assert(target.len() > 1);
            }
            if found {
                assert(before[at as int] == self.entries[at as int]@);
                let entry = self.entries.remove(at);
                match entry {
                    DirectoryContents::Directory(nested) => {
                        let mut nested = nested;
                        let ghost inner = nested@;
                        let done = nested.put(path, from + 1, name, file);
                        let changed = DirectoryContents::Directory(nested);
                        let ghost now = changed@;
                        self.entries.insert(at, changed);
                        proof {
                            assert(self@ =~= before.update(at as int, now));
                            if !done {
                                assert(now == before[at as int]);
                                assert(self@ =~= before);
                            } else {
                                lemma_find_update(before, at as int, now, next@);
                                assert forall|i: int| 0 <= i < self@.len() implies (
                                #[trigger] self@[i] matches Entry::Directory {
                                    entries: e,
                                    ..
                                } ==> sorted(e)) by {
                                    if i != at {
                                        assert(self@[i] == before[i]);
                                    }
                                }
                                assert forall|q: Seq<Seq<u8>>| #[trigger]
                                    file_at(self@, q) == if q == target {
                                        Some(file)
                                    } else {
                                        file_at(before, q)
                                    } by {
                                    if q.len() > 0 {
                                        lemma_find_update(before, at as int, now, q[0]);
                                        if q[0] == next@ && q.len() > 1 {
                                            let _ = file_at(nested@, q.drop_first());
                                            if q.drop_first() == rest {
                                                assert(q =~= seq![q[0]] + q.drop_first());
                                                assert(target =~= seq![target[0]]
                                                    + target.drop_first());
                                            }
                                            if q == target {
                                                assert(q.drop_first() =~= rest);
                                            }
                                        }
                                    }
                                }
                            }
                        }
                        done
                    },
                    other => {
                        self.entries.insert(at, other);
                        assert(self@ =~= before);
                        false
                    },
                }
            } else {
                let mut nested = Directory::new(next.clone());
                let done = nested.put(path, from + 1, name, file);
                let made = DirectoryContents::Directory(nested);
                let ghost added = made@;
                self.entries.insert(at, made);
                proof {
                    assert(done);
                    assert(self@ =~= before.insert(at as int, added));
                    lemma_insert_ascends(before, at as int, added);
                    assert forall|i: int| 0 <= i < self@.len() implies (#[trigger] self@[i] matches Entry::Directory {
                        entries: e,
                        ..
                    } ==> sorted(e)) by {
                        if i < at {
                            assert(self@[i] == before[i]);
                        } else if i > at {
                            assert(self@[i] == before[i - 1]);
                        }
                    }
                    assert forall|q: Seq<Seq<u8>>| #[trigger]
                        file_at(self@, q) == if q == target {
                            Some(file)
                        } else {
                            file_at(before, q)
                        } by {
                        if q.len() > 0 {
                            lemma_find_insert(before, at as int, added, q[0]);
                            if q[0] == next@ && q.len() > 1 {
                                let _ = file_at(nested@, q.drop_first());
                                assert(file_at(Seq::<Entry>::empty(), q.drop_first()) is None);
                                if q.drop_first() == rest {
                                    assert(q =~= seq![q[0]] + q.drop_first());
                                    assert(target =~= seq![target[0]] + target.drop_first());
                                }
                                if q == target {
                                    assert(q.drop_first() =~= rest);
                                }
                            }
                        }
                    }
                }
                true
            }
        }
    }
}

} // verus!
