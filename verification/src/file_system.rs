//! Snapshots of a file tree: directories whose entries are files, known by
//! their size and the checksum of their content, and directories again.
//! Entries go by name, and names are ordered byte by byte.

use vstd::prelude::*;
use vstd::string::{StrSliceExecFns, StringSliceAdditionalSpecFns};

pub mod insert;

verus! {

/// The name of one entry of a directory, as raw bytes.
#[derive(Debug, PartialEq, Eq, Hash)]
pub struct Label {
    pub bytes: Vec<u8>,
}

impl View for Label {
    type V = Seq<u8>;

    open spec fn view(&self) -> Seq<u8> {
        self.bytes@
    }
}

impl Clone for Label {
    fn clone(&self) -> (r: Self)
        ensures
            r@ == self@,
    {
        Label { bytes: self.bytes.clone() }
    }
}

/// How two names stand to each other in the order of a directory.
#[derive(Clone, Copy, Debug, PartialEq, Eq, Structural)]
pub enum NameOrder {
    Less,
    Equal,
    Greater,
}

/// Lexicographic comparison of two names, byte by byte; a proper prefix
/// comes before every name that it begins.
pub open spec fn compare_names(a: Seq<u8>, b: Seq<u8>) -> NameOrder
    decreases a.len(),
{
    if a.len() == 0 {
        if b.len() == 0 {
            NameOrder::Equal
        } else {
            NameOrder::Less
        }
    } else if b.len() == 0 {
        NameOrder::Greater
    } else if a[0] < b[0] {
        NameOrder::Less
    } else if a[0] > b[0] {
        NameOrder::Greater
    } else {
        compare_names(a.drop_first(), b.drop_first())
    }
}

/// Two names compare as equal exactly when they are the same name.
pub proof fn lemma_compare_equal(a: Seq<u8>, b: Seq<u8>)
    ensures
        compare_names(a, b) is Equal <==> a == b,
    decreases a.len(),
{
    if a.len() == 0 || b.len() == 0 {
        if a.len() == 0 && b.len() == 0 {
            assert(a =~= b);
        }
    } else {
        lemma_compare_equal(a.drop_first(), b.drop_first());
        if a[0] == b[0] && a.drop_first() == b.drop_first() {
            assert(a =~= seq![a[0]] + a.drop_first());
            assert(b =~= seq![b[0]] + b.drop_first());
        }
    }
}

/// Exchanging the two names exchanges `Less` and `Greater`.
pub proof fn lemma_compare_flip(a: Seq<u8>, b: Seq<u8>)
    ensures
        compare_names(a, b) is Less <==> compare_names(b, a) is Greater,
        compare_names(a, b) is Greater <==> compare_names(b, a) is Less,
        compare_names(a, b) is Equal <==> compare_names(b, a) is Equal,
    decreases a.len(),
{
    if a.len() > 0 && b.len() > 0 {
        lemma_compare_flip(a.drop_first(), b.drop_first());
    }
}

/// The order of names is transitive.
pub proof fn lemma_compare_transitive(a: Seq<u8>, b: Seq<u8>, c: Seq<u8>)
    requires
        compare_names(a, b) is Less,
        compare_names(b, c) is Less,
    ensures
        compare_names(a, c) is Less,
    decreases a.len(),
{
    if a.len() > 0 && b.len() > 0 && c.len() > 0 {
        if a[0] == b[0] && b[0] == c[0] {
            lemma_compare_transitive(a.drop_first(), b.drop_first(), c.drop_first());
        }
    }
}

impl Label {
    /// The name that is written as `name`: its UTF-8 encoding.
    pub fn new(name: &str) -> (r: Label)
        ensures
            r@ == name.spec_bytes(),
    {
        Label { bytes: name.as_bytes_vec() }
    }

    /// How the name stands to `other` in the order of a directory.
    pub fn compare(&self, other: &Label) -> (o: NameOrder)
        ensures
            o == compare_names(self@, other@),
    {
        compare_bytes(self.bytes.as_slice(), other.bytes.as_slice())
    }
}

/// Compares two names byte by byte.
pub fn compare_bytes(a: &[u8], b: &[u8]) -> (o: NameOrder)
    ensures
        o == compare_names(a@, b@),
{
    let n = a.len();
    let m = b.len();
    let mut i: usize = 0;
    assert(a@.skip(0) == a@ && b@.skip(0) == b@);
    while i < n && i < m
        invariant
            n == a@.len(),
            m == b@.len(),
            i <= n,
            i <= m,
            compare_names(a@, b@) == compare_names(a@.skip(i as int), b@.skip(i as int)),
        decreases n - i,
    {
        let x = a[i];
        let y = b[i];
        proof {
            let s = a@.skip(i as int);
            let t = b@.skip(i as int);
            assert(s[0] == x && t[0] == y);
            assert(s.drop_first() == a@.skip(i + 1));
            assert(t.drop_first() == b@.skip(i + 1));
        }
        if x < y {
            return NameOrder::Less;
        }
        if x > y {
            return NameOrder::Greater;
        }
        i = i + 1;
    }
    if i < m {
        NameOrder::Less
    } else if i < n {
        NameOrder::Greater
    } else {
        NameOrder::Equal
    }
}

/// The place of an entry below the root of a snapshot: the names of the
/// directories that lead to it, outermost first, and its own name last.
#[derive(Debug, PartialEq, Eq, Hash)]
pub struct Path {
    pub labels: Vec<Label>,
}

impl View for Path {
    type V = Seq<Seq<u8>>;

    open spec fn view(&self) -> Seq<Seq<u8>> {
        self.labels@.map_values(|l: Label| l@)
    }
}

impl Clone for Path {
    fn clone(&self) -> (r: Self)
        ensures
            r@ == self@,
    {
        let mut labels: Vec<Label> = Vec::new();
        let n = self.labels.len();
        let mut i: usize = 0;
        while i < n
            invariant
                n == self.labels.len(),
                i <= n,
                labels.len() == i,
                forall|k: int| 0 <= k < i ==> labels[k]@ == self.labels[k]@,
            decreases n - i,
        {
            labels.push(self.labels[i].clone());
            i = i + 1;
        }
        let r = Path { labels };
        assert(r@ =~= self@);
        r
    }
}

impl Path {
    /// The path of the root itself: no names.
    pub fn root() -> (p: Path)
        ensures
            p@ == Seq::<Seq<u8>>::empty(),
    {
        let p = Path { labels: Vec::new() };
        assert(p@ =~= Seq::<Seq<u8>>::empty());
        p
    }

    /// Appends one name.
    pub fn push(&mut self, label: Label)
        ensures
            final(self)@ == old(self)@.push(label@),
    {
        self.labels.push(label);
        assert(self@ =~= old(self)@.push(label@));
    }

    /// The path of the entry `label` inside the directory at `self`.
    pub fn join(&self, label: &Label) -> (p: Path)
        ensures
            p@ == self@.push(label@),
    {
        let mut p = self.clone();
        p.push(label.clone());
        p
    }
}

/// The byte that separates the names of a path in its written form: `/`.
pub const SEPARATOR: u8 = 47;

/// The names that a written path consists of: the pieces between its
/// separators. A written path with `n` separators has `n + 1` names, some
/// of which may be empty.
pub open spec fn split(bytes: Seq<u8>) -> Seq<Seq<u8>>
    decreases bytes.len(),
{
    if bytes.len() == 0 {
        seq![Seq::empty()]
    } else {
        let rest = split(bytes.drop_first());
        if bytes[0] == SEPARATOR {
            seq![Seq::empty()] + rest
        } else {
            rest.update(0, seq![bytes[0]] + rest[0])
        }
    }
}

/// The written form of a path: its names with a separator between each two.
pub open spec fn written(labels: Seq<Seq<u8>>) -> Seq<u8>
    decreases labels.len(),
{
    if labels.len() == 0 {
        Seq::empty()
    } else if labels.len() == 1 {
        labels[0]
    } else {
        written(labels.drop_last()) + seq![SEPARATOR] + labels.last()
    }
}

/// A written path always has a first name.
pub proof fn lemma_split_nonempty(bytes: Seq<u8>)
    ensures
        split(bytes).len() > 0,
    decreases bytes.len(),
{
    if bytes.len() > 0 {
        lemma_split_nonempty(bytes.drop_first());
    }
}

/// Writing a first name before other names puts it, with a separator, before
/// what the others are written as.
proof fn lemma_written_first(first: Seq<u8>, rest: Seq<Seq<u8>>)
    requires
        rest.len() > 0,
    ensures
        written(seq![first] + rest) == first + seq![SEPARATOR] + written(rest),
    decreases rest.len(),
{
    let all = seq![first] + rest;
    assert(all.last() == rest.last());
    if rest.len() == 1 {
        assert(all.drop_last() =~= seq![first]);
        assert(written(all.drop_last()) == first);
        assert(written(rest) == rest[0]);
    } else {
        assert(all.drop_last() =~= seq![first] + rest.drop_last());
        lemma_written_first(first, rest.drop_last());
        assert(written(all) =~= first + seq![SEPARATOR] + written(rest));
    }
}

/// Bytes put before the first name come before what the names are written
/// as.
proof fn lemma_written_longer_first(more: Seq<u8>, names: Seq<Seq<u8>>)
    requires
        names.len() > 0,
    ensures
        written(names.update(0, more + names[0])) == more + written(names),
    decreases names.len(),
{
    let changed = names.update(0, more + names[0]);
    if names.len() > 1 {
        assert(changed.drop_last() =~= names.drop_last().update(0, more + names[0]));
        assert(changed.last() == names.last());
        lemma_written_longer_first(more, names.drop_last());
        assert(written(changed) =~= more + written(names));
    }
}

/// The names of a written path, written again, are the path as it was
/// written.
pub proof fn lemma_written_split(bytes: Seq<u8>)
    ensures
        written(split(bytes)) == bytes,
    decreases bytes.len(),
{
    if bytes.len() == 0 {
        assert(written(split(bytes)) =~= bytes);
    } else {
        let rest = split(bytes.drop_first());
        lemma_split_nonempty(bytes.drop_first());
        lemma_written_split(bytes.drop_first());
        if bytes[0] == SEPARATOR {
            lemma_written_first(Seq::empty(), rest);
        } else {
            lemma_written_longer_first(seq![bytes[0]], rest);
        }
        assert(seq![bytes[0]] + bytes.drop_first() =~= bytes);
        assert(written(split(bytes)) =~= bytes);
    }
}

/// What names without a separator in them are written as has exactly these
/// names.
pub proof fn lemma_split_written(names: Seq<Seq<u8>>)
    requires
        names.len() > 0,
        forall|i: int| 0 <= i < names.len() ==> !(#[trigger] names[i]).contains(SEPARATOR),
    ensures
        split(written(names)) == names,
    decreases names.len(),
{
    if names.len() == 1 {
        lemma_split_plain(names[0]);
        assert(names =~= seq![names[0]]);
    } else {
        let before = names.drop_last();
        assert forall|i: int| 0 <= i < before.len() implies !(#[trigger] before[i]).contains(
            SEPARATOR,
        ) by {
            assert(before[i] == names[i]);
        }
        lemma_split_written(before);
        lemma_split_plain(names.last());
        lemma_split_concat(written(before), names.last());
        assert(before + seq![names.last()] =~= names);
    }
}

/// A text without a separator is a single name.
proof fn lemma_split_plain(name: Seq<u8>)
    requires
        !name.contains(SEPARATOR),
    ensures
        split(name) == seq![name],
    decreases name.len(),
{
    if name.len() == 0 {
        assert(name =~= Seq::empty());
    } else {
        let rest = name.drop_first();
        assert forall|i: int| 0 <= i < rest.len() implies rest[i] != SEPARATOR by {
            assert(name[i + 1] == rest[i]);
            assert(name.contains(name[i + 1]));
        }
        lemma_split_plain(rest);
        assert(name.contains(name[0]));
        assert(seq![name[0]] + rest =~= name);
        assert(seq![rest].update(0, seq![name[0]] + rest) =~= seq![name]);
    }
}

/// The names of a text, a separator and another text are the names of the
/// first and the names of the second.
proof fn lemma_split_concat(a: Seq<u8>, b: Seq<u8>)
    ensures
        split(a + seq![SEPARATOR] + b) == split(a) + split(b),
    decreases a.len(),
{
    let all = a + seq![SEPARATOR] + b;
    if a.len() == 0 {
        assert(all.drop_first() =~= b);
        assert(split(a) =~= seq![Seq::<u8>::empty()]);
    } else {
        let rest = a.drop_first();
        assert(all.drop_first() =~= rest + seq![SEPARATOR] + b);
        lemma_split_concat(rest, b);
        lemma_split_nonempty(rest);
        if a[0] == SEPARATOR {
            assert(split(all) =~= split(a) + split(b));
        } else {
            let inner = split(rest);
            assert((inner + split(b)).update(0, seq![a[0]] + (inner + split(b))[0]) =~= inner.update(
                0,
                seq![a[0]] + inner[0],
            ) + split(b));
        }
    }
}

impl Path {
    /// The path that is written as `bytes`, its names separated by `/`. The
    /// empty text is the path of the root.
    pub fn parse(bytes: &[u8]) -> (p: Path)
        ensures
            bytes@.len() == 0 ==> p@ == Seq::<Seq<u8>>::empty(),
            bytes@.len() > 0 ==> p@ == split(bytes@),
    {
        let n = bytes.len();
        if n == 0 {
            return Path::root();
        }
        let mut path = Path::root();
        let mut current: Vec<u8> = Vec::new();
        let mut i: usize = 0;
        proof {
            lemma_split_nonempty(bytes@);
            assert(bytes@.skip(0) =~= bytes@);
            let rest = split(bytes@);
            assert(rest.update(0, Seq::<u8>::empty() + rest[0]) =~= rest);
            assert(Seq::<Seq<u8>>::empty() + rest =~= rest);
        }
        while i < n
            invariant
                n == bytes@.len(),
                i <= n,
                split(bytes@.skip(i as int)).len() > 0,
                split(bytes@) == path@ + split(bytes@.skip(i as int)).update(
                    0,
                    current@ + split(bytes@.skip(i as int))[0],
                ),
            decreases n - i,
        {
            let b = bytes[i];
            let ghost here = bytes@.skip(i as int);
            let ghost rest = split(bytes@.skip(i + 1));
            let ghost done = path@;
            let ghost cur = current@;
            proof {
                assert(here[0] == b);
                assert(here.drop_first() =~= bytes@.skip(i + 1));
                lemma_split_nonempty(bytes@.skip(i + 1));
            }
            if b == SEPARATOR {
                path.push(Label { bytes: current });
                current = Vec::new();
                proof {
                    let s = seq![Seq::<u8>::empty()] + rest;
                    assert(split(here) == s);
                    assert(done + s.update(0, cur + s[0]) =~= done.push(cur) + rest.update(
                        0,
                        Seq::<u8>::empty() + rest[0],
                    ));
                }
            } else {
                current.push(b);
                proof {
                    let s = rest.update(0, seq![b] + rest[0]);
                    assert(split(here) == s);
                    assert(cur + s[0] =~= cur.push(b) + rest[0]);
                    assert(s.update(0, cur + s[0]) =~= rest.update(0, cur.push(b) + rest[0]));
                }
            }
            i = i + 1;
        }
        let ghost done = path@;
        path.push(Label { bytes: current });
        proof {
            let last = split(bytes@.skip(n as int));
            assert(last =~= seq![Seq::<u8>::empty()]);
            assert(done + last.update(0, current@ + last[0]) =~= done.push(current@));
        }
        path
    }

    /// The written form of the path: its names, separated by `/`.
    pub fn to_bytes(&self) -> (bytes: Vec<u8>)
        ensures
            bytes@ == written(self@),
    {
        let mut bytes: Vec<u8> = Vec::new();
        let n = self.labels.len();
        let mut i: usize = 0;
        assert(self@.take(0) =~= Seq::empty());
        while i < n
            invariant
                n == self.labels.len(),
                n == self@.len(),
                i <= n,
                bytes@ == written(self@.take(i as int)),
            decreases n - i,
        {
            if i > 0 {
                bytes.push(SEPARATOR);
            }
            let label = &self.labels[i];
            let m = label.bytes.len();
            let ghost start = bytes@;
            let mut j: usize = 0;
            while j < m
                invariant
                    m == label.bytes.len(),
                    j <= m,
                    bytes@ == start + label@.take(j as int),
                decreases m - j,
            {
                bytes.push(label.bytes[j]);
                assert(label@.take(j + 1) =~= label@.take(j as int).push(label.bytes[j as int]));
                j = j + 1;
            }
            proof {
                assert(label@.take(m as int) =~= label@);
                let shown = self@.take(i + 1);
                assert(shown.drop_last() =~= self@.take(i as int));
                assert(shown.last() == label@);
                if i == 0 {
                    assert(bytes@ =~= label@);
                }
            }
            i = i + 1;
        }
        assert(self@.take(n as int) =~= self@);
        bytes
    }
}

/// Size and content checksum of a file.
#[derive(Clone, Copy, Debug, PartialEq, Eq, Structural)]
pub struct File {
    pub size: usize,
    pub checksum: u64,
}

/// One entry of a directory.
#[derive(Debug, PartialEq, Eq)]
pub enum DirectoryContents {
    File { name: Label, file: File },
    Directory(Directory),
}

/// A directory: its name and its entries.
#[derive(Debug, PartialEq, Eq)]
pub struct Directory {
    pub name: Label,
    pub entries: Vec<DirectoryContents>,
}

/// The mathematical model of an entry.
pub enum Entry {
    File { name: Seq<u8>, size: usize, checksum: u64 },
    Directory { name: Seq<u8>, entries: Seq<Entry> },
}

impl View for DirectoryContents {
    type V = Entry;

    open spec fn view(&self) -> Entry
        decreases self,
    {
        match self {
            DirectoryContents::File { name, file } => Entry::File {
                name: name@,
                size: file.size,
                checksum: file.checksum,
            },
            DirectoryContents::Directory(dir) => Entry::Directory {
                name: dir.name@,
                entries: dir.view(),
            },
        }
    }
}

impl View for Directory {
    type V = Seq<Entry>;

    open spec fn view(&self) -> Seq<Entry>
        decreases self,
    {
        Seq::new(
            self.entries.len() as nat,
            |i: int|
                if 0 <= i < self.entries.len() {
                    self.entries@[i].view()
                } else {
                    arbitrary()
                },
        )
    }
}

impl DirectoryContents {
    /// A copy of the entry, with everything below it.
    pub fn duplicate(&self) -> (r: DirectoryContents)
        ensures
            r@ == self@,
        decreases self,
    {
        match self {
            DirectoryContents::File { name, file } => DirectoryContents::File {
                name: name.clone(),
                file: *file,
            },
            DirectoryContents::Directory(dir) => DirectoryContents::Directory(dir.duplicate()),
        }
    }
}

impl Directory {
    /// A copy of the directory, with everything below it.
    pub fn duplicate(&self) -> (r: Directory)
        ensures
            r@ == self@,
            r.name@ == self.name@,
        decreases self,
    {
        let mut entries: Vec<DirectoryContents> = Vec::new();
        let n = self.entries.len();
        let mut i: usize = 0;
        while i < n
            invariant
                n == self.entries.len(),
                i <= n,
                entries.len() == i,
                forall|k: int| 0 <= k < i ==> entries[k]@ == self.entries[k]@,
            decreases n - i,
        {
            entries.push(self.entries[i].duplicate());
            i = i + 1;
        }
        let r = Directory { name: self.name.clone(), entries };
        assert(r@ =~= self@);
        r
    }
}

impl Clone for DirectoryContents {
    fn clone(&self) -> (r: Self)
        ensures
            r@ == self@,
    {
        self.duplicate()
    }
}

impl Clone for Directory {
    fn clone(&self) -> (r: Self)
        ensures
            r@ == self@,
            r.name@ == self.name@,
    {
        self.duplicate()
    }
}

impl Entry {
    /// The entry's own name.
    pub open spec fn name(self) -> Seq<u8> {
        match self {
            Entry::File { name, .. } => name,
            Entry::Directory { name, .. } => name,
        }
    }

    /// The paths of the files that the entry stands for, below `prefix`, in
    /// the order of a depth-first walk: the file itself, or every file of
    /// the directory and of the directories nested in it.
    pub open spec fn files(self, prefix: Seq<Seq<u8>>) -> Seq<Seq<Seq<u8>>>
        decreases self,
    {
        match self {
            Entry::File { name, .. } => seq![prefix.push(name)],
            Entry::Directory { name, entries } => files_of(prefix.push(name), entries),
        }
    }
}

/// The paths of all files below the entries of one directory whose own path
/// is `prefix`, in the order of a depth-first walk.
pub open spec fn files_of(prefix: Seq<Seq<u8>>, entries: Seq<Entry>) -> Seq<Seq<Seq<u8>>>
    decreases entries,
{
    if entries.len() == 0 {
        Seq::empty()
    } else {
        entries[0].files(prefix) + files_of(prefix, entries.drop_first())
    }
}

/// The first of the entries that has the name `name`.
pub open spec fn find(entries: Seq<Entry>, name: Seq<u8>) -> Option<Entry>
    decreases entries.len(),
{
    if entries.len() == 0 {
        None
    } else if entries[0].name() == name {
        Some(entries[0])
    } else {
        find(entries.drop_first(), name)
    }
}

/// The file that `path` leads to, from the entries of a directory down
/// through the directories that the path names. There is none where a name
/// of the path is missing, where the path ends at a directory, or where it
/// goes on below a file.
pub open spec fn file_at(entries: Seq<Entry>, path: Seq<Seq<u8>>) -> Option<File>
    decreases path.len(),
{
    if path.len() == 0 {
        None
    } else {
        match find(entries, path[0]) {
            None => None,
            Some(Entry::File { size, checksum, .. }) => {
                if path.len() == 1 {
                    Some(File { size, checksum })
                } else {
                    None
                }
            },
            Some(Entry::Directory { entries: nested, .. }) => {
                if path.len() == 1 {
                    None
                } else {
                    file_at(nested, path.drop_first())
                }
            },
        }
    }
}

/// The names of the entries strictly ascend.
pub open spec fn names_ascend(entries: Seq<Entry>) -> bool {
    forall|i: int, j: int|
        0 <= i < j < entries.len() ==> compare_names(
            #[trigger] entries[i].name(),
            #[trigger] entries[j].name(),
        ) is Less
}

/// The entries are sorted by name, with no name twice, and so are the
/// entries of every directory nested in them.
pub open spec fn sorted(entries: Seq<Entry>) -> bool
    decreases entries,
{
    &&& names_ascend(entries)
    &&& forall|i: int|
        0 <= i < entries.len() ==> (#[trigger] entries[i] matches Entry::Directory {
            entries: nested,
            ..
        } ==> sorted(nested))
}

/// No two of the entries have the same name.
pub open spec fn names_differ(entries: Seq<Entry>) -> bool {
    forall|i: int, j: int|
        0 <= i < j < entries.len() ==> (#[trigger] entries[i]).name() != (
        #[trigger] entries[j]).name()
}

/// No directory holds a name twice: not the one whose entries these are,
/// and none that is nested in it. The entries may stand in any order.
pub open spec fn distinct(entries: Seq<Entry>) -> bool
    decreases entries,
{
    &&& names_differ(entries)
    &&& forall|i: int|
        0 <= i < entries.len() ==> (#[trigger] entries[i] matches Entry::Directory {
            entries: nested,
            ..
        } ==> distinct(nested))
}

/// Sorted entries hold no name twice.
pub proof fn lemma_sorted_is_distinct(entries: Seq<Entry>)
    requires
        sorted(entries),
    ensures
        distinct(entries),
    decreases entries,
{
    assert forall|i: int, j: int| 0 <= i < j < entries.len() implies (#[trigger] entries[i]).name()
        != (#[trigger] entries[j]).name() by {
        lemma_compare_equal(entries[i].name(), entries[j].name());
    }
    assert forall|i: int| 0 <= i < entries.len() implies (#[trigger] entries[i] matches Entry::Directory {
        entries: nested,
        ..
    } ==> distinct(nested)) by {
        match entries[i] {
            Entry::Directory { entries: nested, .. } => {
                lemma_sorted_is_distinct(nested);
            },
            _ => {},
        }
    }
}

impl DirectoryContents {
    /// The entry's own name.
    pub fn label(&self) -> (l: &Label)
        ensures
            l@ == self@.name(),
    {
        match self {
            DirectoryContents::File { name, .. } => name,
            DirectoryContents::Directory(dir) => &dir.name,
        }
    }
}

impl Directory {
    /// The name of the directory itself.
    pub fn current(&self) -> (l: &Label)
        ensures
            l@ == self.name@,
    {
        &self.name
    }

    /// Whether the snapshot is sorted by name at every level.
    pub fn is_sorted(&self) -> (b: bool)
        ensures
            b == sorted(self@),
        decreases self,
    {
        let n = self.entries.len();
        let mut i: usize = 0;
        while i < n
            invariant
                n == self.entries.len(),
                i <= n,
                forall|a: int, b: int|
                    0 <= a < b < i ==> compare_names(
                        #[trigger] self@[a].name(),
                        #[trigger] self@[b].name(),
                    ) is Less,
                forall|k: int|
                    0 <= k < i ==> (#[trigger] self@[k] matches Entry::Directory {
                        entries: nested,
                        ..
                    } ==> sorted(nested)),
            decreases n - i,
        {
            if i > 0 {
                let o = self.entries[i - 1].label().compare(self.entries[i].label());
                match o {
                    NameOrder::Less => {},
                    _ => {
                        assert(!names_ascend(self@));
                        return false;
                    },
                }
                proof {
                    assert forall|a: int| 0 <= a < i implies compare_names(
                        #[trigger] self@[a].name(),
                        self@[i as int].name(),
                    ) is Less by {
                        if a < i - 1 {
                            lemma_compare_transitive(
                                self@[a].name(),
                                self@[i - 1].name(),
                                self@[i as int].name(),
                            );
                        }
                    }
                }
            }
            match &self.entries[i] {
                DirectoryContents::Directory(dir) => {
                    if !dir.is_sorted() {
                        assert(self@[i as int] matches Entry::Directory { entries: nested, .. }
                            && !sorted(nested));
                        return false;
                    }
                },
                _ => {},
            }
            i = i + 1;
        }
        true
    }
}

} // verus!
