//! The decisions of a browser of Git history.
//!
//! The browser keeps the history that it looks at. Whoever drives it asks
//! the repository and hands over what came back; the browser decides what
//! that means for its history and for the answer.

use crate::file_system::{
    compare_bytes, compare_names, lemma_compare_equal, lemma_compare_flip,
    lemma_compare_transitive, NameOrder,
};
use vstd::prelude::*;
use vstd::std_specs::convert::FromSpecImpl;
use vstd::string::StringExecFns;

verus! {

/// `radicle_git_ext::Oid`: the id of an object of the repository, carried
/// through as it is.
#[verifier::external_type_specification]
#[verifier::external_body]
pub struct ExOid(radicle_git_ext::Oid);

/// `git2::Time`: the time in a signature, carried through as it is.
#[verifier::external_type_specification]
#[verifier::external_body]
pub struct ExTime(git2::Time);

/// `nonempty::NonEmpty`: a list that holds at least one item. What it holds
/// is known through the functions below only.
#[verifier::external_type_specification]
#[verifier::external_body]
#[verifier::reject_recursive_types(T)]
pub struct ExNonEmpty<T>(nonempty::NonEmpty<T>);

/// The signature of a commit.
#[derive(Debug, Clone, PartialEq, Eq, PartialOrd, Ord)]
pub struct Signature(pub Vec<u8>);

/// Determines whether to look for local or remote references or both.
#[derive(Debug, Clone, PartialEq, Eq)]
pub enum RefScope {
    /// List all branches by default.
    All,
    /// List only local branches.
    Local,
    /// List only remote branches.
    Remote {
        /// Name of the remote. If `None`, then get the reference from all
        /// remotes.
        name: Option<String>,
    },
}

impl From<Vec<u8>> for Signature {
    fn from(bytes: Vec<u8>) -> (r: Self) {
        Signature(bytes)
    }
}

impl FromSpecImpl<Vec<u8>> for Signature {
    open spec fn obeys_from_spec() -> bool {
        true
    }

    open spec fn from_spec(bytes: Vec<u8>) -> Self {
        Signature(bytes)
    }
}

/// Turns the name of a peer, where there is one, into a scope: the branches
/// of that peer, which are found under the remote `<peer>/heads`, so that
/// the peer's tags are left out. Without a peer the scope is the local
/// branches.
impl From<Option<String>> for RefScope {
    fn from(peer_id: Option<String>) -> (r: Self)
        ensures
            match peer_id {
                None => r is Local,
                Some(peer) => r matches RefScope::Remote { name: Some(name) } && name@ == peer@
                    + "/heads"@,
            },
    {
        match peer_id {
            None => RefScope::Local,
            Some(peer) => RefScope::Remote { name: Some(peer.concat("/heads")) },
        }
    }
}

impl FromSpecImpl<Option<String>> for RefScope {
    open spec fn obeys_from_spec() -> bool {
        false
    }

    open spec fn from_spec(peer_id: Option<String>) -> Self {
        arbitrary()
    }
}

/// The name of a branch.
#[derive(Debug, Clone, PartialEq, Eq, PartialOrd, Ord)]
pub struct BranchName(pub String);

impl View for BranchName {
    type V = Seq<char>;

    open spec fn view(&self) -> Seq<char> {
        self.0@
    }
}

/// Whether a branch is local or belongs to a remote.
#[derive(Debug, Clone, PartialEq, Eq, PartialOrd, Ord)]
pub enum BranchType {
    Local,
    Remote { name: Option<String> },
}

/// A branch of the repository.
#[derive(Debug, Clone, PartialEq, Eq, PartialOrd, Ord)]
pub struct Branch {
    pub name: BranchName,
    pub locality: BranchType,
}

/// The name of a tag.
#[derive(Debug, Clone, PartialEq, Eq, PartialOrd, Ord)]
pub struct TagName(pub String);

impl View for TagName {
    type V = Seq<char>;

    open spec fn view(&self) -> Seq<char> {
        self.0@
    }
}

/// Who wrote or committed a commit, or made a tag.
#[derive(Debug, PartialEq, Eq)]
pub struct Author {
    pub name: String,
    pub email: String,
    pub time: git2::Time,
}

/// A tag of the repository.
#[derive(Debug, PartialEq, Eq)]
pub enum Tag {
    /// A light tag: a name for a commit.
    Light { id: radicle_git_ext::Oid, name: TagName, remote: Option<String> },
    /// An annotated tag: an object of its own that points at a commit.
    Annotated {
        id: radicle_git_ext::Oid,
        target_id: radicle_git_ext::Oid,
        name: TagName,
        tagger: Option<Author>,
        message: Option<String>,
        remote: Option<String>,
    },
}

/// A commit of the repository.
#[derive(Debug, PartialEq, Eq)]
pub struct Commit {
    pub id: radicle_git_ext::Oid,
    pub author: Author,
    pub committer: Author,
    pub message: String,
    pub summary: String,
    pub parents: Vec<radicle_git_ext::Oid>,
}

/// The commits that lead to a revision, the revision's own commit first.
#[derive(Debug, PartialEq, Eq)]
pub struct History(pub nonempty::NonEmpty<Commit>);

/// Statistics of a repository as a browser sees it.
#[derive(Clone, Copy, Debug, PartialEq, Eq, Structural)]
pub struct Stats {
    /// The number of local branches.
    pub branches: usize,
    /// The number of commits in the history.
    pub commits: usize,
    /// The number of those who wrote a commit of the history.
    pub contributors: usize,
}

/// What can go wrong for a browser.
#[derive(Debug)]
#[non_exhaustive]
pub enum BrowseError {
    /// The reference that was asked for as a branch is none.
    NotBranch(BranchName),
    /// The reference that was asked for as a tag is none.
    NotTag(TagName),
    /// The revision could not be found.
    RevParseFailure { rev: String },
    /// The difference between two commits could not be built.
    Diff(crate::diff::git::error::Diff),
    /// The repository failed.
    Git(git2::Error),
}

/// The commits that a non-empty list holds, first to last.
pub uninterp spec fn commit_list(commits: &nonempty::NonEmpty<Commit>) -> Seq<Commit>;

/// Calls `nonempty::NonEmpty::first`: the first of the commits.
#[verifier::external_body]
fn commits_first(commits: &nonempty::NonEmpty<Commit>) -> (r: &Commit)
    ensures
        *r == commit_list(commits)[0],
{
    commits.first()
}

/// Calls `nonempty::NonEmpty::len`: the number of the commits, which is one
/// more than the number of those that follow the first.
#[verifier::external_body]
fn commits_len(commits: &nonempty::NonEmpty<Commit>) -> (n: usize)
    ensures
        n == commit_list(commits).len(),
        n >= 1,
{
    commits.len()
}

/// Calls `nonempty::NonEmpty::get`: the commit at `index`, counted from 0,
/// or `None` where the list is not that long.
#[verifier::external_body]
fn commits_get(commits: &nonempty::NonEmpty<Commit>, index: usize) -> (r: Option<&Commit>)
    ensures
        match r {
            Some(commit) => index < commit_list(commits).len() && *commit == commit_list(
                commits,
            )[index as int],
            None => index >= commit_list(commits).len(),
        },
{
    commits.get(index)
}

impl History {
    /// The commits of the history, the newest first.
    pub open spec fn commits(&self) -> Seq<Commit> {
        commit_list(&self.0)
    }

    /// The commit that the history starts at.
    pub fn first(&self) -> (first: &Commit)
        ensures
            *first == self.commits()[0],
    {
        commits_first(&self.0)
    }

    /// The number of commits.
    pub fn len(&self) -> (n: usize)
        ensures
            n == self.commits().len(),
            n > 0,
    {
        commits_len(&self.0)
    }

    /// The commit at `index`, the newest being at 0.
    pub fn get(&self, index: usize) -> (r: Option<&Commit>)
        ensures
            index < self.commits().len() ==> r == Some(&self.commits()[index as int]),
            index >= self.commits().len() ==> r is None,
    {
        commits_get(&self.0, index)
    }
}

impl Tag {
    /// The name of the tag.
    pub fn name(&self) -> (name: TagName)
        ensures
            name@ == self.spec_name(),
    {
        match self {
            Tag::Light { name, .. } => TagName(name.0.clone()),
            Tag::Annotated { name, .. } => TagName(name.0.clone()),
        }
    }

    /// The name of the tag.
    pub open spec fn spec_name(&self) -> Seq<char> {
        match self {
            Tag::Light { name, .. } => name@,
            Tag::Annotated { name, .. } => name@,
        }
    }
}

/// What the repository found for a reference that it was asked to resolve.
#[derive(Debug)]
pub struct Reference {
    /// The reference is a local branch.
    pub is_branch: bool,
    /// The reference is a branch of a remote.
    pub is_remote: bool,
    /// The reference is a tag.
    pub is_tag: bool,
    /// The history that the reference leads to, or why the repository could
    /// not walk it.
    pub history: Result<History, BrowseError>,
}

/// The order of two strings: that of their UTF-8 encodings, byte by byte.
pub open spec fn compare_strings(a: Seq<char>, b: Seq<char>) -> NameOrder {
    compare_names(vstd::utf8::encode_utf8(a), vstd::utf8::encode_utf8(b))
}

/// No string of the list is followed by one that comes before it.
pub open spec fn ascending(names: Seq<Seq<char>>) -> bool {
    forall|i: int, j: int|
        0 <= i < j < names.len() ==> !(compare_strings(#[trigger] names[j], #[trigger] names[i])
            is Less)
}

/// The strings that a list of `String`s stands for.
pub open spec fn strings_view(names: Seq<String>) -> Seq<Seq<char>> {
    names.map_values(|s: String| s@)
}

/// The names of a list of branches.
pub open spec fn branch_names_of(branches: Seq<Branch>) -> Seq<Seq<char>> {
    branches.map_values(|b: Branch| b.name@)
}

/// The names of a list of tags.
pub open spec fn tag_names_of(tags: Seq<Tag>) -> Seq<Seq<char>> {
    tags.map_values(|t: Tag| t.spec_name())
}

/// A list with one more string in it holds what it held, and that string
/// once more.
proof fn lemma_insert_to_multiset(s: Seq<Seq<char>>, at: int, x: Seq<char>)
    requires
        0 <= at <= s.len(),
    ensures
        s.insert(at, x).to_multiset() == s.to_multiset().insert(x),
{
    broadcast use vstd::seq_lib::group_to_multiset_ensures;

    let t = s.insert(at, x);
    assert(t.remove(at) =~= s);
    assert(t[at] == x);
    assert(t.contains(x));
    assert(t.remove(at).to_multiset() =~= t.to_multiset().remove(x));
    assert(t.to_multiset().count(x) > 0);
    assert(t.to_multiset() =~= s.to_multiset().insert(x));
}

/// Sorts strings by their bytes, keeping every one of them.
pub fn sort_strings(names: Vec<String>) -> (sorted: Vec<String>)
    ensures
        ascending(strings_view(sorted@)),
        strings_view(sorted@).to_multiset() == strings_view(names@).to_multiset(),
{
    broadcast use vstd::seq_lib::group_to_multiset_ensures;

    let ghost all = strings_view(names@);
    let mut sorted: Vec<String> = Vec::new();
    assert(all.take(0) =~= Seq::empty());
    assert(strings_view(sorted@) =~= Seq::empty());
    for name in it: names
        invariant
            all == strings_view(it.seq()),
            ascending(strings_view(sorted@)),
            strings_view(sorted@).to_multiset() == all.take(it.index() as int).to_multiset(),
    {
        let ghost k = it.index() as int;
        let ghost before = strings_view(sorted@);
        let n = sorted.len();
        let mut at: usize = 0;
        while at < n
            invariant_except_break
                at <= n,
            invariant
                n == sorted.len(),
                before == strings_view(sorted@),
                at <= n,
                forall|i: int| 0 <= i < at ==> !(compare_strings(name@, #[trigger] before[i]) is Less),
            ensures
                at <= n,
                at < n ==> compare_strings(name@, before[at as int]) is Less,
            decreases n - at,
        {
            assert(before[at as int] == sorted[at as int]@);
            let o = compare_bytes(name.as_str().as_bytes(), sorted[at].as_str().as_bytes());
            match o {
                NameOrder::Less => {
                    break ;
                },
                _ => {},
            }
            at = at + 1;
        }
        let ghost x = name@;
        sorted.insert(at, name);
        proof {
            let after = strings_view(sorted@);
            assert(after =~= before.insert(at as int, x));
            lemma_insert_to_multiset(before, at as int, x);
            assert(all[k] == x);
            assert(all.take(k + 1) =~= all.take(k).push(x));
            vstd::seq_lib::to_multiset_build(all.take(k), x);
            assert(after.to_multiset() =~= all.take(k + 1).to_multiset());
            assert forall|i: int, j: int| 0 <= i < j < after.len() implies !(compare_strings(
                #[trigger] after[j],
                #[trigger] after[i],
            ) is Less) by {
                let b = vstd::utf8::encode_utf8(after[j]);
                let y = vstd::utf8::encode_utf8(x);
                if j == at {
                    // after[j] is the new string, after[i] one that it does not come before
                    assert(after[i] == before[i]);
                } else if i == at {
                    // after[i] is the new string; it comes before what stood at its place
                    assert(after[j] == before[j - 1]);
                    let p = vstd::utf8::encode_utf8(before[at as int]);
                    lemma_compare_flip(y, p);
                    lemma_compare_flip(b, y);
                    lemma_compare_flip(b, p);
                    lemma_compare_equal(b, p);
                    if j - 1 > at {
                        assert(!(compare_strings(before[j - 1], before[at as int]) is Less));
                    }
                    if compare_names(b, y) is Less {
                        if compare_names(p, b) is Less {
                            lemma_compare_transitive(y, p, b);
                        }
                    }
                } else {
                    let bi = if i < at { i } else { i - 1 };
                    let bj = if j < at { j } else { j - 1 };
                    assert(after[i] == before[bi] && after[j] == before[bj]);
                }
            }
        }
    }
    assert(all.take(names.len() as int) =~= all);
    sorted
}

/// Who wrote a commit: name and e-mail address.
pub open spec fn contributor(commit: Commit) -> (Seq<char>, Seq<char>) {
    (commit.author.name@, commit.author.email@)
}

/// Those who wrote one of the commits, each once.
pub open spec fn contributors(commits: Seq<Commit>) -> Set<(Seq<char>, Seq<char>)> {
    commits.map_values(|c: Commit| contributor(c)).to_set()
}

/// With one more commit, those who wrote the commits are those who wrote
/// them before and the one who wrote that commit, who is among them already
/// exactly if an earlier commit is by the same name and address.
proof fn lemma_contributors_step(commits: Seq<Commit>, k: int)
    requires
        0 <= k < commits.len(),
    ensures
        contributors(commits.take(k + 1)) == contributors(commits.take(k)).insert(
            contributor(commits[k]),
        ),
        contributors(commits.take(k)).finite(),
        contributors(commits.take(k)).contains(contributor(commits[k])) <==> exists|j: int|
            0 <= j < k && contributor(#[trigger] commits[j]) == contributor(commits[k]),
{
    let before = commits.take(k).map_values(|c: Commit| contributor(c));
    let after = commits.take(k + 1).map_values(|c: Commit| contributor(c));
    let x = contributor(commits[k]);
    assert(after =~= before.push(x));
    assert forall|a: (Seq<char>, Seq<char>)| after.contains(a) <==> before.contains(a) || a
        == x by {
        if before.contains(a) {
            let i = choose|i: int| 0 <= i < before.len() && before[i] == a;
            assert(after[i] == a);
        }
        if a == x {
            assert(after[k] == a);
        }
    }
    assert(after.to_set() =~= before.to_set().insert(x));
    vstd::seq_lib::seq_to_set_is_finite(before);
    if before.contains(x) {
        let j = choose|j: int| 0 <= j < before.len() && before[j] == x;
        assert(contributor(commits[j]) == x);
    }
    if exists|j: int| 0 <= j < k && contributor(#[trigger] commits[j]) == x {
        let j = choose|j: int| 0 <= j < k && contributor(#[trigger] commits[j]) == x;
        assert(before[j] == x);
    }
}

/// A browser of the history of a repository: the history that it looks at.
#[derive(Debug)]
pub struct Browser {
    pub history: History,
}

impl Browser {
    /// A browser that looks at the history which the repository found for
    /// the revision to start from. Where the repository failed, there is no
    /// browser.
    pub fn new(history: Result<History, BrowseError>) -> (r: Result<Browser, BrowseError>)
        ensures
            match history {
                Ok(h) => r matches Ok(b) && b.history == h,
                Err(e) => r matches Err(x) && x == e,
            },
    {
        match history {
            Ok(history) => Ok(Browser { history }),
            Err(e) => Err(e),
        }
    }

    /// The history that the browser looks at.
    pub fn get(&self) -> (h: &History)
        ensures
            *h == self.history,
    {
        &self.history
    }

    /// Makes the browser look at `history`.
    pub fn set(&mut self, history: History)
        ensures
            final(self).history == history,
    {
        self.history = history;
    }

    /// Takes up the history that the repository found, or passes its
    /// failure on and keeps to the history that the browser looks at.
    fn follow(&mut self, history: Result<History, BrowseError>) -> (r: Result<(), BrowseError>)
        ensures
            match history {
                Ok(h) => r is Ok && final(self).history == h,
                Err(e) => r matches Err(x) && x == e && *final(self) == *old(self),
            },
    {
        match history {
            Ok(history) => {
                self.set(history);
                Ok(())
            },
            Err(e) => Err(e),
        }
    }

    /// Makes the browser look at the history of `HEAD`, which the
    /// repository was asked for. Where the repository failed, the browser
    /// keeps to its history and passes the failure on.
    pub fn head(&mut self, head: Result<History, BrowseError>) -> (r: Result<(), BrowseError>)
        ensures
            match head {
                Ok(h) => r is Ok && final(self).history == h,
                Err(e) => r matches Err(x) && x == e && *final(self) == *old(self),
            },
    {
        self.follow(head)
    }

    /// Makes the browser look at the history of a revision, which the
    /// repository was asked for. Where the repository failed, the browser
    /// keeps to its history and passes the failure on.
    pub fn rev(&mut self, history: Result<History, BrowseError>) -> (r: Result<(), BrowseError>)
        ensures
            match history {
                Ok(h) => r is Ok && final(self).history == h,
                Err(e) => r matches Err(x) && x == e && *final(self) == *old(self),
            },
    {
        self.follow(history)
    }

    /// Makes the browser look at the history of a commit, which the
    /// repository was asked for. Where the repository failed, the browser
    /// keeps to its history and passes the failure on.
    pub fn commit(&mut self, history: Result<History, BrowseError>) -> (r: Result<(), BrowseError>)
        ensures
            match history {
                Ok(h) => r is Ok && final(self).history == h,
                Err(e) => r matches Err(x) && x == e && *final(self) == *old(self),
            },
    {
        self.follow(history)
    }

    /// Makes the browser look at the history of `branch`, given what the
    /// repository found for the reference of that name.
    ///
    /// A reference that is neither a local branch nor a branch of a remote
    /// is refused, whatever its history. On every failure the browser keeps
    /// to its history.
    pub fn branch(&mut self, branch: Branch, reference: Result<Reference, BrowseError>) -> (r:
        Result<(), BrowseError>)
        ensures
            match reference {
                Err(e) => r matches Err(x) && x == e && *final(self) == *old(self),
                Ok(found) => if !(found.is_branch || found.is_remote) {
                    &&& r matches Err(BrowseError::NotBranch(name))
                    &&& name == branch.name
                    &&& *final(self) == *old(self)
                } else {
                    match found.history {
                        Ok(h) => r is Ok && final(self).history == h,
                        Err(e) => r matches Err(x) && x == e && *final(self) == *old(self),
                    }
                },
            },
    {
        let found = match reference {
            Ok(found) => found,
            Err(e) => {
                return Err(e);
            },
        };
        let is_branch = found.is_branch || found.is_remote;
        if !is_branch {
            return Err(BrowseError::NotBranch(branch.name));
        }
        self.follow(found.history)
    }

    /// Makes the browser look at the history of the tag `tag_name`, given
    /// what the repository found for the reference of that name.
    ///
    /// A reference that is no tag is refused, whatever its history. On
    /// every failure the browser keeps to its history.
    pub fn tag(&mut self, tag_name: TagName, reference: Result<Reference, BrowseError>) -> (r:
        Result<(), BrowseError>)
        ensures
            match reference {
                Err(e) => r matches Err(x) && x == e && *final(self) == *old(self),
                Ok(found) => if !found.is_tag {
                    &&& r matches Err(BrowseError::NotTag(name))
                    &&& name == tag_name
                    &&& *final(self) == *old(self)
                } else {
                    match found.history {
                        Ok(h) => r is Ok && final(self).history == h,
                        Err(e) => r matches Err(x) && x == e && *final(self) == *old(self),
                    }
                },
            },
    {
        let found = match reference {
            Ok(found) => found,
            Err(e) => {
                return Err(e);
            },
        };
        if !found.is_tag {
            return Err(BrowseError::NotTag(tag_name));
        }
        self.follow(found.history)
    }

    /// The names of the branches that the repository listed, sorted: every
    /// name as often as it was listed.
    pub fn branch_names(&self, branches: Result<Vec<Branch>, BrowseError>) -> (r: Result<
        Vec<BranchName>,
        BrowseError,
    >)
        ensures
            match branches {
                Ok(listed) => r matches Ok(names) && {
                    let shown = names@.map_values(|n: BranchName| n@);
                    &&& ascending(shown)
                    &&& shown.to_multiset() == branch_names_of(listed@).to_multiset()
                },
                Err(e) => r matches Err(x) && x == e,
            },
    {
        let listed = match branches {
            Ok(listed) => listed,
            Err(e) => {
                return Err(e);
            },
        };
        let ghost all = branch_names_of(listed@);
        let mut names: Vec<String> = Vec::new();
        assert(strings_view(names@) =~= all.take(0));
        for branch in it: listed
            invariant
                all == branch_names_of(it.seq()),
                strings_view(names@) == all.take(it.index() as int),
        {
            let ghost shown = strings_view(names@);
            names.push(branch.name.0);
            assert(strings_view(names@) =~= shown.push(branch.name@));
            assert(all.take(it.index() + 1) =~= shown.push(branch.name@));
        }
        assert(all.take(listed.len() as int) =~= all);
        let sorted = sort_strings(names);
        let ghost sorted_view = strings_view(sorted@);
        let mut result: Vec<BranchName> = Vec::new();
        assert(result@.map_values(|n: BranchName| n@) =~= sorted_view.take(0));
        for name in it: sorted
            invariant
                sorted_view == strings_view(it.seq()),
                result@.map_values(|n: BranchName| n@) == sorted_view.take(it.index() as int),
        {
            let ghost shown = result@.map_values(|n: BranchName| n@);
            let ghost x = name@;
            result.push(BranchName(name));
            assert(result@.map_values(|n: BranchName| n@) =~= shown.push(x));
            assert(sorted_view.take(it.index() + 1) =~= shown.push(x));
        }
        assert(sorted_view.take(sorted.len() as int) =~= sorted_view);
        Ok(result)
    }

    /// The names of the tags that the repository listed, sorted: every name
    /// as often as it was listed.
    pub fn tag_names(&self, tags: Result<Vec<Tag>, BrowseError>) -> (r: Result<
        Vec<TagName>,
        BrowseError,
    >)
        ensures
            match tags {
                Ok(listed) => r matches Ok(names) && {
                    let shown = names@.map_values(|n: TagName| n@);
                    &&& ascending(shown)
                    &&& shown.to_multiset() == tag_names_of(listed@).to_multiset()
                },
                Err(e) => r matches Err(x) && x == e,
            },
    {
        let listed = match tags {
            Ok(listed) => listed,
            Err(e) => {
                return Err(e);
            },
        };
        let ghost all = tag_names_of(listed@);
        let mut names: Vec<String> = Vec::new();
        assert(strings_view(names@) =~= all.take(0));
        for tag in it: listed
            invariant
                all == tag_names_of(it.seq()),
                strings_view(names@) == all.take(it.index() as int),
        {
            let ghost shown = strings_view(names@);
            let name = tag.name();
            names.push(name.0);
            assert(strings_view(names@) =~= shown.push(tag.spec_name()));
            assert(all.take(it.index() + 1) =~= shown.push(tag.spec_name()));
        }
        assert(all.take(listed.len() as int) =~= all);
        let sorted = sort_strings(names);
        let ghost sorted_view = strings_view(sorted@);
        let mut result: Vec<TagName> = Vec::new();
        assert(result@.map_values(|n: TagName| n@) =~= sorted_view.take(0));
        for name in it: sorted
            invariant
                sorted_view == strings_view(it.seq()),
                result@.map_values(|n: TagName| n@) == sorted_view.take(it.index() as int),
        {
            let ghost shown = result@.map_values(|n: TagName| n@);
            let ghost x = name@;
            result.push(TagName(name));
            assert(result@.map_values(|n: TagName| n@) =~= shown.push(x));
            assert(sorted_view.take(it.index() + 1) =~= shown.push(x));
        }
        assert(sorted_view.take(sorted.len() as int) =~= sorted_view);
        Ok(result)
    }

    /// The commit that last touched a file or directory: the first of the
    /// commits that the repository found when it was asked for the history
    /// of that path, starting at the commit that the browser's history
    /// starts at; `None` where it found none.
    pub fn last_commit(&self, file_history: Result<Vec<Commit>, BrowseError>) -> (r: Result<
        Option<Commit>,
        BrowseError,
    >)
        ensures
            match file_history {
                Ok(commits) => r matches Ok(last) && if commits@.len() > 0 {
                    last == Some(commits@[0])
                } else {
                    last is None
                },
                Err(e) => r matches Err(x) && x == e,
            },
    {
        match file_history {
            Ok(commits) => {
                let mut commits = commits;
                if commits.len() > 0 {
                    Ok(Some(commits.swap_remove(0)))
                } else {
                    Ok(None)
                }
            },
            Err(e) => Err(e),
        }
    }

    /// The statistics of the repository: the number of the local branches
    /// that it listed, the number of commits in the browser's history, and
    /// the number of those who wrote one of these commits, told apart by
    /// name and e-mail address.
    pub fn get_stats(&self, local_branches: Result<Vec<Branch>, BrowseError>) -> (r: Result<
        Stats,
        BrowseError,
    >)
        ensures
            match local_branches {
                Ok(listed) => r matches Ok(stats) && {
                    &&& stats.branches == listed@.len()
                    &&& stats.commits == self.history.commits().len()
                    &&& stats.contributors == contributors(self.history.commits()).len()
                },
                Err(e) => r matches Err(x) && x == e,
            },
    {
        let branches = match local_branches {
            Ok(listed) => listed.len(),
            Err(e) => {
                return Err(e);
            },
        };
        let commits = self.history.len();
        let ghost all = self.history.commits();
        let mut contributors: usize = 0;
        let mut i: usize = 0;
        assert(Seq::<Commit>::empty().map_values(|c: Commit| contributor(c)).to_set() =~= Set::<
            (Seq<char>, Seq<char>),
        >::empty());
        assert(all.take(0) =~= Seq::<Commit>::empty());
        while i < commits
            invariant
                all == self.history.commits(),
                commits == all.len(),
                i <= commits,
                contributors <= i,
                contributors == crate::vcs::git::contributors(all.take(i as int)).len(),
            decreases commits - i,
        {
            let commit = self.history.get(i).unwrap();
            let mut seen = false;
            let mut j: usize = 0;
            while j < i
                invariant
                    all == self.history.commits(),
                    i < all.len(),
                    j <= i,
                    *commit == all[i as int],
                    seen == (exists|k: int|
                        0 <= k < j && contributor(#[trigger] all[k]) == contributor(all[i as int])),
                decreases i - j,
            {
                let earlier = self.history.get(j).unwrap();
                if earlier.author.name == commit.author.name && earlier.author.email
                    == commit.author.email {
                    seen = true;
                    assert(contributor(all[j as int]) == contributor(all[i as int]));
                }
                j = j + 1;
            }
            proof {
                lemma_contributors_step(all, i as int);
            }
            if !seen {
                contributors = contributors + 1;
            }
            i = i + 1;
        }
        assert(all.take(commits as int) =~= all);
        Ok(Stats { branches, commits, contributors })
    }
}

} // verus!
