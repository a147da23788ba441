//! The statistics of a difference: how many files changed, and how many
//! lines were inserted and deleted in all of them.

use crate::diff::{
    ContentChange, Diff, DiffView, FileDiff, FileDiffView, Hunk, HunkView, LineChange, LineDiff,
    ModifiedView, Stats,
};
use vstd::prelude::*;

verus! {

/// The sum of the numbers of a sequence.
pub open spec fn sum(s: Seq<nat>) -> nat
    decreases s.len(),
{
    if s.len() == 0 {
        0
    } else {
        sum(s.drop_last()) + s.last()
    }
}

/// The sum over the first `k + 1` numbers is the sum over the first `k`
/// plus the next.
pub proof fn lemma_sum_step(s: Seq<nat>, k: int)
    requires
        0 <= k < s.len(),
    ensures
        sum(s.take(k + 1)) == sum(s.take(k)) + s[k],
{
    assert(s.take(k + 1).drop_last() =~= s.take(k));
}

/// The sum over a prefix is at most the sum over the whole.
pub proof fn lemma_sum_prefix(s: Seq<nat>, k: int)
    requires
        0 <= k <= s.len(),
    ensures
        sum(s.take(k)) <= sum(s),
    decreases s.len() - k,
{
    if k == s.len() {
        assert(s.take(k) =~= s);
    } else {
        lemma_sum_step(s, k);
        lemma_sum_prefix(s, k + 1);
    }
}

/// A zero put among the numbers leaves their sum as it is.
pub proof fn lemma_sum_insert_zero(s: Seq<nat>, at: int)
    requires
        0 <= at <= s.len(),
    ensures
        sum(s.insert(at, 0nat)) == sum(s),
    decreases s.len(),
{
    let t = s.insert(at, 0nat);
    if at == s.len() {
        assert(t.drop_last() =~= s);
    } else {
        assert(t.drop_last() =~= s.drop_last().insert(at, 0nat));
        assert(t.last() == s.last());
        lemma_sum_insert_zero(s.drop_last(), at);
    }
}

/// What a line adds to the insertions: one if it is an addition.
pub open spec fn line_insertions(line: LineChange) -> nat {
    if line is Addition {
        1
    } else {
        0
    }
}

/// What a line adds to the deletions: one if it is a deletion.
pub open spec fn line_deletions(line: LineChange) -> nat {
    if line is Deletion {
        1
    } else {
        0
    }
}

impl HunkView {
    /// The number of additions among the lines of the hunk.
    pub open spec fn insertions(self) -> nat {
        sum(self.lines.map_values(|l: LineChange| line_insertions(l)))
    }

    /// The number of deletions among the lines of the hunk.
    pub open spec fn deletions(self) -> nat {
        sum(self.lines.map_values(|l: LineChange| line_deletions(l)))
    }
}

impl FileDiffView {
    /// The number of additions in all hunks; none for a binary file.
    pub open spec fn insertions(self) -> nat {
        match self {
            FileDiffView::Binary => 0,
            FileDiffView::Plain { hunks } => sum(hunks.map_values(|h: HunkView| h.insertions())),
        }
    }

    /// The number of deletions in all hunks; none for a binary file.
    pub open spec fn deletions(self) -> nat {
        match self {
            FileDiffView::Binary => 0,
            FileDiffView::Plain { hunks } => sum(hunks.map_values(|h: HunkView| h.deletions())),
        }
    }
}

impl DiffView {
    /// The content diffs of the created, the deleted and the modified files,
    /// in this order. Moved and copied files carry none.
    pub open spec fn file_diffs(self) -> Seq<FileDiffView> {
        self.created.map_values(|c: ContentChange| c.diff) + self.deleted.map_values(
            |c: ContentChange| c.diff,
        ) + self.modified.map_values(|m: ModifiedView| m.diff)
    }

    /// The number of created, deleted and modified files.
    pub open spec fn files_changed(self) -> nat {
        self.created.len() + self.deleted.len() + self.modified.len()
    }

    /// The number of additions in all content diffs.
    pub open spec fn insertions(self) -> nat {
        sum(self.file_diffs().map_values(|d: FileDiffView| d.insertions()))
    }

    /// The number of deletions in all content diffs.
    pub open spec fn deletions(self) -> nat {
        sum(self.file_diffs().map_values(|d: FileDiffView| d.deletions()))
    }

    /// All three numbers fit into `usize`.
    pub open spec fn stats_fit(self) -> bool {
        &&& self.files_changed() <= usize::MAX
        &&& self.insertions() <= usize::MAX
        &&& self.deletions() <= usize::MAX
    }

    /// The statistics of the difference, where they fit.
    pub open spec fn stats(self) -> Stats
        recommends
            self.stats_fit(),
    {
        Stats {
            files_changed: self.files_changed() as usize,
            insertions: self.insertions() as usize,
            deletions: self.deletions() as usize,
        }
    }
}

impl Hunk {
    /// The numbers of additions and of deletions among the lines.
    pub fn line_counts(&self) -> (r: (usize, usize))
        ensures
            r.0 == self@.insertions(),
            r.1 == self@.deletions(),
    {
        let n = self.lines.len();
        let mut insertions: usize = 0;
        let mut deletions: usize = 0;
        let ghost ins = self@.lines.map_values(|l: LineChange| line_insertions(l));
        let ghost del = self@.lines.map_values(|l: LineChange| line_deletions(l));
        let mut i: usize = 0;
        while i < n
            invariant
                n == self.lines.len(),
                i <= n,
                ins == self@.lines.map_values(|l: LineChange| line_insertions(l)),
                del == self@.lines.map_values(|l: LineChange| line_deletions(l)),
                insertions == sum(ins.take(i as int)),
                deletions == sum(del.take(i as int)),
                insertions <= i,
                deletions <= i,
            decreases n - i,
        {
            proof {
                lemma_sum_step(ins, i as int);
                lemma_sum_step(del, i as int);
                assert(self@.lines[i as int] == self.lines[i as int]@);
            }
            match &self.lines[i] {
                LineDiff::Addition { .. } => {
                    insertions = insertions + 1;
                },
                LineDiff::Deletion { .. } => {
                    deletions = deletions + 1;
                },
                LineDiff::Context { .. } => {},
            }
            i = i + 1;
        }
        proof {
            assert(ins.take(n as int) =~= ins);
            assert(del.take(n as int) =~= del);
        }
        (insertions, deletions)
    }
}

impl FileDiff {
    /// The numbers of additions and of deletions in all hunks, where both
    /// fit into `usize`.
    pub fn line_counts(&self) -> (r: Option<(usize, usize)>)
        ensures
            r is Some <==> self@.insertions() <= usize::MAX && self@.deletions() <= usize::MAX,
            r matches Some(c) ==> c.0 == self@.insertions() && c.1 == self@.deletions(),
    {
        match self {
            FileDiff::Binary => Some((0, 0)),
            FileDiff::Plain { hunks } => {
                let n = hunks.0.len();
                let mut insertions: usize = 0;
                let mut deletions: usize = 0;
                let ghost ins = hunks@.map_values(|h: HunkView| h.insertions());
                let ghost del = hunks@.map_values(|h: HunkView| h.deletions());
                let mut i: usize = 0;
                while i < n
                    invariant
                        n == hunks.0.len(),
                        i <= n,
                        self@ == (FileDiffView::Plain { hunks: hunks@ }),
                        ins == hunks@.map_values(|h: HunkView| h.insertions()),
                        del == hunks@.map_values(|h: HunkView| h.deletions()),
                        insertions == sum(ins.take(i as int)),
                        deletions == sum(del.take(i as int)),
                    decreases n - i,
                {
                    proof {
                        lemma_sum_step(ins, i as int);
                        lemma_sum_step(del, i as int);
                        lemma_sum_prefix(ins, i + 1);
                        lemma_sum_prefix(del, i + 1);
                        assert(hunks@[i as int] == hunks.0[i as int]@);
                    }
                    let (a, d) = hunks.0[i].line_counts();
                    match (insertions.checked_add(a), deletions.checked_add(d)) {
                        (Some(x), Some(y)) => {
                            insertions = x;
                            deletions = y;
                        },
                        _ => {
                            return None;
                        },
                    }
                    i = i + 1;
                }
                proof {
                    assert(ins.take(n as int) =~= ins);
                    assert(del.take(n as int) =~= del);
                }
                Some((insertions, deletions))
            },
        }
    }
}

impl Diff {
    /// The content diffs of the created, the deleted and the modified files,
    /// in this order.
    fn file_diffs(&self) -> (r: Vec<&FileDiff>)
        ensures
            r@.map_values(|d: &FileDiff| d@) == self@.file_diffs(),
    {
        let mut r: Vec<&FileDiff> = Vec::new();
        let ghost created = self@.created.map_values(|c: ContentChange| c.diff);
        let ghost deleted = self@.deleted.map_values(|c: ContentChange| c.diff);
        let ghost modified = self@.modified.map_values(|m: ModifiedView| m.diff);
        let mut i: usize = 0;
        while i < self.created.len()
            invariant
                i <= self.created.len(),
                created == self@.created.map_values(|c: ContentChange| c.diff),
                r@.map_values(|d: &FileDiff| d@) =~= created.take(i as int),
            decreases self.created.len() - i,
        {
            let ghost before = r@.map_values(|d: &FileDiff| d@);
            r.push(&self.created[i].diff);
            proof {
                assert(created[i as int] == self.created[i as int]@.diff);
                assert(r@.map_values(|d: &FileDiff| d@) =~= before.push(created[i as int]));
            }
            i = i + 1;
        }
        assert(created.take(i as int) =~= created);
        let mut j: usize = 0;
        while j < self.deleted.len()
            invariant
                j <= self.deleted.len(),
                deleted == self@.deleted.map_values(|c: ContentChange| c.diff),
                r@.map_values(|d: &FileDiff| d@) =~= created + deleted.take(j as int),
            decreases self.deleted.len() - j,
        {
            let ghost before = r@.map_values(|d: &FileDiff| d@);
            r.push(&self.deleted[j].diff);
            proof {
                assert(deleted[j as int] == self.deleted[j as int]@.diff);
                assert(r@.map_values(|d: &FileDiff| d@) =~= before.push(deleted[j as int]));
            }
            j = j + 1;
        }
        assert(deleted.take(j as int) =~= deleted);
        let mut k: usize = 0;
        while k < self.modified.len()
            invariant
                k <= self.modified.len(),
                modified == self@.modified.map_values(|m: ModifiedView| m.diff),
                r@.map_values(|d: &FileDiff| d@) =~= created + deleted + modified.take(k as int),
            decreases self.modified.len() - k,
        {
            let ghost before = r@.map_values(|d: &FileDiff| d@);
            r.push(&self.modified[k].diff);
            proof {
                assert(modified[k as int] == self.modified[k as int]@.diff);
                assert(r@.map_values(|d: &FileDiff| d@) =~= before.push(modified[k as int]));
            }
            k = k + 1;
        }
        assert(modified.take(k as int) =~= modified);
        r
    }

    /// The statistics of the difference, or `None` where one of the three
    /// numbers does not fit into `usize`.
    pub fn checked_stats(&self) -> (r: Option<Stats>)
        ensures
            r is Some <==> self@.stats_fit(),
            r matches Some(s) ==> s == self@.stats(),
    {
        let diffs = self.file_diffs();
        let n = diffs.len();
        let ghost views = self@.file_diffs();
        let ghost ins = views.map_values(|d: FileDiffView| d.insertions());
        let ghost del = views.map_values(|d: FileDiffView| d.deletions());
        let mut insertions: usize = 0;
        let mut deletions: usize = 0;
        let mut i: usize = 0;
        while i < n
            invariant
                n == diffs.len(),
                i <= n,
                views == self@.file_diffs(),
                diffs@.map_values(|d: &FileDiff| d@) == views,
                ins == views.map_values(|d: FileDiffView| d.insertions()),
                del == views.map_values(|d: FileDiffView| d.deletions()),
                insertions == sum(ins.take(i as int)),
                deletions == sum(del.take(i as int)),
            decreases n - i,
        {
            proof {
                lemma_sum_step(ins, i as int);
                lemma_sum_step(del, i as int);
                lemma_sum_prefix(ins, i + 1);
                lemma_sum_prefix(del, i + 1);
                assert(views[i as int] == diffs[i as int]@);
            }
            let counts = match diffs[i].line_counts() {
                Some(c) => c,
                None => {
                    return None;
                },
            };
            match (insertions.checked_add(counts.0), deletions.checked_add(counts.1)) {
                (Some(x), Some(y)) => {
                    insertions = x;
                    deletions = y;
                },
                _ => {
                    return None;
                },
            }
            i = i + 1;
        }
        proof {
            assert(ins.take(n as int) =~= ins);
            assert(del.take(n as int) =~= del);
        }
        let files_changed = match self.modified.len().checked_add(self.created.len()) {
            Some(m) => match m.checked_add(self.deleted.len()) {
                Some(f) => f,
                None => {
                    return None;
                },
            },
            None => {
                return None;
            },
        };
        Some(Stats { files_changed, insertions, deletions })
    }

    /// The statistics of the difference: the number of created, deleted and
    /// modified files, and the numbers of added and of deleted lines in the
    /// textual content diffs of all of them. Context lines count for
    /// neither, and binary content diffs hold no lines.
    pub fn stats(&self) -> (s: Stats)
        requires
            self@.stats_fit(),
        ensures
            s == self@.stats(),
            s.files_changed == self@.created.len() + self@.deleted.len() + self@.modified.len(),
            s.insertions == self@.insertions(),
            s.deletions == self@.deletions(),
    {
        self.checked_stats().unwrap()
    }
}

} // verus!
