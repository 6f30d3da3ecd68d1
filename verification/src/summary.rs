//! What a scan adds up to: the totals of the calls, the tier of each project
//! and the rows of the files, and the laws of adding one file's counts to them.

use vstd::prelude::*;
use vstd::multiset::Multiset;
use vstd::seq_lib::{commutative_foldl, lemma_fold_left_permutation};
use crate::status::Status;

verus! {

/// The organization and the repository that name a project.
pub type ProjectKey = (Seq<char>, Seq<char>);

/// What the scan of one file gave: the project of the file, its path below
/// the root, and how many of its calls are safe, partially safe and unsafe.
pub ghost struct FileCounts {
    pub org: Seq<char>,
    pub repo: Seq<char>,
    pub file: Seq<char>,
    pub safe: nat,
    pub partial: nat,
    pub unsafe_: nat,
}

impl FileCounts {
    /// The project of the file.
    pub open spec fn key(self) -> ProjectKey {
        (self.org, self.repo)
    }

    /// Whether the file holds no risky call at all.
    pub open spec fn is_empty(self) -> bool {
        self.safe == 0 && self.partial == 0 && self.unsafe_ == 0
    }

    /// The worst tier among the calls of the file; safe for a file without
    /// calls, which adds nothing to a summary anyway.
    pub open spec fn status(self) -> Status {
        match Status::spec_of_counts(self.safe, self.partial, self.unsafe_) {
            Some(status) => status,
            None => Status::Safe,
        }
    }
}

/// The state of a scan after some files.
pub ghost struct Summary {
    /// The safe calls of all files so far.
    pub safe: nat,
    /// The partially safe calls of all files so far.
    pub partial: nat,
    /// The unsafe calls of all files so far.
    pub unsafe_: nat,
    /// The tier of each project in which a call was found so far.
    pub statuses: Map<ProjectKey, Status>,
    /// The files in which a call was found so far, in no order; empty where
    /// rows are not kept.
    pub rows: Multiset<FileCounts>,
}

impl Summary {
    /// The state of a scan before the first file.
    pub open spec fn empty() -> Summary {
        Summary { safe: 0, partial: 0, unsafe_: 0, statuses: Map::empty(), rows: Multiset::empty() }
    }

    /// The state after one more file. A file without calls changes nothing.
    /// Any other file adds its counts to the totals and joins its worst tier
    /// into the tier of its project; its row is kept if `keep_rows` says so.
    pub open spec fn record(self, file: FileCounts, keep_rows: bool) -> Summary {
        if file.is_empty() {
            self
        } else {
            Summary {
                safe: self.safe + file.safe,
                partial: self.partial + file.partial,
                unsafe_: self.unsafe_ + file.unsafe_,
                statuses: self.statuses.insert(
                    file.key(),
                    joined_status(self.statuses, file.key(), file.status()),
                ),
                rows: if keep_rows {
                    self.rows.insert(file)
                } else {
                    self.rows
                },
            }
        }
    }

    /// The state after the files `files`, taken one after the other.
    pub open spec fn of_files(files: Seq<FileCounts>, keep_rows: bool) -> Summary {
        files.fold_left(Summary::empty(), |s: Summary, file: FileCounts| s.record(file, keep_rows))
    }

    /// The summary without its rows.
    pub open spec fn without_rows(self) -> Summary {
        Summary { rows: Multiset::empty(), ..self }
    }

    /// Two summaries in one: the totals add up, a project of both has the
    /// more severe of its two tiers, a project of one keeps its tier, and the
    /// rows come together.
    pub open spec fn merge(self, other: Summary) -> Summary {
        Summary {
            safe: self.safe + other.safe,
            partial: self.partial + other.partial,
            unsafe_: self.unsafe_ + other.unsafe_,
            statuses: merge_statuses(self.statuses, other.statuses),
            rows: self.rows.add(other.rows),
        }
    }

    /// The projects of the tier `status`.
    pub open spec fn projects_with(self, status: Status) -> Set<ProjectKey> {
        Set::new(|key: ProjectKey| self.statuses.dom().contains(key) && self.statuses[key] == status)
    }

    /// How many projects are of the tier `status`.
    pub open spec fn project_count(self, status: Status) -> nat {
        self.projects_with(status).len()
    }
}

/// The tier of the project `key` in the map `statuses` once the tier `status`
/// is joined into it: `status` for a new project, else the more severe of
/// the project's tier and `status`.
pub open spec fn joined_status(
    statuses: Map<ProjectKey, Status>,
    key: ProjectKey,
    status: Status,
) -> Status {
    if statuses.dom().contains(key) {
        statuses[key].spec_join(status)
    } else {
        status
    }
}

/// The tiers of the projects of two summaries in one map: a project of both
/// has the more severe of its two tiers, a project of one keeps its tier.
pub open spec fn merge_statuses(a: Map<ProjectKey, Status>, b: Map<ProjectKey, Status>) -> Map<
    ProjectKey,
    Status,
> {
    Map::new(
        |key: ProjectKey| a.dom().contains(key) || b.dom().contains(key),
        |key: ProjectKey|
            if a.dom().contains(key) && b.dom().contains(key) {
                a[key].spec_join(b[key])
            } else if a.dom().contains(key) {
                a[key]
            } else {
                b[key]
            },
    )
}

/// Two files can be added in either order.
pub proof fn lemma_record_commutes(s: Summary, a: FileCounts, b: FileCounts, keep_rows: bool)
    ensures
        s.record(a, keep_rows).record(b, keep_rows) == s.record(b, keep_rows).record(a, keep_rows),
{
    let ab = s.record(a, keep_rows).record(b, keep_rows);
    let ba = s.record(b, keep_rows).record(a, keep_rows);
    assert(ab.statuses =~= ba.statuses);
    assert(ab.rows =~= ba.rows);
}

/// A file added to a summary takes no project out of it and makes no project
/// less severe than it was; its own project is then at least as severe as the
/// file.
pub proof fn lemma_record_monotone(s: Summary, file: FileCounts, keep_rows: bool)
    ensures
        forall|key: ProjectKey| #[trigger]
            s.statuses.dom().contains(key) ==> {
                &&& s.record(file, keep_rows).statuses.dom().contains(key)
                &&& s.record(file, keep_rows).statuses[key].severity() >= s.statuses[key].severity()
            },
        !file.is_empty() ==> {
            &&& s.record(file, keep_rows).statuses.dom().contains(file.key())
            &&& s.record(file, keep_rows).statuses[file.key()].severity()
                >= file.status().severity()
        },
        forall|key: ProjectKey| #[trigger]
            s.record(file, keep_rows).statuses.dom().contains(key) ==> s.statuses.dom().contains(
                key,
            ) || (!file.is_empty() && key == file.key()),
{
}

/// A file without calls leaves a summary as it was.
pub proof fn lemma_record_empty(s: Summary, file: FileCounts, keep_rows: bool)
    requires
        file.is_empty(),
    ensures
        s.record(file, keep_rows) == s,
{
}

/// The summary of some files and one more is the summary of the files with
/// the one more added to it.
pub proof fn lemma_of_files_push(files: Seq<FileCounts>, file: FileCounts, keep_rows: bool)
    ensures
        Summary::of_files(files.push(file), keep_rows) == Summary::of_files(
            files,
            keep_rows,
        ).record(file, keep_rows),
{
    assert(files.push(file).drop_last() =~= files);
}

/// The summary of the same files in any order is the same: the totals, the
/// tier of each project and the rows that were kept.
pub proof fn lemma_order_independent(a: Seq<FileCounts>, b: Seq<FileCounts>, keep_rows: bool)
    requires
        a.to_multiset() == b.to_multiset(),
    ensures
        Summary::of_files(a, keep_rows) == Summary::of_files(b, keep_rows),
{
    let step = |s: Summary, file: FileCounts| s.record(file, keep_rows);
    assert(commutative_foldl(step)) by {
        assert forall|x: FileCounts, y: FileCounts, v: Summary| #[trigger]
            step(step(v, x), y) == step(step(v, y), x) by {
            lemma_record_commutes(v, x, y, keep_rows);
        }
    }
    lemma_fold_left_permutation(a, b, step, Summary::empty());
}

/// Whether the file at index `i` of `files` holds calls and belongs to the
/// project `key`.
pub open spec fn counts_for(files: Seq<FileCounts>, i: int, key: ProjectKey) -> bool {
    0 <= i < files.len() && !files[i].is_empty() && files[i].key() == key
}

/// The tier of a project is the worst tier among its files: a project is in
/// the summary if and only if one of its files holds calls; its tier is then
/// the tier of one of these files, and no such file is more severe.
pub proof fn lemma_status_is_worst(files: Seq<FileCounts>, keep_rows: bool, key: ProjectKey)
    ensures
        Summary::of_files(files, keep_rows).statuses.dom().contains(key) <==> exists|i: int|
            counts_for(files, i, key),
        Summary::of_files(files, keep_rows).statuses.dom().contains(key) ==> exists|i: int|
            counts_for(files, i, key) && files[i].status() == Summary::of_files(
                files,
                keep_rows,
            ).statuses[key],
        forall|i: int| #[trigger]
            counts_for(files, i, key) ==> files[i].status().severity() <= Summary::of_files(
                files,
                keep_rows,
            ).statuses[key].severity(),
    decreases files.len(),
{
    let after = Summary::of_files(files, keep_rows);
    if files.len() > 0 {
        let front = files.drop_last();
        let last = files.last();
        let before = Summary::of_files(front, keep_rows);
        lemma_status_is_worst(front, keep_rows, key);
        assert(files =~= front.push(last));
        lemma_of_files_push(front, last, keep_rows);
        assert(after == before.record(last, keep_rows));
        assert forall|i: int| counts_for(front, i, key) implies counts_for(files, i, key) by {}
        if before.statuses.dom().contains(key) {
            let i = choose|i: int|
                counts_for(front, i, key) && front[i].status() == before.statuses[key];
            assert(counts_for(files, i, key));
        }
        if counts_for(files, files.len() - 1, key) {
            assert(after.statuses.dom().contains(key));
        }
        if after.statuses.dom().contains(key) {
            if before.statuses.dom().contains(key) {
                let i = choose|i: int|
                    counts_for(front, i, key) && front[i].status() == before.statuses[key];
                if after.statuses[key] == before.statuses[key] {
                    assert(counts_for(files, i, key) && files[i].status() == after.statuses[key]);
                } else {
                    assert(counts_for(files, files.len() - 1, key) && last.status()
                        == after.statuses[key]);
                }
            } else {
                assert(counts_for(files, files.len() - 1, key) && last.status()
                    == after.statuses[key]);
            }
        }
        assert forall|i: int| #[trigger] counts_for(files, i, key) implies files[i].status().severity()
            <= after.statuses[key].severity() by {
            if i < front.len() {
                assert(counts_for(front, i, key));
            }
        }
        assert forall|i: int| counts_for(files, i, key) implies after.statuses.dom().contains(
            key,
        ) by {
            if i < front.len() {
                assert(counts_for(front, i, key));
            }
        }
    } else {
        assert(after.statuses =~= Map::<ProjectKey, Status>::empty());
    }
}

/// Where rows are kept, they are the files that hold calls, each once for
/// each time it was scanned; where they are not kept, there are none.
pub proof fn lemma_rows_are_files_with_calls(files: Seq<FileCounts>, keep_rows: bool)
    ensures
        Summary::of_files(files, keep_rows).rows == if keep_rows {
            files.filter(|file: FileCounts| !file.is_empty()).to_multiset()
        } else {
            Multiset::empty()
        },
    decreases files.len(),
{
    let with_calls = |file: FileCounts| !file.is_empty();
    if files.len() == 0 {
        files.lemma_filter_len(with_calls);
        let none = files.filter(with_calls);
        none.to_multiset_ensures();
        vstd::multiset::lemma_multiset_empty_len(none.to_multiset());
        assert(none.to_multiset() =~= Multiset::<FileCounts>::empty());
    } else {
        let front = files.drop_last();
        let last = files.last();
        lemma_rows_are_files_with_calls(front, keep_rows);
        assert(files =~= front.push(last));
        lemma_of_files_push(front, last, keep_rows);
        front.lemma_filter_push(last, with_calls);
        front.filter(with_calls).to_multiset_ensures();
    }
}

/// Two summaries can be merged in either order.
pub proof fn lemma_merge_commutes(a: Summary, b: Summary)
    ensures
        a.merge(b) == b.merge(a),
{
    assert(a.merge(b).statuses =~= b.merge(a).statuses);
    assert(a.merge(b).rows =~= b.merge(a).rows);
}

/// Three summaries merge into the same summary however they are grouped.
pub proof fn lemma_merge_associative(a: Summary, b: Summary, c: Summary)
    ensures
        a.merge(b).merge(c) == a.merge(b.merge(c)),
{
    assert(a.merge(b).merge(c).statuses =~= a.merge(b.merge(c)).statuses);
    assert(a.merge(b).merge(c).rows =~= a.merge(b.merge(c)).rows);
}

/// The empty summary changes no summary it is merged with.
pub proof fn lemma_merge_empty(a: Summary)
    ensures
        a.merge(Summary::empty()) == a,
        Summary::empty().merge(a) == a,
{
    assert(a.merge(Summary::empty()).statuses =~= a.statuses);
    assert(a.merge(Summary::empty()).rows =~= a.rows);
    assert(Summary::empty().merge(a).statuses =~= a.statuses);
    assert(Summary::empty().merge(a).rows =~= a.rows);
}

/// A file added to the second of two summaries is added to their merge.
pub proof fn lemma_merge_record(a: Summary, b: Summary, file: FileCounts, keep_rows: bool)
    ensures
        a.merge(b.record(file, keep_rows)) == a.merge(b).record(file, keep_rows),
{
    let left = a.merge(b.record(file, keep_rows));
    let right = a.merge(b).record(file, keep_rows);
    assert(left.statuses =~= right.statuses);
    assert(left.rows =~= right.rows);
}

/// The summary of two runs of files is the merge of the summaries of the
/// two: files can be shared out between workers in any way, and the summaries
/// of the workers merged at the end.
pub proof fn lemma_of_files_add(a: Seq<FileCounts>, b: Seq<FileCounts>, keep_rows: bool)
    ensures
        Summary::of_files(a + b, keep_rows) == Summary::of_files(a, keep_rows).merge(
            Summary::of_files(b, keep_rows),
        ),
    decreases b.len(),
{
    if b.len() == 0 {
        assert(a + b =~= a);
        lemma_merge_empty(Summary::of_files(a, keep_rows));
    } else {
        let front = b.drop_last();
        lemma_of_files_add(a, front, keep_rows);
        assert(a + b =~= (a + front).push(b.last()));
        assert(b =~= front.push(b.last()));
        lemma_of_files_push(a + front, b.last(), keep_rows);
        lemma_of_files_push(front, b.last(), keep_rows);
        lemma_merge_record(
            Summary::of_files(a, keep_rows),
            Summary::of_files(front, keep_rows),
            b.last(),
            keep_rows,
        );
    }
}

/// Scanning the same files again gives the same summary.
pub proof fn lemma_rescan_same(a: Seq<FileCounts>, b: Seq<FileCounts>, keep_rows: bool)
    requires
        a == b,
    ensures
        Summary::of_files(a, keep_rows) == Summary::of_files(b, keep_rows),
{
}

} // verus!
