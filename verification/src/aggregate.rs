//! The aggregator: the summary of a scan, kept while the files come in.

use vstd::prelude::*;
use vstd::multiset::Multiset;
use crate::project::{get_org_repo, path_below, project_of, relative_path};
use crate::status::Status;
use crate::summary::{
    joined_status, lemma_of_files_push, merge_statuses, FileCounts, ProjectKey, Summary,
};

verus! {

/// One file in which calls were found: its project, its path below the root,
/// and how many of its calls are safe, partially safe and unsafe.
#[derive(Debug, Clone, PartialEq, Eq)]
pub struct FileRow {
    pub org: String,
    pub repo: String,
    pub file: String,
    pub safe: usize,
    pub partial: usize,
    pub unsafe_: usize,
}

impl View for FileRow {
    type V = FileCounts;

    open spec fn view(&self) -> FileCounts {
        FileCounts {
            org: self.org@,
            repo: self.repo@,
            file: self.file@,
            safe: self.safe as nat,
            partial: self.partial as nat,
            unsafe_: self.unsafe_ as nat,
        }
    }
}

impl FileRow {
    /// The row of the file at `path` in a scan of `root`, given the counts of
    /// its calls: the project is read off the path, and the file is named by
    /// its path below the root.
    pub fn new(path: &str, root: &str, counts: (usize, usize, usize)) -> (r: FileRow)
        ensures
            r@ == (FileCounts {
                org: project_of(path@, root@).0,
                repo: project_of(path@, root@).1,
                file: path_below(path@, root@),
                safe: counts.0 as nat,
                partial: counts.1 as nat,
                unsafe_: counts.2 as nat,
            }),
    {
        let (org, repo) = get_org_repo(path, root);
        let file = relative_path(path, root);
        FileRow { org, repo, file, safe: counts.0, partial: counts.1, unsafe_: counts.2 }
    }
}

/// One project and its tier.
#[derive(Debug, Clone, PartialEq, Eq)]
pub struct ProjectEntry {
    pub org: String,
    pub repo: String,
    pub status: Status,
}

impl ProjectEntry {
    /// The organization and the repository of the project.
    pub open spec fn key(self) -> ProjectKey {
        (self.org@, self.repo@)
    }
}

/// What the rows hold, in order.
pub open spec fn row_views(rows: Seq<FileRow>) -> Seq<FileCounts> {
    rows.map_values(|row: FileRow| row@)
}

/// Whether no two of the entries are of the same project.
pub open spec fn distinct_keys(entries: Seq<ProjectEntry>) -> bool {
    forall|i: int, j: int|
        0 <= i < j < entries.len() ==> (#[trigger] entries[i]).key() != (#[trigger] entries[j]).key()
}

/// Whether one of the entries is of the project `key`.
pub open spec fn has_key(entries: Seq<ProjectEntry>, key: ProjectKey) -> bool {
    exists|i: int| 0 <= i < entries.len() && (#[trigger] entries[i]).key() == key
}

/// The index of an entry of the project `key`.
pub open spec fn index_of_key(entries: Seq<ProjectEntry>, key: ProjectKey) -> int {
    choose|i: int| 0 <= i < entries.len() && (#[trigger] entries[i]).key() == key
}

/// The tier of each project among the entries.
pub open spec fn entries_map(entries: Seq<ProjectEntry>) -> Map<ProjectKey, Status> {
    Map::new(
        |key: ProjectKey| has_key(entries, key),
        |key: ProjectKey| entries[index_of_key(entries, key)].status,
    )
}

/// The projects among the entries that are of the tier `status`.
pub open spec fn keys_with(entries: Seq<ProjectEntry>, status: Status) -> Set<ProjectKey> {
    Set::new(
        |key: ProjectKey|
            exists|i: int|
                0 <= i < entries.len() && (#[trigger] entries[i]).key() == key && entries[i].status
                    == status,
    )
}

/// Among entries of distinct projects, each entry is the one its project is
/// found at.
pub proof fn lemma_index_of_key(entries: Seq<ProjectEntry>, i: int)
    requires
        distinct_keys(entries),
        0 <= i < entries.len(),
    ensures
        has_key(entries, entries[i].key()),
        index_of_key(entries, entries[i].key()) == i,
        entries_map(entries).dom().contains(entries[i].key()),
        entries_map(entries)[entries[i].key()] == entries[i].status,
{
    let key = entries[i].key();
    let j = index_of_key(entries, key);
    assert(0 <= j < entries.len() && entries[j].key() == key);
    if i < j {
        assert(entries[i].key() != entries[j].key());
    } else if j < i {
        assert(entries[j].key() != entries[i].key());
    }
}

/// An entry of a new project, added at the end, adds its project and its tier
/// to the map and leaves the projects distinct.
pub proof fn lemma_entries_push(entries: Seq<ProjectEntry>, entry: ProjectEntry)
    requires
        distinct_keys(entries),
        !has_key(entries, entry.key()),
    ensures
        distinct_keys(entries.push(entry)),
        entries_map(entries.push(entry)) == entries_map(entries).insert(entry.key(), entry.status),
{
    let after = entries.push(entry);
    assert(distinct_keys(after)) by {
        assert forall|i: int, j: int| 0 <= i < j < after.len() implies (#[trigger] after[i]).key()
            != (#[trigger] after[j]).key() by {
            if j == entries.len() {
                assert(entries[i].key() != entry.key());
            } else {
                assert(entries[i].key() != entries[j].key());
            }
        }
    }
    let m = entries_map(entries).insert(entry.key(), entry.status);
    assert forall|key: ProjectKey| entries_map(after).dom().contains(key) <==> m.dom().contains(
        key,
    ) by {
        if has_key(after, key) {
            let i = index_of_key(after, key);
            if i < entries.len() {
                assert(entries[i].key() == key);
            }
        }
        if has_key(entries, key) {
            let i = index_of_key(entries, key);
            assert(after[i].key() == key);
        }
        if key == entry.key() {
            assert(after[entries.len() as int].key() == key);
        }
    }
    assert forall|key: ProjectKey| entries_map(after).dom().contains(key) implies entries_map(
        after,
    )[key] == m[key] by {
        let i = index_of_key(after, key);
        lemma_index_of_key(after, i);
        if i < entries.len() {
            lemma_index_of_key(entries, i);
        }
    }
    assert(entries_map(after) =~= m);
}

/// A new tier for the project of the entry at index `i` changes the tier of
/// that project in the map and leaves the projects distinct.
pub proof fn lemma_entries_update(entries: Seq<ProjectEntry>, i: int, entry: ProjectEntry)
    requires
        distinct_keys(entries),
        0 <= i < entries.len(),
        entry.key() == entries[i].key(),
    ensures
        distinct_keys(entries.update(i, entry)),
        entries_map(entries.update(i, entry)) == entries_map(entries).insert(
            entry.key(),
            entry.status,
        ),
{
    let after = entries.update(i, entry);
    assert(distinct_keys(after)) by {
        assert forall|a: int, b: int| 0 <= a < b < after.len() implies (#[trigger] after[a]).key()
            != (#[trigger] after[b]).key() by {
            assert(entries[a].key() != entries[b].key());
        }
    }
    let m = entries_map(entries).insert(entry.key(), entry.status);
    assert forall|key: ProjectKey| entries_map(after).dom().contains(key) <==> m.dom().contains(
        key,
    ) by {
        if has_key(after, key) {
            let j = index_of_key(after, key);
            assert(entries[j].key() == key);
        }
        if has_key(entries, key) {
            let j = index_of_key(entries, key);
            assert(after[j].key() == key);
        }
        if key == entry.key() {
            assert(after[i].key() == key);
            assert(entries[i].key() == key);
        }
    }
    assert forall|key: ProjectKey| entries_map(after).dom().contains(key) implies entries_map(
        after,
    )[key] == m[key] by {
        let j = index_of_key(after, key);
        lemma_index_of_key(after, j);
        lemma_index_of_key(entries, j);
    }
    assert(entries_map(after) =~= m);
}

/// Among the first entries and one more, the projects of a tier are those
/// among the first entries, and the project of the one more if it is of that
/// tier; taken from entries of distinct projects, that project is new.
pub proof fn lemma_keys_with_step(entries: Seq<ProjectEntry>, i: int, status: Status)
    requires
        distinct_keys(entries),
        0 <= i < entries.len(),
    ensures
        keys_with(entries.take(i), status).finite(),
        keys_with(entries.take(i), status).len() <= i,
        !keys_with(entries.take(i), status).contains(entries[i].key()),
        keys_with(entries.take(i + 1), status) == if entries[i].status == status {
            keys_with(entries.take(i), status).insert(entries[i].key())
        } else {
            keys_with(entries.take(i), status)
        },
    decreases i,
{
    let before = entries.take(i);
    let now = entries.take(i + 1);
    if i > 0 {
        lemma_keys_with_step(entries, i - 1, status);
        assert(keys_with(before, status).len() <= i);
    } else {
        assert(keys_with(before, status) =~= Set::<ProjectKey>::empty());
    }
    if keys_with(before, status).contains(entries[i].key()) {
        let j = choose|j: int|
            0 <= j < before.len() && (#[trigger] before[j]).key() == entries[i].key() && before[j].status
                == status;
        assert(entries[j].key() != entries[i].key());
    }
    let expected = if entries[i].status == status {
        keys_with(before, status).insert(entries[i].key())
    } else {
        keys_with(before, status)
    };
    assert forall|key: ProjectKey| keys_with(now, status).contains(key) <==> expected.contains(
        key,
    ) by {
        if keys_with(now, status).contains(key) {
            let j = choose|j: int|
                0 <= j < now.len() && (#[trigger] now[j]).key() == key && now[j].status == status;
            if j < i {
                assert(before[j].key() == key && before[j].status == status);
            }
        }
        if keys_with(before, status).contains(key) {
            let j = choose|j: int|
                0 <= j < before.len() && (#[trigger] before[j]).key() == key && before[j].status
                    == status;
            assert(now[j].key() == key && now[j].status == status);
        }
        if entries[i].status == status && key == entries[i].key() {
            assert(now[i].key() == key && now[i].status == status);
        }
    }
    assert(keys_with(now, status) =~= expected);
}

/// The projects of a tier among entries of distinct projects are the projects
/// of that tier in a summary that holds the map of the entries.
pub proof fn lemma_keys_with_map(entries: Seq<ProjectEntry>, summary: Summary, status: Status)
    requires
        distinct_keys(entries),
        summary.statuses == entries_map(entries),
    ensures
        keys_with(entries, status) == summary.projects_with(status),
{
    let by_map = summary.projects_with(status);
    assert forall|key: ProjectKey| keys_with(entries, status).contains(key) <==> by_map.contains(
        key,
    ) by {
        if keys_with(entries, status).contains(key) {
            let j = choose|j: int|
                0 <= j < entries.len() && (#[trigger] entries[j]).key() == key && entries[j].status
                    == status;
            lemma_index_of_key(entries, j);
        }
        if by_map.contains(key) {
            let j = index_of_key(entries, key);
            lemma_index_of_key(entries, j);
        }
    }
    assert(keys_with(entries, status) =~= by_map);
}

/// The index of the entry of the project, if there is one.
fn find_entry(projects: &Vec<ProjectEntry>, org: &String, repo: &String) -> (r: Option<usize>)
    ensures
        match r {
            Some(i) => i < projects@.len() && projects@[i as int].key() == (org@, repo@),
            None => !has_key(projects@, (org@, repo@)),
        },
{
    let mut i: usize = 0;
    while i < projects.len()
        invariant
            i <= projects@.len(),
            forall|j: int| 0 <= j < i ==> (#[trigger] projects@[j]).key() != (org@, repo@),
        decreases projects@.len() - i,
    {
        let entry = &projects[i];
        if entry.org == *org && entry.repo == *repo {
            return Some(i);
        }
        i += 1;
    }
    None
}

/// Joins a tier into the tier of a project: a new project is added at the
/// end with the tier, a project that is there gets the more severe of its
/// tier and the tier.
fn join_entry(projects: &mut Vec<ProjectEntry>, org: &String, repo: &String, status: Status)
    requires
        distinct_keys(old(projects)@),
    ensures
        distinct_keys(final(projects)@),
        entries_map(final(projects)@) == entries_map(old(projects)@).insert(
            (org@, repo@),
            joined_status(entries_map(old(projects)@), (org@, repo@), status),
        ),
{
    let ghost before = projects@;
    match find_entry(projects, org, repo) {
        Some(i) => {
            let old_entry = &projects[i];
            let entry = ProjectEntry {
                org: old_entry.org.clone(),
                repo: old_entry.repo.clone(),
                status: old_entry.status.join(status),
            };
            proof {
                lemma_index_of_key(before, i as int);
                lemma_entries_update(before, i as int, entry);
            }
            projects.set(i, entry);
        },
        None => {
            let entry = ProjectEntry { org: org.clone(), repo: repo.clone(), status };
            proof {
                lemma_entries_push(before, entry);
            }
            projects.push(entry);
        },
    }
}

/// Merging a map with the map of some entries and one more is joining the
/// tier of the one more into the merge with the map of the entries.
proof fn lemma_merge_step(statuses: Map<ProjectKey, Status>, entries: Seq<ProjectEntry>, i: int)
    requires
        distinct_keys(entries),
        0 <= i < entries.len(),
    ensures
        merge_statuses(statuses, entries_map(entries.take(i + 1))) == merge_statuses(
            statuses,
            entries_map(entries.take(i)),
        ).insert(
            entries[i].key(),
            joined_status(
                merge_statuses(statuses, entries_map(entries.take(i))),
                entries[i].key(),
                entries[i].status,
            ),
        ),
{
    let before = entries.take(i);
    let entry = entries[i];
    assert(distinct_keys(before)) by {
        assert forall|a: int, b: int| 0 <= a < b < before.len() implies (#[trigger] before[a]).key()
            != (#[trigger] before[b]).key() by {
            assert(entries[a].key() != entries[b].key());
        }
    }
    assert(!has_key(before, entry.key())) by {
        if has_key(before, entry.key()) {
            let j = index_of_key(before, entry.key());
            assert(entries[j].key() != entries[i].key());
        }
    }
    assert(entries.take(i + 1) =~= before.push(entry));
    lemma_entries_push(before, entry);
    let merged = merge_statuses(statuses, entries_map(before));
    assert(merge_statuses(statuses, entries_map(before.push(entry))) =~= merged.insert(
        entry.key(),
        joined_status(merged, entry.key(), entry.status),
    ));
}

/// The summary of a scan, kept while the files come in.
///
/// The projects are held in a vector in which no project occurs twice. A hash
/// map keyed by the two names would find a project faster, but of a map with
/// such keys nothing can be proved here, not even that a key is in it once it
/// was put in; so every step is a search of the vector.
pub struct Aggregator {
    keep_rows: bool,
    total_safe: usize,
    total_partial: usize,
    total_unsafe: usize,
    projects: Vec<ProjectEntry>,
    file_rows: Vec<FileRow>,
}

impl View for Aggregator {
    type V = Summary;

    closed spec fn view(&self) -> Summary {
        Summary {
            safe: self.total_safe as nat,
            partial: self.total_partial as nat,
            unsafe_: self.total_unsafe as nat,
            statuses: entries_map(self.projects@),
            rows: row_views(self.file_rows@).to_multiset(),
        }
    }
}

impl Aggregator {
    /// What holds of every aggregator: it holds each project once, and no
    /// rows unless it keeps them.
    #[verifier::type_invariant]
    spec fn inv(&self) -> bool {
        &&& distinct_keys(self.projects@)
        &&& !self.keep_rows ==> self.file_rows@.len() == 0
    }

    /// Whether the aggregator keeps a row for each file in which calls were
    /// found.
    pub closed spec fn keeps_rows(&self) -> bool {
        self.keep_rows
    }

    /// Whether the counts of `row` can be added to the totals without leaving
    /// the range of the totals.
    pub open spec fn fits(&self, row: FileCounts) -> bool {
        &&& self@.safe + row.safe <= usize::MAX
        &&& self@.partial + row.partial <= usize::MAX
        &&& self@.unsafe_ + row.unsafe_ <= usize::MAX
    }

    /// An aggregator before the first file, which keeps rows or not as
    /// `keep_rows` says.
    pub fn new(keep_rows: bool) -> (r: Aggregator)
        ensures
            r.keeps_rows() == keep_rows,
            r@ == Summary::empty(),
    {
        let r = Aggregator {
            keep_rows,
            total_safe: 0,
            total_partial: 0,
            total_unsafe: 0,
            projects: Vec::new(),
            file_rows: Vec::new(),
        };
        proof {
            assert(entries_map(r.projects@) =~= Map::<ProjectKey, Status>::empty());
            let none = row_views(r.file_rows@);
            assert(none =~= Seq::<FileCounts>::empty());
            none.to_multiset_ensures();
            vstd::multiset::lemma_multiset_empty_len(none.to_multiset());
            assert(r@.rows =~= Multiset::<FileCounts>::empty());
        }
        r
    }

    /// Tells whether the counts of `row` can be added to the totals.
    pub fn can_record(&self, row: &FileRow) -> (r: bool)
        ensures
            r == self.fits(row@),
    {
        row.safe <= usize::MAX - self.total_safe && row.partial <= usize::MAX - self.total_partial
            && row.unsafe_ <= usize::MAX - self.total_unsafe
    }

    /// Adds one file to the summary. A file without calls changes nothing.
    /// Any other file adds its counts to the totals and joins its worst tier
    /// into the tier of its project; its row is kept if the aggregator keeps
    /// rows.
    pub fn record(&mut self, row: FileRow)
        requires
            old(self).fits(row@),
        ensures
            final(self).keeps_rows() == old(self).keeps_rows(),
            final(self)@ == old(self)@.record(row@, old(self).keeps_rows()),
    {
        let status = match Status::of_counts(row.safe, row.partial, row.unsafe_) {
            Some(status) => status,
            None => {
                return ;
            },
        };
        proof {
            use_type_invariant(&*self);
        }
        self.total_safe = self.total_safe + row.safe;
        self.total_partial = self.total_partial + row.partial;
        self.total_unsafe = self.total_unsafe + row.unsafe_;
        // The entries and the rows are taken out, changed and put back, so
        // that the aggregator is in order at every step.
        let mut projects: Vec<ProjectEntry> = Vec::new();
        std::mem::swap(&mut self.projects, &mut projects);
        join_entry(&mut projects, &row.org, &row.repo, status);
        std::mem::swap(&mut self.projects, &mut projects);
        if self.keep_rows {
            let mut file_rows: Vec<FileRow> = Vec::new();
            std::mem::swap(&mut self.file_rows, &mut file_rows);
            let ghost rows_before = row_views(file_rows@);
            file_rows.push(row);
            proof {
                assert(row_views(file_rows@) =~= rows_before.push(row@));
                vstd::seq_lib::to_multiset_build(rows_before, row@);
            }
            std::mem::swap(&mut self.file_rows, &mut file_rows);
        }
    }

    /// Whether the totals of `other` can be added to the totals without
    /// leaving the range of the totals.
    pub open spec fn fits_summary(&self, other: Summary) -> bool {
        &&& self@.safe + other.safe <= usize::MAX
        &&& self@.partial + other.partial <= usize::MAX
        &&& self@.unsafe_ + other.unsafe_ <= usize::MAX
    }

    /// Tells whether the totals of `other` can be added to the totals.
    pub fn can_merge(&self, other: &Aggregator) -> (r: bool)
        ensures
            r == self.fits_summary(other@),
    {
        other.total_safe <= usize::MAX - self.total_safe && other.total_partial <= usize::MAX
            - self.total_partial && other.total_unsafe <= usize::MAX - self.total_unsafe
    }

    /// Takes the summary of another aggregator into this one: the totals add
    /// up, a project of both gets the more severe of its two tiers, and the
    /// rows of the other are taken over if this aggregator keeps rows.
    pub fn merge(&mut self, other: Aggregator)
        requires
            old(self).fits_summary(other@),
        ensures
            final(self).keeps_rows() == old(self).keeps_rows(),
            final(self)@ == old(self)@.merge(
                if old(self).keeps_rows() {
                    other@
                } else {
                    other@.without_rows()
                },
            ),
    {
        proof {
            use_type_invariant(&*self);
            use_type_invariant(&other);
        }
        let ghost start = self@;
        let Aggregator {
            keep_rows: _,
            total_safe,
            total_partial,
            total_unsafe,
            projects: other_projects,
            file_rows: mut other_rows,
        } = other;
        self.total_safe = self.total_safe + total_safe;
        self.total_partial = self.total_partial + total_partial;
        self.total_unsafe = self.total_unsafe + total_unsafe;
        let mut projects: Vec<ProjectEntry> = Vec::new();
        std::mem::swap(&mut self.projects, &mut projects);
        let mut i: usize = 0;
        proof {
            assert(entries_map(other_projects@.take(0)) =~= Map::<ProjectKey, Status>::empty());
            assert(merge_statuses(start.statuses, entries_map(other_projects@.take(0)))
                =~= start.statuses);
        }
        while i < other_projects.len()
            invariant
                i <= other_projects@.len(),
                distinct_keys(other_projects@),
                distinct_keys(projects@),
                entries_map(projects@) == merge_statuses(
                    start.statuses,
                    entries_map(other_projects@.take(i as int)),
                ),
            decreases other_projects@.len() - i,
        {
            let entry = &other_projects[i];
            proof {
                lemma_merge_step(start.statuses, other_projects@, i as int);
            }
            join_entry(&mut projects, &entry.org, &entry.repo, entry.status);
            i += 1;
        }
        proof {
            assert(other_projects@.take(other_projects@.len() as int) =~= other_projects@);
        }
        std::mem::swap(&mut self.projects, &mut projects);
        if self.keep_rows {
            let mut file_rows: Vec<FileRow> = Vec::new();
            std::mem::swap(&mut self.file_rows, &mut file_rows);
            let ghost mine = row_views(file_rows@);
            let ghost theirs = row_views(other_rows@);
            file_rows.append(&mut other_rows);
            proof {
                assert(row_views(file_rows@) =~= mine + theirs);
                vstd::seq_lib::lemma_multiset_commutative(mine, theirs);
            }
            std::mem::swap(&mut self.file_rows, &mut file_rows);
        } else {
            proof {
                assert(start.rows.add(Multiset::<FileCounts>::empty()) =~= start.rows);
            }
        }
    }

    /// The safe, the partially safe and the unsafe calls of all files so far.
    pub fn totals(&self) -> (r: (usize, usize, usize))
        ensures
            r.0 == self@.safe,
            r.1 == self@.partial,
            r.2 == self@.unsafe_,
    {
        (self.total_safe, self.total_partial, self.total_unsafe)
    }

    /// The tier of a project, if a call was found in it.
    pub fn status_of(&self, org: &String, repo: &String) -> (r: Option<Status>)
        ensures
            r == if self@.statuses.dom().contains((org@, repo@)) {
                Some(self@.statuses[(org@, repo@)])
            } else {
                None
            },
    {
        match find_entry(&self.projects, org, repo) {
            Some(i) => {
                proof {
                    use_type_invariant(self);
                    lemma_index_of_key(self.projects@, i as int);
                }
                Some(self.projects[i].status)
            },
            None => None,
        }
    }

    /// How many projects are of the tier `status`.
    pub fn count_projects(&self, status: Status) -> (r: usize)
        ensures
            r == self@.project_count(status),
    {
        let mut count: usize = 0;
        let mut i: usize = 0;
        proof {
            use_type_invariant(self);
            assert(keys_with(self.projects@.take(0), status) =~= Set::<ProjectKey>::empty());
        }
        while i < self.projects.len()
            invariant
                i <= self.projects@.len(),
                distinct_keys(self.projects@),
                keys_with(self.projects@.take(i as int), status).finite(),
                count == keys_with(self.projects@.take(i as int), status).len(),
                count <= i,
            decreases self.projects@.len() - i,
        {
            proof {
                lemma_keys_with_step(self.projects@, i as int, status);
            }
            if self.projects[i].status == status {
                count += 1;
            }
            i += 1;
        }
        proof {
            assert(self.projects@.take(self.projects@.len() as int) =~= self.projects@);
            lemma_keys_with_map(self.projects@, self@, status);
        }
        count
    }

    /// How many projects are safe, partially safe and unsafe, in this order.
    pub fn project_counts(&self) -> (r: (usize, usize, usize))
        ensures
            r.0 == self@.project_count(Status::Safe),
            r.1 == self@.project_count(Status::PartiallySafe),
            r.2 == self@.project_count(Status::Unsafe),
    {
        (
            self.count_projects(Status::Safe),
            self.count_projects(Status::PartiallySafe),
            self.count_projects(Status::Unsafe),
        )
    }

    /// The projects in which calls were found, each once, in the order in
    /// which they were first seen, with their tiers.
    pub fn projects(&self) -> (r: &Vec<ProjectEntry>)
        ensures
            distinct_keys(r@),
            entries_map(r@) == self@.statuses,
    {
        proof {
            use_type_invariant(self);
        }
        &self.projects
    }

    /// The rows that were kept, in the order in which the files came.
    pub fn file_rows(&self) -> (r: &Vec<FileRow>)
        ensures
            row_views(r@).to_multiset() == self@.rows,
            !self.keeps_rows() ==> r@.len() == 0,
    {
        proof {
            use_type_invariant(self);
        }
        &self.file_rows
    }
}

/// Whether the totals of a summary are within the range of the totals of an
/// aggregator.
pub open spec fn totals_fit(summary: Summary) -> bool {
    summary.safe <= usize::MAX && summary.partial <= usize::MAX && summary.unsafe_ <= usize::MAX
}

/// The totals never shrink: those after the first files are at most those
/// after all of them.
pub proof fn lemma_totals_grow(files: Seq<FileCounts>, n: int, keep_rows: bool)
    requires
        0 <= n <= files.len(),
    ensures
        Summary::of_files(files.take(n), keep_rows).safe <= Summary::of_files(files, keep_rows).safe,
        Summary::of_files(files.take(n), keep_rows).partial <= Summary::of_files(
            files,
            keep_rows,
        ).partial,
        Summary::of_files(files.take(n), keep_rows).unsafe_ <= Summary::of_files(
            files,
            keep_rows,
        ).unsafe_,
    decreases files.len() - n,
{
    if n == files.len() {
        assert(files.take(n) =~= files);
    } else {
        lemma_totals_grow(files, n + 1, keep_rows);
        assert(files.take(n + 1) =~= files.take(n).push(files[n]));
        lemma_of_files_push(files.take(n), files[n], keep_rows);
    }
}

/// The summary of the files in `files`, taken in order; none where their
/// totals leave the range of the totals.
pub fn summarize(files: Vec<FileRow>, keep_rows: bool) -> (r: Option<Aggregator>)
    ensures
        r is Some <==> totals_fit(Summary::of_files(row_views(files@), keep_rows)),
        match r {
            Some(aggregator) => {
                &&& aggregator.keeps_rows() == keep_rows
                &&& aggregator@ == Summary::of_files(row_views(files@), keep_rows)
            },
            None => true,
        },
{
    let mut aggregator = Aggregator::new(keep_rows);
    let ghost all = row_views(files@);
    let ghost mut done: int = 0;
    proof {
        assert(all.take(0) =~= Seq::<FileCounts>::empty());
    }
    for row in it: files
        invariant
            all == row_views(it.seq()),
            0 <= done <= all.len(),
            done == it.index(),
            aggregator.keeps_rows() == keep_rows,
            aggregator@ == Summary::of_files(all.take(done), keep_rows),
    {
        proof {
            assert(all.take(done + 1) =~= all.take(done).push(row@));
            lemma_of_files_push(all.take(done), row@, keep_rows);
            lemma_totals_grow(all, done + 1, keep_rows);
        }
        if !aggregator.can_record(&row) {
            return None;
        }
        aggregator.record(row);
        proof {
            done = done + 1;
        }
    }
    proof {
        assert(all.take(done) =~= all);
    }
    Some(aggregator)
}

} // verus!
