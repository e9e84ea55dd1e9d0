use vstd::prelude::*;

use crate::paths::{same_path, spec_path_components};
use crate::types::FileType;

verus! {

/// What identifies an indexed file: its kind, its path and the hash of its
/// content.
#[derive(Debug)]
pub struct FileSummary {
    pub file_type: FileType,
    pub path: String,
    pub hash: String,
}

impl View for FileSummary {
    type V = (FileType, Seq<char>, Seq<char>);

    open spec fn view(&self) -> (FileType, Seq<char>, Seq<char>) {
        (self.file_type, self.path@, self.hash@)
    }
}

impl PartialEq for FileSummary {
    fn eq(&self, other: &Self) -> (res: bool) {
        self.file_type == other.file_type && same_path(self.path.as_str(), other.path.as_str()) && self.hash
            == other.hash
    }
}

impl vstd::std_specs::cmp::PartialEqSpecImpl for FileSummary {
    open spec fn obeys_eq_spec() -> bool {
        true
    }

    open spec fn eq_spec(&self, other: &FileSummary) -> bool {
        summary_key(self@) == summary_key(other@)
    }
}

impl Eq for FileSummary {
}

impl Clone for FileSummary {
    fn clone(&self) -> (res: Self)
        ensures
            res@ == self@,
    {
        FileSummary { file_type: self.file_type, path: self.path.clone(), hash: self.hash.clone() }
    }
}

/// The changes that bring the index in line with the files on disk: the
/// ids of the indexed files to delete and the files to add.
#[derive(Debug)]
pub struct FileDiff {
    pub to_delete: Vec<i32>,
    pub to_add: Vec<FileSummary>,
}

/// The summaries of a sequence of files.
pub open spec fn summary_views(files: Seq<FileSummary>) -> Seq<(FileType, Seq<char>, Seq<char>)> {
    files.map_values(|f: FileSummary| f@)
}

/// The summaries of the indexed files.
pub open spec fn indexed_views(indexed: Seq<(FileSummary, i32)>) -> Seq<(FileType, Seq<char>, Seq<char>)> {
    indexed.map_values(|e: (FileSummary, i32)| e.0@)
}

/// What tells two file summaries apart: the kind, the path's components
/// (as `std::path::Path` compares paths) and the hash.
pub open spec fn summary_key(s: (FileType, Seq<char>, Seq<char>)) -> (FileType, Seq<Seq<char>>, Seq<char>) {
    (s.0, spec_path_components(s.1), s.2)
}

/// The keys of a sequence of summaries.
pub open spec fn keys_of(views: Seq<(FileType, Seq<char>, Seq<char>)>) -> Seq<(FileType, Seq<Seq<char>>, Seq<char>)> {
    views.map_values(|s: (FileType, Seq<char>, Seq<char>)| summary_key(s))
}

/// Whether the indexed entry `i` is the last one of its file: the id that
/// the index keeps for that file.
pub open spec fn is_latest(indexed: Seq<(FileSummary, i32)>, i: int) -> bool {
    forall|j: int| i < j < indexed.len() ==> summary_key(#[trigger] indexed[j].0@) != summary_key(indexed[i].0@)
}

/// The ids, in order, of the first `n` indexed entries that are the last of
/// their file and whose file is not among the actual files.
pub open spec fn ids_to_delete_upto(indexed: Seq<(FileSummary, i32)>, actual: Seq<FileSummary>, n: nat) -> Seq<i32>
    decreases n,
{
    if n == 0 {
        seq![]
    } else {
        let prev = ids_to_delete_upto(indexed, actual, (n - 1) as nat);
        let i = n - 1;
        if i < indexed.len() && is_latest(indexed, i) && !keys_of(summary_views(actual)).contains(
            summary_key(indexed[i].0@),
        ) {
            prev.push(indexed[i].1)
        } else {
            prev
        }
    }
}

/// The ids, in order, of the indexed files that are not among the actual
/// files; of entries for one file, the last one's id.
pub open spec fn ids_to_delete(indexed: Seq<(FileSummary, i32)>, actual: Seq<FileSummary>) -> Seq<i32> {
    ids_to_delete_upto(indexed, actual, indexed.len())
}

/// The summaries, in the order of their first occurrence, of the actual
/// files that are not indexed, each file once.
pub open spec fn files_to_add(indexed: Seq<(FileSummary, i32)>, actual: Seq<FileSummary>) -> Seq<
    (FileType, Seq<char>, Seq<char>),
>
    decreases actual.len(),
{
    if actual.len() == 0 {
        seq![]
    } else {
        let last = actual[actual.len() - 1];
        let prev = files_to_add(indexed, actual.subrange(0, actual.len() - 1));
        if keys_of(indexed_views(indexed)).contains(summary_key(last@)) || keys_of(prev).contains(
            summary_key(last@),
        ) {
            prev
        } else {
            prev.push(last@)
        }
    }
}

fn contains_file(files: &Vec<FileSummary>, file: &FileSummary) -> (res: bool)
    ensures
        res == keys_of(summary_views(files@)).contains(summary_key(file@)),
{
    let mut i: usize = 0;
    while i < files.len()
        invariant
            i <= files.len(),
            forall|j: int| 0 <= j < i ==> summary_key(#[trigger] files@[j]@) != summary_key(file@),
        decreases files.len() - i,
    {
        if files[i] == *file {
            proof {
                assert(keys_of(summary_views(files@))[i as int] == summary_key(file@));
            }
            return true;
        }
        i += 1;
    }
    proof {
        if keys_of(summary_views(files@)).contains(summary_key(file@)) {
            let j = choose|j: int| 0 <= j < files@.len() && keys_of(summary_views(files@))[j] == summary_key(file@);
            assert(summary_key(files@[j]@) == summary_key(file@));
        }
    }
    false
}

fn is_indexed(indexed: &Vec<(FileSummary, i32)>, file: &FileSummary) -> (res: bool)
    ensures
        res == keys_of(indexed_views(indexed@)).contains(summary_key(file@)),
{
    let mut i: usize = 0;
    while i < indexed.len()
        invariant
            i <= indexed.len(),
            forall|j: int| 0 <= j < i ==> summary_key(#[trigger] indexed@[j].0@) != summary_key(file@),
        decreases indexed.len() - i,
    {
        if indexed[i].0 == *file {
            proof {
                assert(keys_of(indexed_views(indexed@))[i as int] == summary_key(file@));
            }
            return true;
        }
        i += 1;
    }
    proof {
        if keys_of(indexed_views(indexed@)).contains(summary_key(file@)) {
            let j = choose|j: int|
                0 <= j < indexed@.len() && keys_of(indexed_views(indexed@))[j] == summary_key(file@);
            assert(summary_key(indexed@[j].0@) == summary_key(file@));
        }
    }
    false
}

fn latest(indexed: &Vec<(FileSummary, i32)>, i: usize) -> (res: bool)
    requires
        i < indexed.len(),
    ensures
        res == is_latest(indexed@, i as int),
{
    let mut j: usize = i + 1;
    while j < indexed.len()
        invariant
            i < j <= indexed.len(),
            forall|k: int| i < k < j ==> summary_key(#[trigger] indexed@[k].0@) != summary_key(indexed@[i as int].0@),
        decreases indexed.len() - j,
    {
        if indexed[j].0 == indexed[i].0 {
            return false;
        }
        j += 1;
    }
    true
}

/// Compares the indexed files (each with its database id) with the files
/// found on disk: the ids of the indexed files that are gone or changed are
/// to be deleted, and the found files that are not indexed yet are to be
/// added.
pub fn diff_files_with_db(indexed_files: &Vec<(FileSummary, i32)>, actual_files: Vec<FileSummary>) -> (res: FileDiff)
    ensures
        res.to_delete@ == ids_to_delete(indexed_files@, actual_files@),
        summary_views(res.to_add@) == files_to_add(indexed_files@, actual_files@),
{
    let mut to_delete: Vec<i32> = Vec::new();
    let mut i: usize = 0;
    while i < indexed_files.len()
        invariant
            i <= indexed_files.len(),
            to_delete@ == ids_to_delete_upto(indexed_files@, actual_files@, i as nat),
        decreases indexed_files.len() - i,
    {
        if latest(indexed_files, i) && !contains_file(&actual_files, &indexed_files[i].0) {
            to_delete.push(indexed_files[i].1);
        }
        i += 1;
    }
    let mut to_add: Vec<FileSummary> = Vec::new();
    let mut j: usize = 0;
    proof {
        assert(summary_views(to_add@) =~= files_to_add(indexed_files@, actual_files@.take(0)));
    }
    while j < actual_files.len()
        invariant
            j <= actual_files.len(),
            summary_views(to_add@) == files_to_add(indexed_files@, actual_files@.take(j as int)),
        decreases actual_files.len() - j,
    {
        proof {
            assert(actual_files@.take(j + 1).subrange(0, j as int) =~= actual_files@.take(j as int));
        }
        if !is_indexed(indexed_files, &actual_files[j]) && !contains_file(&to_add, &actual_files[j]) {
            let ghost before = to_add@;
            to_add.push(actual_files[j].clone());
            proof {
                assert(summary_views(to_add@) =~= summary_views(before).push(actual_files@[j as int]@));
                assert(keys_of(summary_views(before)) == keys_of(files_to_add(indexed_files@, actual_files@.take(j as int))));
            }
        }
        j += 1;
    }
    proof {
        assert(actual_files@.take(actual_files@.len() as int) =~= actual_files@);
    }
    FileDiff { to_delete, to_add }
}

proof fn lemma_to_delete_members(indexed: Seq<(FileSummary, i32)>, actual: Seq<FileSummary>, n: nat)
    requires
        n <= indexed.len(),
    ensures
        forall|i: int|
            0 <= i < n && is_latest(indexed, i) && !keys_of(summary_views(actual)).contains(
                summary_key(#[trigger] indexed[i].0@),
            ) ==> ids_to_delete_upto(indexed, actual, n).contains(indexed[i].1),
        forall|id: i32| #[trigger]
            ids_to_delete_upto(indexed, actual, n).contains(id) ==> exists|i: int|
                0 <= i < n && indexed[i].1 == id && is_latest(indexed, i) && !keys_of(summary_views(actual)).contains(
                    summary_key(#[trigger] indexed[i].0@),
                ),
    decreases n,
{
    if n > 0 {
        let m = (n - 1) as nat;
        lemma_to_delete_members(indexed, actual, m);
        let d = ids_to_delete_upto(indexed, actual, n);
        let dp = ids_to_delete_upto(indexed, actual, m);
        assert forall|i: int|
            0 <= i < n && is_latest(indexed, i) && !keys_of(summary_views(actual)).contains(
                summary_key(#[trigger] indexed[i].0@),
            ) implies d.contains(indexed[i].1) by {
            if i < m {
                let k = choose|k: int| 0 <= k < dp.len() && dp[k] == indexed[i].1;
                assert(d[k] == dp[k]);
            } else {
                assert(d[d.len() - 1] == indexed[i].1);
            }
        }
        assert forall|id: i32| #[trigger] d.contains(id) implies exists|i: int|
            0 <= i < n && indexed[i].1 == id && is_latest(indexed, i) && !keys_of(summary_views(actual)).contains(
                summary_key(#[trigger] indexed[i].0@),
            ) by {
            let k = choose|k: int| 0 <= k < d.len() && d[k] == id;
            if k < dp.len() {
                assert(dp[k] == id);
                assert(dp.contains(id));
            } else {
                assert(indexed[m as int].1 == id);
            }
        }
    }
}

proof fn lemma_to_add_members(indexed: Seq<(FileSummary, i32)>, actual: Seq<FileSummary>)
    ensures
        forall|k: (FileType, Seq<Seq<char>>, Seq<char>)| #[trigger]
            keys_of(files_to_add(indexed, actual)).contains(k) <==> (keys_of(summary_views(actual)).contains(k)
                && !keys_of(indexed_views(indexed)).contains(k)),
        forall|s: (FileType, Seq<char>, Seq<char>)| #[trigger]
            files_to_add(indexed, actual).contains(s) ==> summary_views(actual).contains(s),
        keys_of(files_to_add(indexed, actual)).no_duplicates(),
    decreases actual.len(),
{
    if actual.len() > 0 {
        let n = actual.len() - 1;
        let prev = actual.subrange(0, n);
        let last = actual[n];
        lemma_to_add_members(indexed, prev);
        let a = files_to_add(indexed, actual);
        let ap = files_to_add(indexed, prev);
        assert(summary_views(actual) =~= summary_views(prev).push(last@));
        assert(keys_of(summary_views(actual)) =~= keys_of(summary_views(prev)).push(summary_key(last@)));
        lemma_push_contains(summary_views(prev), last@);
        lemma_push_contains(keys_of(summary_views(prev)), summary_key(last@));
        if !(keys_of(indexed_views(indexed)).contains(summary_key(last@)) || keys_of(ap).contains(summary_key(last@))) {
            assert(a == ap.push(last@));
            assert(keys_of(a) =~= keys_of(ap).push(summary_key(last@)));
            lemma_push_contains(ap, last@);
            lemma_push_contains(keys_of(ap), summary_key(last@));
            lemma_push_no_duplicates(keys_of(ap), summary_key(last@));
        }
    }
}

proof fn lemma_push_contains<A>(s: Seq<A>, x: A)
    ensures
        forall|p: A| #[trigger] s.push(x).contains(p) <==> (s.contains(p) || p == x),
{
    assert forall|p: A| #[trigger] s.push(x).contains(p) <==> (s.contains(p) || p == x) by {
        if s.push(x).contains(p) {
            let j = choose|j: int| 0 <= j < s.len() + 1 && s.push(x)[j] == p;
            if j < s.len() {
                assert(s[j] == p);
            }
        }
        if s.contains(p) {
            let j = choose|j: int| 0 <= j < s.len() && s[j] == p;
            assert(s.push(x)[j] == p);
        }
        if p == x {
            assert(s.push(x)[s.len() as int] == p);
        }
    }
}

proof fn lemma_push_no_duplicates<A>(s: Seq<A>, x: A)
    requires
        s.no_duplicates(),
        !s.contains(x),
    ensures
        s.push(x).no_duplicates(),
{
    assert forall|i: int, j: int| 0 <= i < s.len() + 1 && 0 <= j < s.len() + 1 && i != j implies s.push(x)[i]
        != s.push(x)[j] by {
        if i == s.len() {
            assert(s.contains(s[j]));
        } else if j == s.len() {
            assert(s.contains(s[i]));
        }
    }
}

/// Every indexed file has a last entry, from `i` on.
proof fn lemma_latest_exists(indexed: Seq<(FileSummary, i32)>, i: int)
    requires
        0 <= i < indexed.len(),
    ensures
        exists|j: int|
            i <= j < indexed.len() && is_latest(indexed, j) && summary_key(#[trigger] indexed[j].0@) == summary_key(
                indexed[i].0@,
            ),
    decreases indexed.len() - i,
{
    if !is_latest(indexed, i) {
        let j = choose|j: int| i < j < indexed.len() && summary_key(#[trigger] indexed[j].0@) == summary_key(indexed[i].0@);
        lemma_latest_exists(indexed, j);
    } else {
        assert(summary_key(indexed[i].0@) == summary_key(indexed[i].0@));
    }
}

/// Applying the diff brings the index in line with the files on disk. The
/// index keeps, of the entries for one file, the last one's id. Such an
/// entry is deleted exactly when its file is not among the actual files; the
/// files added are exactly the actual files not yet indexed, each once; so
/// the files whose kept entry stays, with the files added, are exactly the
/// actual files.
pub proof fn lemma_diff_syncs_index(indexed: Seq<(FileSummary, i32)>, actual: Seq<FileSummary>)
    requires
        forall|i: int, j: int|
            0 <= i < indexed.len() && 0 <= j < indexed.len() && i != j ==> #[trigger] indexed[i].1
                != #[trigger] indexed[j].1,
    ensures
        forall|i: int|
            0 <= i < indexed.len() ==> (ids_to_delete(indexed, actual).contains(#[trigger] indexed[i].1) <==> (
            is_latest(indexed, i) && !keys_of(summary_views(actual)).contains(summary_key(indexed[i].0@)))),
        forall|k: (FileType, Seq<Seq<char>>, Seq<char>)| #[trigger]
            keys_of(files_to_add(indexed, actual)).contains(k) ==> !keys_of(indexed_views(indexed)).contains(k),
        keys_of(files_to_add(indexed, actual)).no_duplicates(),
        forall|k: (FileType, Seq<Seq<char>>, Seq<char>)| #[trigger]
            keys_of(summary_views(actual)).contains(k) <==> ((exists|i: int|
                0 <= i < indexed.len() && is_latest(indexed, i) && summary_key(#[trigger] indexed[i].0@) == k
                    && !ids_to_delete(indexed, actual).contains(indexed[i].1)) || keys_of(
                files_to_add(indexed, actual),
            ).contains(k)),
{
    lemma_to_delete_members(indexed, actual, indexed.len());
    lemma_to_add_members(indexed, actual);
    let d = ids_to_delete(indexed, actual);
    let ak = keys_of(summary_views(actual));
    assert forall|i: int| 0 <= i < indexed.len() implies (d.contains(#[trigger] indexed[i].1) <==> (is_latest(
        indexed,
        i,
    ) && !ak.contains(summary_key(indexed[i].0@)))) by {
        if d.contains(indexed[i].1) {
            let j = choose|j: int|
                0 <= j < indexed.len() && indexed[j].1 == indexed[i].1 && is_latest(indexed, j) && !ak.contains(
                    summary_key(#[trigger] indexed[j].0@),
                );
            assert(i == j);
        }
    }
    assert forall|k: (FileType, Seq<Seq<char>>, Seq<char>)| #[trigger] ak.contains(k) <==> ((exists|i: int|
        0 <= i < indexed.len() && is_latest(indexed, i) && summary_key(#[trigger] indexed[i].0@) == k && !d.contains(
            indexed[i].1,
        )) || keys_of(files_to_add(indexed, actual)).contains(k)) by {
        if ak.contains(k) && keys_of(indexed_views(indexed)).contains(k) {
            let i = choose|i: int| 0 <= i < indexed.len() && keys_of(indexed_views(indexed))[i] == k;
            assert(summary_key(indexed[i].0@) == k);
            lemma_latest_exists(indexed, i);
            let j = choose|j: int|
                i <= j < indexed.len() && is_latest(indexed, j) && summary_key(#[trigger] indexed[j].0@)
                    == summary_key(indexed[i].0@);
            assert(!d.contains(indexed[j].1));
        }
    }
}

/// Comparing an index that already holds exactly the actual files finds
/// nothing to delete and nothing to add.
pub proof fn lemma_diff_of_synced_index_is_empty(indexed: Seq<(FileSummary, i32)>, actual: Seq<FileSummary>)
    requires
        forall|k: (FileType, Seq<Seq<char>>, Seq<char>)| #[trigger]
            keys_of(indexed_views(indexed)).contains(k) <==> keys_of(summary_views(actual)).contains(k),
    ensures
        ids_to_delete(indexed, actual).len() == 0,
        files_to_add(indexed, actual).len() == 0,
{
    lemma_to_delete_members(indexed, actual, indexed.len());
    lemma_to_add_members(indexed, actual);
    let d = ids_to_delete(indexed, actual);
    if d.len() > 0 {
        assert(d.contains(d[0]));
        let i = choose|i: int|
            0 <= i < indexed.len() && indexed[i].1 == d[0] && is_latest(indexed, i) && !keys_of(
                summary_views(actual),
            ).contains(summary_key(#[trigger] indexed[i].0@));
        assert(keys_of(indexed_views(indexed))[i] == summary_key(indexed[i].0@));
        assert(keys_of(indexed_views(indexed)).contains(summary_key(indexed[i].0@)));
    }
    let a = files_to_add(indexed, actual);
    if a.len() > 0 {
        assert(keys_of(a)[0] == summary_key(a[0]));
        assert(keys_of(a).contains(keys_of(a)[0]));
    }
}

} // verus!
