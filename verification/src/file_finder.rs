use vstd::prelude::*;

use crate::paths::{extension, file_name, spec_extension, spec_file_name};
use crate::text::{opt_view, text_is};
use crate::types::FileType;

verus! {

/// A source file found on disk, with the kind of its content.
#[derive(Debug)]
pub struct FoundFile {
    pub file_type: FileType,
    pub path: String,
}

impl View for FoundFile {
    type V = (FileType, Seq<char>);

    open spec fn view(&self) -> (FileType, Seq<char>) {
        (self.file_type, self.path@)
    }
}

/// The paths found by walking each configured source directory, one list
/// per directory in the order of the configuration.
pub struct WalkedSources {
    pub telegram: Vec<Vec<String>>,
    pub single_file_z: Vec<Vec<String>>,
    pub scrapbook: Vec<Vec<String>>,
    pub onetab: Vec<Vec<String>>,
}

/// Whether a path names a file of the given kind: a Telegram export is a
/// `result.json`, a SingleFileZ page has the extension `html`, a Scrapbook
/// is a `scrapbook.rdf` and a OneTab export has the extension `json`.
pub open spec fn is_source_file(t: FileType, path: Seq<char>) -> bool {
    match t {
        FileType::Telegram => spec_file_name(path) == Some("result.json"@),
        FileType::SingleFileZ => spec_extension(path) == Some("html"@),
        FileType::Scrapbook => spec_file_name(path) == Some("scrapbook.rdf"@),
        FileType::OneTab => spec_extension(path) == Some("json"@),
    }
}

/// The files of kind `t` among the walked paths, in order.
pub open spec fn found_in(t: FileType, walked: Seq<String>) -> Seq<(FileType, Seq<char>)>
    decreases walked.len(),
{
    if walked.len() == 0 {
        seq![]
    } else {
        let last = walked[walked.len() - 1];
        let prev = found_in(t, walked.subrange(0, walked.len() - 1));
        if is_source_file(t, last@) {
            prev.push((t, last@))
        } else {
            prev
        }
    }
}

/// The files of kind `t` found in each of the walked directories, in order.
pub open spec fn found_in_dirs(t: FileType, dirs: Seq<Vec<String>>) -> Seq<(FileType, Seq<char>)>
    decreases dirs.len(),
{
    if dirs.len() == 0 {
        seq![]
    } else {
        found_in_dirs(t, dirs.subrange(0, dirs.len() - 1)) + found_in(t, dirs[dirs.len() - 1]@)
    }
}

/// The views of found files.
pub open spec fn found_views(files: Seq<FoundFile>) -> Seq<(FileType, Seq<char>)> {
    files.map_values(|f: FoundFile| f@)
}

/// Whether a file with the given final component and extension is a source
/// file of kind `t` (see `is_source_file`).
pub fn is_source_name(t: FileType, name: &Option<String>, ext: &Option<String>) -> (res: bool)
    ensures
        res == match t {
            FileType::Telegram => opt_view(*name) == Some("result.json"@),
            FileType::SingleFileZ => opt_view(*ext) == Some("html"@),
            FileType::Scrapbook => opt_view(*name) == Some("scrapbook.rdf"@),
            FileType::OneTab => opt_view(*ext) == Some("json"@),
        },
{
    match t {
        FileType::Telegram => match name {
            Some(n) => text_is(n.as_str(), "result.json"),
            None => false,
        },
        FileType::SingleFileZ => match ext {
            Some(e) => text_is(e.as_str(), "html"),
            None => false,
        },
        FileType::Scrapbook => match name {
            Some(n) => text_is(n.as_str(), "scrapbook.rdf"),
            None => false,
        },
        FileType::OneTab => match ext {
            Some(e) => text_is(e.as_str(), "json"),
            None => false,
        },
    }
}

fn is_source_file_exec(t: FileType, path: &str) -> (res: bool)
    ensures
        res == is_source_file(t, path@),
{
    let name = file_name(path);
    let ext = extension(path);
    is_source_name(t, &name, &ext)
}

fn find_of_type(t: FileType, walked: &Vec<String>, found: &mut Vec<FoundFile>)
    ensures
        found_views(final(found)@) == found_views(old(found)@) + found_in(t, walked@),
{
    let ghost start = found_views(found@);
    let mut i: usize = 0;
    proof {
        assert(found_in(t, walked@.take(0)) =~= Seq::<(FileType, Seq<char>)>::empty());
        assert(found_views(found@) =~= start + found_in(t, walked@.take(0)));
    }
    while i < walked.len()
        invariant
            i <= walked.len(),
            found_views(found@) == start + found_in(t, walked@.take(i as int)),
        decreases walked.len() - i,
    {
        proof {
            assert(walked@.take(i + 1).subrange(0, i as int) =~= walked@.take(i as int));
        }
        let ghost before = found@;
        if is_source_file_exec(t, walked[i].as_str()) {
            found.push(FoundFile { file_type: t, path: walked[i].clone() });
            proof {
                assert(found_views(found@) =~= found_views(before).push((t, walked@[i as int]@)));
            }
        }
        i += 1;
    }
    proof {
        assert(walked@.take(walked@.len() as int) =~= walked@);
    }
}

fn find_in_dirs(t: FileType, dirs: &Vec<Vec<String>>, found: &mut Vec<FoundFile>)
    ensures
        found_views(final(found)@) == found_views(old(found)@) + found_in_dirs(t, dirs@),
{
    let ghost start = found_views(found@);
    let mut i: usize = 0;
    proof {
        assert(found_in_dirs(t, dirs@.take(0)) =~= Seq::<(FileType, Seq<char>)>::empty());
        assert(found_views(found@) =~= start + found_in_dirs(t, dirs@.take(0)));
    }
    while i < dirs.len()
        invariant
            i <= dirs.len(),
            found_views(found@) == start + found_in_dirs(t, dirs@.take(i as int)),
        decreases dirs.len() - i,
    {
        proof {
            assert(dirs@.take(i + 1).subrange(0, i as int) =~= dirs@.take(i as int));
        }
        let ghost before = found_views(found@);
        find_of_type(t, &dirs[i], found);
        proof {
            assert(found_views(found@) =~= start + found_in_dirs(t, dirs@.take(i + 1)));
        }
        i += 1;
    }
    proof {
        assert(dirs@.take(dirs@.len() as int) =~= dirs@);
    }
}

/// The Telegram exports among the paths found in a source directory.
pub fn find_telegram(walked: &Vec<String>) -> (res: Vec<FoundFile>)
    ensures
        found_views(res@) == found_in(FileType::Telegram, walked@),
{
    let mut found = Vec::new();
    find_of_type(FileType::Telegram, walked, &mut found);
    proof {
        assert(found_views(Seq::<FoundFile>::empty()) + found_in(FileType::Telegram, walked@)
            =~= found_in(FileType::Telegram, walked@));
    }
    found
}

/// The SingleFileZ pages among the paths found in a source directory.
pub fn find_singlefile_z(walked: &Vec<String>) -> (res: Vec<FoundFile>)
    ensures
        found_views(res@) == found_in(FileType::SingleFileZ, walked@),
{
    let mut found = Vec::new();
    find_of_type(FileType::SingleFileZ, walked, &mut found);
    proof {
        assert(found_views(Seq::<FoundFile>::empty()) + found_in(FileType::SingleFileZ, walked@)
            =~= found_in(FileType::SingleFileZ, walked@));
    }
    found
}

/// The Scrapbooks among the paths found in a source directory.
pub fn find_scrapbooks(walked: &Vec<String>) -> (res: Vec<FoundFile>)
    ensures
        found_views(res@) == found_in(FileType::Scrapbook, walked@),
{
    let mut found = Vec::new();
    find_of_type(FileType::Scrapbook, walked, &mut found);
    proof {
        assert(found_views(Seq::<FoundFile>::empty()) + found_in(FileType::Scrapbook, walked@)
            =~= found_in(FileType::Scrapbook, walked@));
    }
    found
}

/// The OneTab exports among the paths found in a source directory.
pub fn find_onetab(walked: &Vec<String>) -> (res: Vec<FoundFile>)
    ensures
        found_views(res@) == found_in(FileType::OneTab, walked@),
{
    let mut found = Vec::new();
    find_of_type(FileType::OneTab, walked, &mut found);
    proof {
        assert(found_views(Seq::<FoundFile>::empty()) + found_in(FileType::OneTab, walked@)
            =~= found_in(FileType::OneTab, walked@));
    }
    found
}

/// All source files found in the walked source directories: the Telegram
/// exports, then the SingleFileZ pages, the Scrapbooks and the OneTab
/// exports, each in the order of the directories and of the walk.
pub fn find_all(walked: &WalkedSources) -> (res: Vec<FoundFile>)
    ensures
        found_views(res@) == found_in_dirs(FileType::Telegram, walked.telegram@) + found_in_dirs(
            FileType::SingleFileZ,
            walked.single_file_z@,
        ) + found_in_dirs(FileType::Scrapbook, walked.scrapbook@) + found_in_dirs(
            FileType::OneTab,
            walked.onetab@,
        ),
{
    let mut found = Vec::new();
    proof {
        assert(found_views(found@) =~= Seq::<(FileType, Seq<char>)>::empty());
    }
    find_in_dirs(FileType::Telegram, &walked.telegram, &mut found);
    find_in_dirs(FileType::SingleFileZ, &walked.single_file_z, &mut found);
    find_in_dirs(FileType::Scrapbook, &walked.scrapbook, &mut found);
    find_in_dirs(FileType::OneTab, &walked.onetab, &mut found);
    proof {
        assert(found_views(found@) =~= found_in_dirs(FileType::Telegram, walked.telegram@)
            + found_in_dirs(FileType::SingleFileZ, walked.single_file_z@) + found_in_dirs(
            FileType::Scrapbook,
            walked.scrapbook@,
        ) + found_in_dirs(FileType::OneTab, walked.onetab@));
    }
    found
}

/// Walking a directory finds exactly its source files of a kind: files
/// named `result.json` (Telegram) or `scrapbook.rdf` (Scrapbook), files with
/// the extension `html` (SingleFileZ) or `json` (OneTab). Each file found is
/// a walked path of that kind, each walked path of that kind is found, and
/// the order of the walk is kept: the files found in two parts of a walk are
/// those of the first part, then those of the second.
pub proof fn lemma_found_in_exact(t: FileType, w: Seq<String>, a: Seq<String>, b: Seq<String>)
    ensures
        forall|k: int|
            0 <= k < found_in(t, w).len() ==> (#[trigger] found_in(t, w)[k]).0 == t && (exists|j: int|
                0 <= j < w.len() && w[j]@ == found_in(t, w)[k].1) && ((t == FileType::Telegram && spec_file_name(found_in(t, w)[k].1) == Some("result.json"@)) || (t == FileType::SingleFileZ
                    && spec_extension(found_in(t, w)[k].1) == Some("html"@)) || (t == FileType::Scrapbook && spec_file_name(found_in(t, w)[k].1) == Some(
                    "scrapbook.rdf"@,
                )) || (t == FileType::OneTab && spec_extension(found_in(t, w)[k].1) == Some("json"@))),
        forall|j: int|
            0 <= j < w.len() && ((t == FileType::Telegram && spec_file_name(w[j]@) == Some("result.json"@)) || (t == FileType::SingleFileZ
                    && spec_extension(w[j]@) == Some("html"@)) || (t == FileType::Scrapbook && spec_file_name(w[j]@) == Some(
                    "scrapbook.rdf"@,
                )) || (t == FileType::OneTab && spec_extension(w[j]@) == Some("json"@))) ==> found_in(t, w).contains((t, #[trigger] w[j]@)),
        found_in(t, a + b) == found_in(t, a) + found_in(t, b),
{
    lemma_found_in_members(t, w);
    lemma_found_in_concat(t, a, b);
}

proof fn lemma_found_in_members(t: FileType, w: Seq<String>)
    ensures
        forall|k: int|
            0 <= k < found_in(t, w).len() ==> (#[trigger] found_in(t, w)[k]).0 == t && (exists|j: int|
                0 <= j < w.len() && w[j]@ == found_in(t, w)[k].1) && ((t == FileType::Telegram && spec_file_name(found_in(t, w)[k].1) == Some("result.json"@)) || (t == FileType::SingleFileZ
                    && spec_extension(found_in(t, w)[k].1) == Some("html"@)) || (t == FileType::Scrapbook && spec_file_name(found_in(t, w)[k].1) == Some(
                    "scrapbook.rdf"@,
                )) || (t == FileType::OneTab && spec_extension(found_in(t, w)[k].1) == Some("json"@))),
        forall|j: int|
            0 <= j < w.len() && ((t == FileType::Telegram && spec_file_name(w[j]@) == Some("result.json"@)) || (t == FileType::SingleFileZ
                    && spec_extension(w[j]@) == Some("html"@)) || (t == FileType::Scrapbook && spec_file_name(w[j]@) == Some(
                    "scrapbook.rdf"@,
                )) || (t == FileType::OneTab && spec_extension(w[j]@) == Some("json"@))) ==> found_in(t, w).contains((t, #[trigger] w[j]@)),
    decreases w.len(),
{
    if w.len() > 0 {
        let n = w.len() - 1;
        let prev = w.subrange(0, n);
        lemma_found_in_members(t, prev);
        let fp = found_in(t, prev);
        let f = found_in(t, w);
        assert forall|k: int|
            0 <= k < f.len() implies (#[trigger] f[k]).0 == t && (exists|j: int|
                0 <= j < w.len() && w[j]@ == f[k].1) && ((t == FileType::Telegram && spec_file_name(f[k].1) == Some("result.json"@)) || (t == FileType::SingleFileZ
                    && spec_extension(f[k].1) == Some("html"@)) || (t == FileType::Scrapbook && spec_file_name(f[k].1) == Some(
                    "scrapbook.rdf"@,
                )) || (t == FileType::OneTab && spec_extension(f[k].1) == Some("json"@))) by {
            if k < fp.len() {
                assert(f[k] == fp[k]);
                let j = choose|j: int| 0 <= j < prev.len() && prev[j]@ == fp[k].1;
                assert(w[j] == prev[j]);
            } else {
                assert(w[n]@ == f[k].1);
            }
        }
        assert forall|j: int|
            0 <= j < w.len() && ((t == FileType::Telegram && spec_file_name(w[j]@) == Some("result.json"@)) || (t == FileType::SingleFileZ
                    && spec_extension(w[j]@) == Some("html"@)) || (t == FileType::Scrapbook && spec_file_name(w[j]@) == Some(
                    "scrapbook.rdf"@,
                )) || (t == FileType::OneTab && spec_extension(w[j]@) == Some("json"@))) implies f.contains((t, #[trigger] w[j]@)) by {
            if j < n {
                assert(w[j] == prev[j]);
                assert(fp.contains((t, prev[j]@)));
                let k = choose|k: int| 0 <= k < fp.len() && fp[k] == (t, prev[j]@);
                assert(f[k] == fp[k]);
            } else {
                assert(f[f.len() - 1] == (t, w[n]@));
            }
        }
    }
}

proof fn lemma_found_in_concat(t: FileType, a: Seq<String>, b: Seq<String>)
    ensures
        found_in(t, a + b) == found_in(t, a) + found_in(t, b),
    decreases b.len(),
{
    if b.len() == 0 {
        assert(a + b =~= a);
        assert(found_in(t, a) + found_in(t, b) =~= found_in(t, a));
    } else {
        let b0 = b.subrange(0, b.len() - 1);
        lemma_found_in_concat(t, a, b0);
        assert((a + b).subrange(0, (a + b).len() - 1) =~= a + b0);
        assert((a + b)[(a + b).len() - 1] == b[b.len() - 1]);
        if is_source_file(t, b[b.len() - 1]@) {
            assert(found_in(t, a) + found_in(t, b) =~= (found_in(t, a) + found_in(t, b0)).push(
                (t, b[b.len() - 1]@),
            ));
        } else {
            assert(found_in(t, a) + found_in(t, b) =~= found_in(t, a) + found_in(t, b0));
        }
    }
}

} // verus!
