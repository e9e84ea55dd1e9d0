use vstd::prelude::*;

verus! {

/// The source directories to index, by kind of source.
#[derive(Debug)]
pub struct SourcesConfig {
    telegram: Vec<String>,
    single_file_z: Vec<String>,
    scrapbook: Vec<String>,
    onetab: Vec<String>,
}

/// The directories of a configuration, as character sequences.
pub open spec fn dir_views(dirs: Seq<String>) -> Seq<Seq<char>> {
    dirs.map_values(|d: String| d@)
}

impl SourcesConfig {
    /// The directories of Telegram exports.
    pub closed spec fn telegram_view(&self) -> Seq<String> {
        self.telegram@
    }

    /// The directories of SingleFileZ pages.
    pub closed spec fn single_file_z_view(&self) -> Seq<String> {
        self.single_file_z@
    }

    /// The directories of Scrapbooks.
    pub closed spec fn scrapbook_view(&self) -> Seq<String> {
        self.scrapbook@
    }

    /// The directories of OneTab exports.
    pub closed spec fn onetab_view(&self) -> Seq<String> {
        self.onetab@
    }

    /// A configuration with the given directories.
    pub fn new(telegram: Vec<String>, single_file_z: Vec<String>, scrapbook: Vec<String>, onetab: Vec<String>) -> (res: SourcesConfig)
        ensures
            res.telegram_view() == telegram@,
            res.single_file_z_view() == single_file_z@,
            res.scrapbook_view() == scrapbook@,
            res.onetab_view() == onetab@,
    {
        SourcesConfig { telegram, single_file_z, scrapbook, onetab }
    }

    /// The directories of Telegram exports.
    pub fn telegram(&self) -> (res: &[String])
        ensures
            res@ == self.telegram_view(),
    {
        self.telegram.as_slice()
    }

    /// The directories of SingleFileZ pages.
    pub fn single_file_z(&self) -> (res: &[String])
        ensures
            res@ == self.single_file_z_view(),
    {
        self.single_file_z.as_slice()
    }

    /// The directories of Scrapbooks.
    pub fn scrapbook(&self) -> (res: &[String])
        ensures
            res@ == self.scrapbook_view(),
    {
        self.scrapbook.as_slice()
    }

    /// The directories of OneTab exports.
    pub fn onetab(&self) -> (res: &[String])
        ensures
            res@ == self.onetab_view(),
    {
        self.onetab.as_slice()
    }

    /// All configured directories: the Telegram ones, then the SingleFileZ,
    /// Scrapbook and OneTab ones.
    pub open spec fn spec_paths(&self) -> Seq<Seq<char>> {
        dir_views(self.telegram_view()) + dir_views(self.single_file_z_view()) + dir_views(
            self.scrapbook_view(),
        ) + dir_views(self.onetab_view())
    }

    /// All configured directories: the Telegram ones, then the SingleFileZ,
    /// Scrapbook and OneTab ones.
    pub fn iter_paths(&self) -> (res: Vec<String>)
        ensures
            dir_views(res@) == self.spec_paths(),
    {
        let mut res: Vec<String> = Vec::new();
        append_dirs(&mut res, &self.telegram);
        append_dirs(&mut res, &self.single_file_z);
        append_dirs(&mut res, &self.scrapbook);
        append_dirs(&mut res, &self.onetab);
        proof {
            assert(dir_views(res@) =~= self.spec_paths());
        }
        res
    }
}

/// All configured directories are every directory of each kind, in the
/// order of the kinds (Telegram, SingleFileZ, Scrapbook, OneTab) and, within
/// a kind, of the configuration.
pub proof fn lemma_paths_list_every_kind(c: SourcesConfig)
    ensures
        c.spec_paths().len() == c.telegram_view().len() + c.single_file_z_view().len() + c.scrapbook_view().len()
            + c.onetab_view().len(),
        forall|i: int| 0 <= i < c.telegram_view().len() ==> c.spec_paths()[i] == (#[trigger] c.telegram_view()[i])@,
        forall|i: int|
            0 <= i < c.single_file_z_view().len() ==> c.spec_paths()[c.telegram_view().len() + i]
                == (#[trigger] c.single_file_z_view()[i])@,
        forall|i: int|
            0 <= i < c.scrapbook_view().len() ==> c.spec_paths()[c.telegram_view().len()
                + c.single_file_z_view().len() + i] == (#[trigger] c.scrapbook_view()[i])@,
        forall|i: int|
            0 <= i < c.onetab_view().len() ==> c.spec_paths()[c.telegram_view().len()
                + c.single_file_z_view().len() + c.scrapbook_view().len() + i] == (#[trigger] c.onetab_view()[i])@,
{
}

fn append_dirs(out: &mut Vec<String>, dirs: &Vec<String>)
    ensures
        dir_views(final(out)@) == dir_views(old(out)@) + dir_views(dirs@),
{
    let ghost start = dir_views(out@);
    let mut i: usize = 0;
    proof {
        assert(dir_views(out@) =~= start + dir_views(dirs@.take(0)));
    }
    while i < dirs.len()
        invariant
            i <= dirs.len(),
            dir_views(out@) == start + dir_views(dirs@.take(i as int)),
        decreases dirs.len() - i,
    {
        let ghost before = out@;
        out.push(dirs[i].clone());
        proof {
            assert(dir_views(out@) =~= dir_views(before).push(dirs@[i as int]@));
            assert(dirs@.take(i + 1) =~= dirs@.take(i as int).push(dirs@[i as int]));
            assert(dir_views(dirs@.take(i + 1)) =~= dir_views(dirs@.take(i as int)).push(dirs@[i as int]@));
            assert(dir_views(out@) =~= start + dir_views(dirs@.take(i + 1)));
        }
        i += 1;
    }
    proof {
        assert(dirs@.take(dirs@.len() as int) =~= dirs@);
    }
}

} // verus!
