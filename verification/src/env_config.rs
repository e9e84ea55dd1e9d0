use vstd::prelude::*;

verus! {

/// The settings of the sync service: the database URL, the path of the
/// sources configuration and the filter of the crates that may log.
#[derive(Debug)]
pub struct EnvConfig {
    db: String,
    sources: String,
    log: String,
}

impl EnvConfig {
    /// The database URL.
    pub closed spec fn db_view(&self) -> Seq<char> {
        self.db@
    }

    /// The path of the sources configuration.
    pub closed spec fn sources_view(&self) -> Seq<char> {
        self.sources@
    }

    /// The filter of the crates that may log.
    pub closed spec fn log_view(&self) -> Seq<char> {
        self.log@
    }

    /// Settings with all values given.
    pub fn new(db: String, sources: String, log: String) -> (res: EnvConfig)
        ensures
            res.db_view() == db@,
            res.sources_view() == sources@,
            res.log_view() == log@,
    {
        EnvConfig { db, sources, log }
    }

    /// The database URL.
    pub fn db(&self) -> (res: &str)
        ensures
            res@ == self.db_view(),
    {
        self.db.as_str()
    }

    /// The path of the sources configuration.
    pub fn sources(&self) -> (res: &str)
        ensures
            res@ == self.sources_view(),
    {
        self.sources.as_str()
    }

    /// The filter of the crates that may log.
    pub fn log(&self) -> (res: &str)
        ensures
            res@ == self.log_view(),
    {
        self.log.as_str()
    }
}

/// The path of the sources configuration when none is set.
pub fn default_sources() -> (res: String)
    ensures
        res@ == "config.json"@,
{
    String::from_str("config.json")
}

/// The log filter when none is set: the sync service's own logs and the
/// database layer's.
pub fn default_log_filter() -> (res: String)
    ensures
        res@ == "indexref_sync,sea_orm"@,
{
    String::from_str("indexref_sync,sea_orm")
}

} // verus!
