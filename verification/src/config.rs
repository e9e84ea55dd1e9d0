use vstd::prelude::*;

verus! {

/// The settings of the server: the database URL, the port to serve on and
/// the filter of the crates that may log.
#[derive(Debug)]
pub struct Config {
    db: String,
    port: u16,
    log: String,
}

impl Config {
    /// The database URL.
    pub closed spec fn db_view(&self) -> Seq<char> {
        self.db@
    }

    /// The port to serve on.
    pub closed spec fn port_view(&self) -> u16 {
        self.port
    }

    /// The filter of the crates that may log.
    pub closed spec fn log_view(&self) -> Seq<char> {
        self.log@
    }

    /// Settings with all values given.
    pub fn new(db: String, port: u16, log: String) -> (res: Config)
        ensures
            res.db_view() == db@,
            res.port_view() == port,
            res.log_view() == log@,
    {
        Config { db, port, log }
    }

    /// The database URL.
    pub fn db(&self) -> (res: &str)
        ensures
            res@ == self.db_view(),
    {
        self.db.as_str()
    }

    /// The port to serve on.
    pub fn port(&self) -> (res: u16)
        ensures
            res == self.port_view(),
    {
        self.port
    }

    /// The filter of the crates that may log.
    pub fn log(&self) -> (res: &str)
        ensures
            res@ == self.log_view(),
    {
        self.log.as_str()
    }
}

/// The log filter when none is set: the server's own logs and the
/// database layer's.
pub fn default_log_filter() -> (res: String)
    ensures
        res@ == "indexref_serve,sea_orm"@,
{
    String::from_str("indexref_serve,sea_orm")
}

/// The port when none is set.
pub fn default_port() -> (res: u16)
    ensures
        res == 80,
{
    80
}

} // verus!
