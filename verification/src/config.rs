//! The explicit context a caller threads through the core: where the
//! store lives and the master secret every cipher is derived from.

use vstd::prelude::*;
use vstd::string::StringExecFns;

verus! {

/// Configuration handed in by the (unverified) bootstrap layer.
#[derive(Debug, Clone)]
pub struct Config {
    /// Directory that holds the persistent store.
    pub data_dir: String,
    /// The process-wide master secret that keys are derived from.
    pub master_key: String,
}

impl Config {
    /// The path of the store file inside the data directory.
    pub fn db_path(&self) -> (r: String)
        ensures
            r@ == self.data_dir@ + "/snippets.db"@,
    {
        let p = self.data_dir.clone();
        p.concat("/snippets.db")
    }
}

} // verus!
