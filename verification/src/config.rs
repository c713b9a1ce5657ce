//! The immutable configuration the process builds once at start and passes
//! by reference; nothing re-reads the environment per request.

use vstd::prelude::*;

verus! {

/// Connection settings for the record store.
pub struct Config {
    pub mongodb_url: String,
}

impl Config {
    /// Holds the settings the process start handed in.
    pub fn new(mongodb_url: String) -> (r: Config)
        ensures
            r.mongodb_url@ == mongodb_url@,
    {
        Config { mongodb_url }
    }
}

} // verus!
