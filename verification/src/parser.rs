//! The configuration file's conventional location.  Decoding the textual
//! format and reading it from disk belong to the surrounding binary; the
//! engine only fixes where the file lives.

use vstd::prelude::*;

verus! {

/// Config parser for the moli.yml format.
pub struct ConfigParser;

impl ConfigParser {
    /// Get default config file path
    pub fn default_config_path() -> (r: &'static str)
        ensures
            r@ == "moli.yml"@,
    {
        "moli.yml"
    }
}

} // verus!
