//! The engine's configuration.

use vstd::prelude::*;

verus! {

/// Where the segments live and how large the active one may grow before the
/// engine starts a new one.
pub struct Config {
    pub dir_path: String,
    pub max_file_size: u32,
}

impl Default for Config {
    /// No directory and a size limit of zero.
    fn default() -> (config: Config)
        ensures
            config.dir_path@ == Seq::<char>::empty(),
            config.max_file_size == 0,
    {
        Config { dir_path: String::new(), max_file_size: 0 }
    }
}

} // verus!
