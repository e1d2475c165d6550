//! Engine configuration, constructed once at startup and passed explicitly
//! into every component that needs it.

use vstd::prelude::*;
use vstd::string::*;

verus! {

/// Where the per-token directories live.
#[derive(Debug)]
pub struct VracConfig {
    /// The storage root; every token directory sits directly under it.
    pub root_path: String,
}

impl VracConfig {
    /// A configuration rooted at the given path.
    pub fn new(root_path: String) -> (r: VracConfig)
        ensures
            r.root_path@ == root_path@,
    {
        VracConfig { root_path }
    }
}

impl Default for VracConfig {
    /// The default root is the current directory.
    fn default() -> (r: VracConfig)
        ensures
            r.root_path@ == "."@,
    {
        VracConfig { root_path: String::from_str(".") }
    }
}

} // verus!
