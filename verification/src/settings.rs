//! The settings the application keeps between runs.
use vstd::prelude::*;

verus! {

/// The saved settings: the gallery's root folder.
#[derive(Debug, Clone)]
pub struct Settings {
    pub root_dir_path: String,
}

impl Settings {
    /// Settings naming `root_dir_path` as the root folder.
    pub fn new(root_dir_path: String) -> (r: Settings)
        ensures
            r.root_dir_path == root_dir_path,
    {
        Settings { root_dir_path }
    }
}

impl Default for Settings {
    /// No root folder saved.
    fn default() -> (r: Self)
        ensures
            r.root_dir_path@ == Seq::<char>::empty(),
    {
        Settings { root_dir_path: String::new() }
    }
}

} // verus!
