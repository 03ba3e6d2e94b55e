//! Which file events concern the config. Watching the directory and letting a
//! burst of events settle before reporting it once belong to the platform
//! layer.

use vstd::prelude::*;

use crate::paths::{file_name_of, path_file_name};
use crate::text::{concat, str_eq};

verus! {

/// How long the directory must stay quiet after the last event of a burst
/// before the burst is reported, once.
pub const QUIET_MS: u64 = 300;

/// The two file names a save touches: the config itself, and the temporary
/// file it is written to first and renamed from.
pub struct FileNames {
    pub config: String,
    pub tmp: String,
}

/// The file name `name`, if there is one, is one a save touches.
pub open spec fn names_one(names: FileNames, name: Option<String>) -> bool {
    match name {
        Some(n) => n@ == names.config@ || n@ == names.tmp@,
        None => false,
    }
}

impl FileNames {
    /// The names for the config at `config_path`; a path without a file name
    /// stands for itself.
    pub fn of(config_path: &str) -> (r: FileNames)
        ensures
            r.config@ == match path_file_name(config_path@) {
                Some(n) => n,
                None => config_path@,
            },
            r.tmp@ == r.config@ + ".tmp"@,
    {
        let config = match file_name_of(config_path) {
            Some(n) => n,
            None => config_path.to_owned(),
        };
        let tmp = concat(config.as_str(), ".tmp");
        FileNames { config, tmp }
    }

    /// Does an event on these paths (by their file names) concern the config?
    pub fn matches(&self, names: &[Option<String>]) -> (r: bool)
        ensures
            r == exists|i: int| 0 <= i < names@.len() && names_one(*self, #[trigger] names@[i]),
    {
        let mut i: usize = 0;
        while i < names.len()
            invariant
                i <= names@.len(),
                forall|j: int| 0 <= j < i ==> !names_one(*self, #[trigger] names@[j]),
            decreases names@.len() - i,
        {
            match &names[i] {
                Some(n) => {
                    if str_eq(n.as_str(), self.config.as_str()) || str_eq(n.as_str(), self.tmp.as_str()) {
                        assert(names_one(*self, names@[i as int]));
                        return true;
                    }
                },
                None => {},
            }
            i = i + 1;
        }
        false
    }
}

} // verus!
