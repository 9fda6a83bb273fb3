//! A library in a local folder.

use vstd::prelude::*;
use crate::paths;

verus! {

/// A library rooted at a folder of the local filesystem.
pub struct LocalStorage {
    pub root_path: String,
}

impl LocalStorage {
    /// A library rooted at `root_path`; a relative root is taken relative to
    /// `current_dir`, the working directory of the process.
    pub fn new(root_path: &str, current_dir: &str) -> (r: Self)
        ensures
            r.root_path@ == paths::path_join(current_dir@, root_path@),
    {
        LocalStorage { root_path: paths::join_path(current_dir, root_path) }
    }

    /// Where `path` is on disk: itself when absolute, else under the root.
    pub fn full_path(&self, path: &str) -> (r: String)
        ensures
            r@ == paths::path_join(self.root_path@, path@),
    {
        paths::join_path(&self.root_path, path)
    }

    /// How a path found under the root is listed: relative to the root, or
    /// as it is when the root does not start it.
    pub fn relative_path(&self, path: &str) -> (r: String)
        ensures
            r@ == match paths::strip_prefix_of(path@, self.root_path@) {
                Some(p) => p,
                None => path@,
            },
    {
        match paths::strip_path_prefix(path, &self.root_path) {
            Some(p) => p,
            None => path.to_string(),
        }
    }

    /// The name of this kind of storage, for display.
    pub fn storage_type(&self) -> (r: &'static str)
        ensures
            r@ == "Local Filesystem"@,
    {
        "Local Filesystem"
    }
}

} // verus!
