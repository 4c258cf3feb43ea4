//! The settings file.
use vstd::prelude::*;

verus! {

/// The settings file of a project, in YAML.
pub struct YamlConfigRepository {
    path: String,
}

impl YamlConfigRepository {
    /// The settings file at `path`.
    pub fn new(path: &str) -> (r: YamlConfigRepository)
        ensures
            r.path_view() == path@,
    {
        YamlConfigRepository { path: String::from_str(path) }
    }

    /// Where the file is.
    pub closed spec fn path_view(&self) -> Seq<char> {
        self.path@
    }

    /// Where the file is.
    pub fn path(&self) -> (r: &str)
        ensures
            r@ == self.path_view(),
    {
        self.path.as_str()
    }
}

} // verus!
