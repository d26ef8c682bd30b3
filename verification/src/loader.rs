//! The location of a database file.

use vstd::prelude::*;

verus! {

/// A database file, named by its path.
#[derive(Debug)]
pub struct UnixFileLoader {
    path: String,
}

impl UnixFileLoader {
    /// The database file at `filename`.
    pub fn new(filename: String) -> (res: UnixFileLoader)
        ensures
            res.path_view() == filename@,
    {
        UnixFileLoader { path: filename }
    }

    /// The path of the file.
    pub closed spec fn path_view(&self) -> Seq<char> {
        self.path@
    }

    /// The path of the file.
    pub fn path(&self) -> (res: String)
        ensures
            res@ == self.path_view(),
    {
        self.path.clone()
    }
}

} // verus!
