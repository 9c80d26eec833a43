//! The errors directory indexing can report.

use vstd::prelude::*;

use crate::paths::AbsPath;
use crate::paths::RelPath;

verus! {

/// Why building an index, or one of its nodes, failed.
#[derive(Debug)]
pub enum DirIndexerErr {
    /// Resolving a relative root path to a canonical absolute one
    /// failed (the path raced away mid-resolution).
    CanonicalizeFail(RelPath),
    /// The root path does not exist or is not a directory.
    NotDirNorExist(AbsPath),
    /// Listing a directory was denied; holds the directory's absolute
    /// path.
    LackPermission(AbsPath),
    /// The entry is neither a file nor a directory.
    NotFileAndDir,
    /// Rendering a path for display failed.
    ToStrFail,
    /// The directory tree could not be constructed.
    TreeConstructFailed,
}

impl DirIndexerErr {
    /// A short description of the error, for display.
    pub fn message(&self) -> (r: &'static str)
        ensures
            self is CanonicalizeFail ==> r@ == "unable to canonicalize the path"@,
            self is NotDirNorExist ==> r@ == "path does not exist or is not a directory"@,
            self is LackPermission ==> r@ == "lacking permission over the directory"@,
            self is NotFileAndDir ==> r@ == "the path is neither a file nor a directory"@,
            self is ToStrFail ==> r@ == "failed to convert path to string"@,
            self is TreeConstructFailed ==> r@ == "failed to construct directory tree"@,
    {
        match self {
            DirIndexerErr::CanonicalizeFail(_) => "unable to canonicalize the path",
            DirIndexerErr::NotDirNorExist(_) => "path does not exist or is not a directory",
            DirIndexerErr::LackPermission(_) => "lacking permission over the directory",
            DirIndexerErr::NotFileAndDir => "the path is neither a file nor a directory",
            DirIndexerErr::ToStrFail => "failed to convert path to string",
            DirIndexerErr::TreeConstructFailed => "failed to construct directory tree",
        }
    }
}

} // verus!
