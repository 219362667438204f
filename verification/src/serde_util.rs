//! What reading the configuration needs besides the configuration itself.

use vstd::prelude::*;
use std::path::PathBuf;

verus! {

/// `std::path::PathBuf`: a path in the file system. Nothing is told of what
/// it holds.
#[verifier::external_type_specification]
#[verifier::external_body]
pub struct ExPathBuf(PathBuf);

/// Remembers where the configuration lies, so that the files it names can
/// be found beside it.
#[derive(Debug)]
pub struct FileOpener {
    pub(crate) path: Option<PathBuf>,
}

impl FileOpener {
    /// The path of the configuration, once it is known.
    pub closed spec fn spec_path(&self) -> Option<PathBuf> {
        self.path
    }

    /// An opener that does not know the path of the configuration yet.
    pub fn new() -> (r: Self)
        ensures
            r.spec_path() is None,
    {
        FileOpener { path: None }
    }

    /// Remembers the path of the configuration.
    pub fn set_path(&mut self, path: PathBuf)
        ensures
            final(self).spec_path() == Some(path),
    {
        self.path = Some(path);
    }

    /// The path of the configuration, once it is known.
    pub fn path(&self) -> (r: Option<&PathBuf>)
        ensures
            match r {
                Some(p) => self.spec_path() == Some(*p),
                None => self.spec_path() is None,
            },
    {
        self.path.as_ref()
    }
}

/// The default of a boolean configuration field that was left out.
pub fn bool_false() -> (r: bool)
    ensures
        !r,
{
    false
}

} // verus!
