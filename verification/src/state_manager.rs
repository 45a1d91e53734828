//! The state manager of the tuple space: whether the space has a root.
use vstd::prelude::*;

verus! {

/// Why a root could not be read.
#[derive(Clone, Debug, PartialEq, Eq)]
pub enum RootError {
    KvStoreError(String),
    UnknownRootError(String),
}

/// Reads the current root of a tuple space's history; implemented by the
/// users of this library for their storage.
pub trait RSpaceExporter {
    fn get_root(&self) -> Result<Vec<u8>, RootError>;
}

/// Writes history into a tuple space; implemented by the users of this
/// library for their storage.
pub trait RSpaceImporter {}

/// Whether an answer to a root request means that a root exists: any root
/// does, any error does not.
pub fn root_present(root: &Result<Vec<u8>, RootError>) -> (r: bool)
    ensures
        r == root is Ok,
{
    match root {
        Ok(_) => true,
        Err(RootError::UnknownRootError(_)) => false,
        Err(_) => false,
    }
}

/// Whether an answer to a root request means that the space is empty: any
/// error does, any root does not.
pub fn root_absent(root: &Result<Vec<u8>, RootError>) -> (r: bool)
    ensures
        r == root is Err,
        r == !root_present_spec(root),
{
    match root {
        Ok(_) => false,
        Err(_) => true,
    }
}

/// Whether an answer to a root request carries a root.
pub open spec fn root_present_spec(root: &Result<Vec<u8>, RootError>) -> bool {
    root is Ok
}

/// The exporter and importer of a tuple space.
pub struct RSpaceStateManager<E: RSpaceExporter, I: RSpaceImporter> {
    pub exporter: E,
    pub importer: I,
}

impl<E: RSpaceExporter, I: RSpaceImporter> RSpaceStateManager<E, I> {
    pub fn new(exporter: E, importer: I) -> (r: Self)
        ensures
            r.exporter == exporter,
            r.importer == importer,
    {
        RSpaceStateManager { exporter, importer }
    }

    /// Whether the space has no root, that is, whether it is empty. The
    /// exporter is asked for its root once; whatever it answers is read by
    /// `root_absent`.
    pub fn is_empty(&self) -> bool {
        let root = self.exporter.get_root();
        root_absent(&root)
    }

    /// Whether the exporter can give a root. Whatever it answers is read by
    /// `root_present`.
    pub fn has_root(&self) -> bool {
        let root = self.exporter.get_root();
        root_present(&root)
    }
}

} // verus!
