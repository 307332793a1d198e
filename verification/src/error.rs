use vstd::prelude::*;

verus! {

/// The errors that store operations report.
///
/// Every fallible operation returns one of these; caller-supplied bad input
/// (an unknown path or id, a duplicate assignment, a bad tag name) is an
/// ordinary error value, never a panic.
#[derive(Debug, Clone, Copy, PartialEq, Eq, Structural)]
pub enum BackendError {
    /// An image with the given path already exists in the store.
    DuplicatePath,
    /// The image already carries the given tag.
    DuplicateAssignment,
    /// The tag name is empty or starts with '-', space, tab, CR or LF.
    InvalidTagName,
    /// The image, tag or membership edge does not exist.
    NotFound,
    /// The underlying storage ran out of identifiers.
    StorageFault,
    /// A directory listing could not be obtained.
    EnumerationFault,
}

} // verus!
