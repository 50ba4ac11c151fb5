use vstd::prelude::*;

verus! {

/// The ways in which building a changelog can fail.
#[derive(Clone, Copy, Debug, PartialEq, Eq, Structural)]
pub enum ErrorKind {
    /// The repository history could not be read or decoded.
    Git,
    /// No tag of the package carries a semantic version.
    NoTags,
}

} // verus!
