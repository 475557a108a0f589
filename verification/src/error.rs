//! The errors of an overlay.

use vstd::prelude::*;

verus! {

/// Why an overlay failed.
#[derive(Debug, PartialEq, Eq)]
pub enum Error {
    /// A text could not be read as a tree, or a tree not as a configuration
    /// value: the address at which that happened, and the reason.
    UnpackError(String, String),
    /// A configuration value could not be turned into a tree.
    PackError(String),
    /// The tree holds a mapping whose keys are not strings, so that its
    /// entries have no address.
    Unsupported,
    /// A variable is set, but what it stores cannot be read as text.
    VarError(String),
}

/// The mathematical model of an [`Error`].
pub ghost enum Failure {
    Unpack(Seq<char>, Seq<char>),
    Pack(Seq<char>),
    Unsupported,
    Var(Seq<char>),
}

impl View for Error {
    type V = Failure;

    open spec fn view(&self) -> Failure {
        match self {
            Error::UnpackError(place, reason) => Failure::Unpack(place@, reason@),
            Error::PackError(reason) => Failure::Pack(reason@),
            Error::Unsupported => Failure::Unsupported,
            Error::VarError(reason) => Failure::Var(reason@),
        }
    }
}

} // verus!
