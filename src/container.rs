//! The container capability: a named history of text values with its
//! operations, and the ways they can fail.
use crate::clipd_fs;
use vstd::prelude::*;

verus! {

/// Why a container operation did not produce its result.
#[derive(Debug, Clone, Copy, PartialEq, Eq, Structural)]
pub enum Error {
    /// The stored manifest could not be read back.
    ManifestCorrupted,
    /// The container's directory or first manifest could not be written.
    StoreInitFailure,
    /// A stored value could not be read or written.
    BlobIOFailure,
    /// No alias of that name was ever registered.
    UnknownKey,
    /// A position at or beyond the number of items.
    IndexOutOfRange,
    /// The container's files could not be removed.
    DestructiveOperationFailure,
}

impl Error {
    pub open spec fn spec_is_fatal(self) -> bool {
        !(self == Error::UnknownKey || self == Error::IndexOutOfRange)
    }

    /// Whether the operation must abort: all but a key that names nothing.
    #[verifier::when_used_as_spec(spec_is_fatal)]
    pub fn is_fatal(self) -> (r: bool)
        ensures
            r == self.spec_is_fatal(),
    {
        match self {
            Error::UnknownKey | Error::IndexOutOfRange => false,
            _ => true,
        }
    }
}

} // verus!

verus! {

/// The storage backends a container can live in.
pub enum ContainerType {
    /// One directory per container: a manifest file and one file per value.
    ClipdFs,
}

/// A named history of text values. Position 0 is the value added last; a
/// value added under an alias can also be fetched by that alias.
pub trait Container {
    /// Adds `value`, aliased `key` if given; returns the new item's
    /// identifier.
    fn add(&mut self, key: Option<String>, value: String) -> Result<String, Error>;

    /// The value that `key` names (position 0 when `key` is absent).
    fn get(&self, key: Option<String>) -> Result<String, Error>;

    /// A table of the `n` most recent values, for people to read.
    fn show(&self, n: usize) -> Result<String, Error>;

    /// Removes the container and every value in it, for good.
    fn clear(&mut self) -> Result<(), Error>;
}

/// The manifest that a container of type `ctype` named `name` starts from:
/// the one stored for it, or a fresh one when none was stored.
pub fn create(ctype: ContainerType, name: String, stored: Option<clipd_fs::Container>) -> (r:
    clipd_fs::Container)
    ensures
        match stored {
            Some(c) => r == c,
            None => r.is_fresh(name@),
        },
{
    match ctype {
        ContainerType::ClipdFs => clipd_fs::open(name, stored),
    }
}

} // verus!
