//! Errors produced while reading NBT.

use vstd::prelude::*;

verus! {

/// Why reading NBT failed.
#[derive(Debug, Clone, Copy, PartialEq, Eq, Structural)]
pub enum Error {
    /// The root tag was neither a compound nor an end tag.
    InvalidRootType(u8),
    /// A tag id outside the NBT tag ids was found.
    UnknownTagId(u8),
    /// The data ended before the tag did.
    UnexpectedEof,
    /// The tag nests deeper than the maximum depth.
    MaxDepthExceeded,
}

/// Why turning NBT into a value of another type failed.
#[derive(Debug, Clone, PartialEq, Eq)]
pub enum DeserializeError {
    /// A field the type needs was absent.
    MissingField,
    /// A field held a tag of another type than the field's.
    MismatchedFieldType(String),
    /// A field the type does not know was present.
    UnknownField(String),
    /// A list held elements of another type than expected.
    MismatchedListType(u8),
    /// The NBT itself could not be read.
    Nbt(Error),
}

impl From<Error> for DeserializeError {
    fn from(e: Error) -> (r: DeserializeError) {
        DeserializeError::Nbt(e)
    }
}

impl vstd::std_specs::convert::FromSpecImpl<Error> for DeserializeError {
    open spec fn obeys_from_spec() -> bool {
        true
    }

    open spec fn from_spec(e: Error) -> DeserializeError {
        DeserializeError::Nbt(e)
    }
}

/// Why reading NBT failed, as reported by the first owned reader.
#[derive(Debug, Clone, Copy, PartialEq, Eq, Structural)]
pub enum ReadError {
    /// The root tag was not a compound.
    InvalidRootType(u8),
    /// A tag id outside the NBT tag ids was found.
    UnknownTagId(u8),
    /// The data ended before the tag did.
    UnexpectedEof,
    /// The tag nests deeper than the maximum depth.
    MaxDepthExceeded,
}

impl From<Error> for ReadError {
    fn from(e: Error) -> (r: ReadError) {
        match e {
            Error::InvalidRootType(t) => ReadError::InvalidRootType(t),
            Error::UnknownTagId(t) => ReadError::UnknownTagId(t),
            Error::UnexpectedEof => ReadError::UnexpectedEof,
            Error::MaxDepthExceeded => ReadError::MaxDepthExceeded,
        }
    }
}

impl vstd::std_specs::convert::FromSpecImpl<Error> for ReadError {
    open spec fn obeys_from_spec() -> bool {
        true
    }

    /// The same failure, variant for variant.
    open spec fn from_spec(e: Error) -> ReadError {
        match e {
            Error::InvalidRootType(t) => ReadError::InvalidRootType(t),
            Error::UnknownTagId(t) => ReadError::UnknownTagId(t),
            Error::UnexpectedEof => ReadError::UnexpectedEof,
            Error::MaxDepthExceeded => ReadError::MaxDepthExceeded,
        }
    }
}

} // verus!
