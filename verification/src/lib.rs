//! A fast NBT (Named Binary Tag) reader and writer.
//!
//! NBT data is a tree of named tags, encoded big-endian. This crate offers an
//! owned tree ([`owned`]), a zero-copy borrowed view ([`borrow`]) and a
//! validator that only checks well-formedness ([`validate`]).

use vstd::prelude::*;

pub mod borrow;
pub mod common;
pub mod error;
pub mod fastvec;
pub mod model;
pub mod mutf8;
pub mod owned;
pub mod raw_list;
pub mod reader;
pub mod reparse;
pub mod roundtrip;
pub mod swap_endianness;
pub mod thin_slices;
pub mod traits;
pub mod validate;

pub use error::{DeserializeError, Error};
pub use mutf8::{Mutf8Str, Mutf8String};
