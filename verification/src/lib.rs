//! Decoder for tagged, variably-shaped binary fragment records as found in
//! WLD-style 3D-scene archives.
//!
//! A fragment is described by a [`schema::FragmentSchema`]: an ordered list of
//! field declarations, each with a fixed-width little-endian value kind and
//! optionally a count (the field is an array whose length is a previously
//! decoded field) and a presence predicate (the field is read only when a
//! boolean condition over previously decoded fields holds).  Decoding walks
//! the declarations once, left to right, threading a cursor over the payload
//! bytes, and either produces a fully typed record or an error that names the
//! field, the byte offset and the failure kind.

use vstd::prelude::*;

pub mod decode;
pub mod error;
pub mod laws;
pub mod model;
pub mod schema;
pub mod value;

verus! {

/// Largest repetition count a schema may ask for; a decoded count above this
/// (or a negative one) is reported as a malformed count before any element is
/// read.
pub const MAX_FIELD_COUNT: u32 = 0x00FF_FFFF;

} // verus!
