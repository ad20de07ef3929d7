//! Decode errors: the failure kinds and the positional context carried with
//! every failure.

use vstd::prelude::*;

verus! {

/// Why a fragment decode failed.
#[derive(Clone, Copy, PartialEq, Eq, Structural, Debug)]
pub enum DecodeErrorKind {
    /// Fewer bytes remained than the next fixed-width read needed.
    Truncated,
    /// A repetition count was negative or larger than
    /// [`crate::MAX_FIELD_COUNT`].
    MalformedCount,
    /// The schema itself is broken: a count or predicate addresses a field
    /// that is not an earlier plain integer field of the same fragment.
    UnsupportedValueKind,
}

/// A failed fragment decode: which fragment and field were being decoded,
/// the byte offset within the payload at which the failing read started,
/// how many bytes were missing (zero unless `kind` is `Truncated`), and the
/// failure kind.
#[derive(Clone, PartialEq, Eq, Debug)]
pub struct DecodeError {
    pub fragment_name: String,
    pub field_name: String,
    pub offset: usize,
    pub missing: usize,
    pub kind: DecodeErrorKind,
}

} // verus!
