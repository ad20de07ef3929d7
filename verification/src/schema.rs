//! Schema representation: the ordered field declarations that describe how
//! one fragment kind is laid out, together with the small closed expression
//! language used for repetition counts and presence predicates.

use vstd::prelude::*;

verus! {

/// The fixed-width little-endian value kinds a field can hold.
///
/// `F32` is a 32-bit IEEE-754 value carried as its raw bit pattern; this
/// engine never interprets the bits.  `StringRef` is a 4-byte signed index
/// into an external string table, produced as a plain integer and never
/// resolved here.
#[derive(Clone, Copy, PartialEq, Eq, Structural, Debug)]
pub enum ValueKind {
    U8,
    I8,
    U16,
    I16,
    U32,
    I32,
    F32,
    StringRef,
}

/// Where a counted field takes its repetition count from: a literal fixed at
/// schema-definition time, or the value of an earlier field, addressed by
/// name.
#[derive(Clone, PartialEq, Eq, Debug)]
pub enum CountSpec {
    Literal(u32),
    Field(String),
}

/// A presence predicate over already-decoded fields: either a bitwise flag
/// test or an equality test against a literal, on the 32-bit value of an
/// earlier integer field addressed by name.
#[derive(Clone, PartialEq, Eq, Debug)]
pub enum Predicate {
    /// True when `field & mask != 0`.
    HasFlag { field: String, mask: u32 },
    /// True when `field == value`.
    Equals { field: String, value: u32 },
}

/// One field declaration: a name (so later counts and predicates can address
/// the decoded value), a value kind, and up to one of each structural
/// modifier.  A field that is both counted and conditional is an optional
/// array: the predicate gates the whole array.
#[derive(Clone, PartialEq, Eq, Debug)]
pub struct FieldDecl {
    pub name: String,
    pub kind: ValueKind,
    pub count: Option<CountSpec>,
    pub presence: Option<Predicate>,
}

/// An ordered field-declaration list for one fragment kind, plus the static
/// metadata the archive layer dispatches on: a numeric type id and a
/// human-readable name.  Neither is consulted while decoding.
#[derive(Clone, PartialEq, Eq, Debug)]
pub struct FragmentSchema {
    pub type_id: u32,
    pub name: String,
    pub fields: Vec<FieldDecl>,
}

impl FieldDecl {
    /// A plain required field of the given kind.
    pub fn plain(name: String, kind: ValueKind) -> (d: FieldDecl)
        ensures
            d.name == name,
            d.kind == kind,
            d.count is None,
            d.presence is None,
    {
        FieldDecl { name, kind, count: None, presence: None }
    }

    /// A counted array field of the given element kind.
    pub fn counted(name: String, kind: ValueKind, count: CountSpec) -> (d: FieldDecl)
        ensures
            d.name == name,
            d.kind == kind,
            d.count == Some(count),
            d.presence is None,
    {
        FieldDecl { name, kind, count: Some(count), presence: None }
    }

    /// A conditional field of the given kind, present only when `presence`
    /// holds.
    pub fn conditional(name: String, kind: ValueKind, presence: Predicate) -> (d: FieldDecl)
        ensures
            d.name == name,
            d.kind == kind,
            d.count is None,
            d.presence == Some(presence),
    {
        FieldDecl { name, kind, count: None, presence: Some(presence) }
    }

    /// An optional array: counted, and present only when `presence` holds.
    pub fn conditional_counted(
        name: String,
        kind: ValueKind,
        count: CountSpec,
        presence: Predicate,
    ) -> (d: FieldDecl)
        ensures
            d.name == name,
            d.kind == kind,
            d.count == Some(count),
            d.presence == Some(presence),
    {
        FieldDecl { name, kind, count: Some(count), presence: Some(presence) }
    }
}

} // verus!
