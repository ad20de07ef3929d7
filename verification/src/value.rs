//! Decoded values: scalars, the four field-value shapes, and the decoded
//! fragment record.

use vstd::prelude::*;

verus! {

/// One decoded fixed-width value.  `F32Bits` carries the raw bit pattern of
/// a 32-bit float; `StringRef` carries the raw signed string-table index.
#[derive(Clone, Copy, PartialEq, Eq, Structural, Debug)]
pub enum Scalar {
    U8(u8),
    I8(i8),
    U16(u16),
    I16(i16),
    U32(u32),
    I32(i32),
    F32Bits(u32),
    StringRef(i32),
}

/// A decoded field value.  A field with no modifier decodes to `Single`; a
/// counted field to `List`; a conditional field to `OptSingle`; a field both
/// counted and conditional to `OptList`.  An absent conditional field is
/// `OptSingle(None)` / `OptList(None)`, never an empty list.
#[derive(Clone, PartialEq, Eq, Debug)]
pub enum FieldValue {
    Single(Scalar),
    List(Vec<Scalar>),
    OptSingle(Option<Scalar>),
    OptList(Option<Vec<Scalar>>),
}

/// Mathematical shape of a [`FieldValue`]: lists abstracted to sequences.
pub enum FieldValueView {
    Single(Scalar),
    List(Seq<Scalar>),
    OptSingle(Option<Scalar>),
    OptList(Option<Seq<Scalar>>),
}

impl View for FieldValue {
    type V = FieldValueView;

    open spec fn view(&self) -> FieldValueView {
        match self {
            FieldValue::Single(s) => FieldValueView::Single(*s),
            FieldValue::List(v) => FieldValueView::List(v@),
            FieldValue::OptSingle(o) => FieldValueView::OptSingle(*o),
            FieldValue::OptList(o) => FieldValueView::OptList(
                match o {
                    Some(v) => Some(v@),
                    None => None,
                },
            ),
        }
    }
}

/// One named field of a decoded record.
#[derive(Clone, PartialEq, Eq, Debug)]
pub struct FieldEntry {
    pub name: String,
    pub value: FieldValue,
}

/// The decoded output: every declared field bound to its value, in schema
/// order, tagged with the schema's type id and name.  Conditional fields are
/// always bound, to an `Opt…` value that records whether they were present.
#[derive(Clone, PartialEq, Eq, Debug)]
pub struct FragmentRecord {
    pub type_id: u32,
    pub name: String,
    pub fields: Vec<FieldEntry>,
}

/// The values of a record's entries, in order.
pub open spec fn entry_values(s: Seq<FieldEntry>) -> Seq<FieldValueView> {
    s.map(|k: int, e: FieldEntry| e.value@)
}

impl FragmentRecord {
    /// The value bound to the first field named `name`, if any.
    pub fn get(&self, name: &String) -> (res: Option<&FieldValue>)
        ensures
            match res {
                Some(v) => exists|j: int|
                    #![auto]
                    0 <= j < self.fields@.len() && self.fields@[j].name@ == name@
                        && self.fields@[j].value == *v && (forall|k: int|
                        0 <= k < j ==> self.fields@[k].name@ != name@),
                None => forall|j: int|
                    0 <= j < self.fields@.len() ==> self.fields@[j].name@ != name@,
            },
    {
        let n = self.fields.len();
        for j in 0..n
            invariant
                n == self.fields@.len(),
                forall|k: int| 0 <= k < j ==> self.fields@[k].name@ != name@,
        {
            if self.fields[j].name == *name {
                return Some(&self.fields[j].value);
            }
        }
        None
    }
}

} // verus!
