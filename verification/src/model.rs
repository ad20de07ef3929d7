//! The mathematical model of fragment decoding.  Every executable decoder in
//! this crate is proved equal to the spec functions here, so the functions in
//! this module are the single place where the byte-level meaning of a schema
//! is written down.

use vstd::prelude::*;

use crate::MAX_FIELD_COUNT;
use crate::error::DecodeErrorKind;
use crate::schema::{CountSpec, FieldDecl, Predicate, ValueKind};
use crate::value::{FieldValueView, Scalar};

verus! {

/// Width in bytes of one value of kind `k`.
pub open spec fn width_of(k: ValueKind) -> int {
    match k {
        ValueKind::U8 => 1,
        ValueKind::I8 => 1,
        ValueKind::U16 => 2,
        ValueKind::I16 => 2,
        ValueKind::U32 => 4,
        ValueKind::I32 => 4,
        ValueKind::F32 => 4,
        ValueKind::StringRef => 4,
    }
}

/// The unsigned integer a byte sequence denotes in little-endian order.
pub open spec fn le_value(s: Seq<u8>) -> int
    decreases s.len(),
{
    if s.len() <= 0 {
        0
    } else {
        s[0] + 256 * le_value(s.skip(1))
    }
}

/// Two's-complement reading of an unsigned value `v` modulo `m`.
pub open spec fn to_signed(v: int, m: int) -> int {
    if v < m / 2 {
        v
    } else {
        v - m
    }
}

/// Two's-complement bit pattern of a signed value `v` modulo `m`.
pub open spec fn to_unsigned(v: int, m: int) -> int {
    if v >= 0 {
        v
    } else {
        v + m
    }
}

/// The scalar of kind `k` whose encoding starts at `pos`.  Meaningful only
/// when `pos + width_of(k) <= bytes.len()`.
pub open spec fn spec_scalar_at(k: ValueKind, bytes: Seq<u8>, pos: int) -> Scalar {
    let raw = le_value(bytes.subrange(pos, pos + width_of(k)));
    match k {
        ValueKind::U8 => Scalar::U8(raw as u8),
        ValueKind::I8 => Scalar::I8(to_signed(raw, 0x100) as i8),
        ValueKind::U16 => Scalar::U16(raw as u16),
        ValueKind::I16 => Scalar::I16(to_signed(raw, 0x10000) as i16),
        ValueKind::U32 => Scalar::U32(raw as u32),
        ValueKind::I32 => Scalar::I32(to_signed(raw, 0x1_0000_0000) as i32),
        ValueKind::F32 => Scalar::F32Bits(raw as u32),
        ValueKind::StringRef => Scalar::StringRef(to_signed(raw, 0x1_0000_0000) as i32),
    }
}

/// The 32-bit bit pattern of an integer scalar (signed kinds sign-extended),
/// or `None` for a float, whose bits are not an integer field.
pub open spec fn scalar_bits(s: Scalar) -> Option<u32> {
    match s {
        Scalar::U8(x) => Some(x as u32),
        Scalar::I8(x) => Some(to_unsigned(x as int, 0x1_0000_0000) as u32),
        Scalar::U16(x) => Some(x as u32),
        Scalar::I16(x) => Some(to_unsigned(x as int, 0x1_0000_0000) as u32),
        Scalar::U32(x) => Some(x),
        Scalar::I32(x) => Some(to_unsigned(x as int, 0x1_0000_0000) as u32),
        Scalar::F32Bits(_) => None,
        Scalar::StringRef(x) => Some(to_unsigned(x as int, 0x1_0000_0000) as u32),
    }
}

/// The signed integer value of an integer scalar, or `None` for a float.
pub open spec fn scalar_count(s: Scalar) -> Option<int> {
    match s {
        Scalar::U8(x) => Some(x as int),
        Scalar::I8(x) => Some(x as int),
        Scalar::U16(x) => Some(x as int),
        Scalar::I16(x) => Some(x as int),
        Scalar::U32(x) => Some(x as int),
        Scalar::I32(x) => Some(x as int),
        Scalar::F32Bits(_) => None,
        Scalar::StringRef(x) => Some(x as int),
    }
}

/// The 32-bit bit pattern of a decoded field usable in a predicate: only a
/// plain (unmodified) integer field has one.
pub open spec fn field_bits(v: FieldValueView) -> Option<u32> {
    match v {
        FieldValueView::Single(s) => scalar_bits(s),
        _ => None,
    }
}

/// The signed value of a decoded field usable as a repetition count: only a
/// plain (unmodified) integer field has one.
pub open spec fn field_count(v: FieldValueView) -> Option<int> {
    match v {
        FieldValueView::Single(s) => scalar_count(s),
        _ => None,
    }
}

/// Index of the first field among `fields[j..upto]` named `name`.
pub open spec fn resolve_from(fields: Seq<FieldDecl>, j: int, upto: int, name: Seq<char>) -> Option<
    int,
>
    decreases upto - j,
{
    if j < 0 || j >= upto || upto > fields.len() {
        None
    } else if fields[j].name@ == name {
        Some(j)
    } else {
        resolve_from(fields, j + 1, upto, name)
    }
}

/// Index of the first field among the `upto` earliest fields named `name`.
pub open spec fn resolve_name(fields: Seq<FieldDecl>, upto: int, name: Seq<char>) -> Option<int> {
    resolve_from(fields, 0, upto, name)
}

/// A presence predicate evaluated over the first `i` decoded values;
/// `None` when it addresses anything but an earlier plain integer field.
pub open spec fn spec_eval_pred(
    fields: Seq<FieldDecl>,
    i: int,
    p: Predicate,
    vals: Seq<FieldValueView>,
) -> Option<bool> {
    match p {
        Predicate::HasFlag { field, mask } => match resolve_name(fields, i, field@) {
            Some(j) => match field_bits(vals[j]) {
                Some(b) => Some((b & mask) != 0),
                None => None,
            },
            None => None,
        },
        Predicate::Equals { field, value } => match resolve_name(fields, i, field@) {
            Some(j) => match field_bits(vals[j]) {
                Some(b) => Some(b == value),
                None => None,
            },
            None => None,
        },
    }
}

/// Outcome of evaluating a count specification.
pub enum CountEval {
    /// A usable count, `0 <= n <= MAX_FIELD_COUNT`.
    Count(int),
    /// Negative or larger than [`MAX_FIELD_COUNT`].
    Malformed,
    /// The count addresses anything but an earlier plain integer field.
    Unresolved,
}

/// A count specification evaluated over the first `i` decoded values.
pub open spec fn spec_count_of(
    fields: Seq<FieldDecl>,
    i: int,
    c: CountSpec,
    vals: Seq<FieldValueView>,
) -> CountEval {
    match c {
        CountSpec::Literal(k) => if k <= MAX_FIELD_COUNT {
            CountEval::Count(k as int)
        } else {
            CountEval::Malformed
        },
        CountSpec::Field(nm) => match resolve_name(fields, i, nm@) {
            Some(j) => match field_count(vals[j]) {
                Some(n) => if 0 <= n <= MAX_FIELD_COUNT {
                    CountEval::Count(n)
                } else {
                    CountEval::Malformed
                },
                None => CountEval::Unresolved,
            },
            None => CountEval::Unresolved,
        },
    }
}

/// Outcome of one fixed-width read.
pub enum ScalarOutcome {
    Got { s: Scalar, end: int },
    Short { offset: int, missing: int },
}

/// Outcome of reading a run of scalars.
pub enum ListOutcome {
    Items { items: Seq<Scalar>, end: int },
    ListShort { offset: int, missing: int },
}

/// Outcome of decoding one declared field.
pub enum StepOutcome {
    Step { value: FieldValueView, end: int },
    StepFail { offset: int, missing: int, kind: DecodeErrorKind },
}

/// Outcome of decoding a whole fragment.
pub enum SpecOutcome {
    Success { values: Seq<FieldValueView>, end: int },
    Failure { field: int, offset: int, missing: int, kind: DecodeErrorKind },
}

/// One fixed-width read of kind `k` at `pos`.
pub open spec fn spec_scalar_step(k: ValueKind, bytes: Seq<u8>, pos: int) -> ScalarOutcome {
    if pos + width_of(k) <= bytes.len() {
        ScalarOutcome::Got { s: spec_scalar_at(k, bytes, pos), end: pos + width_of(k) }
    } else {
        ScalarOutcome::Short { offset: pos, missing: pos + width_of(k) - bytes.len() }
    }
}

/// `n` consecutive reads of kind `k` starting at `pos`; fails at the first
/// read that runs past the end.  `n = 0` reads nothing.
pub open spec fn spec_decode_list(k: ValueKind, bytes: Seq<u8>, pos: int, n: int) -> ListOutcome
    decreases n,
{
    if n <= 0 {
        ListOutcome::Items { items: Seq::empty(), end: pos }
    } else {
        match spec_scalar_step(k, bytes, pos) {
            ScalarOutcome::Short { offset, missing } => ListOutcome::ListShort { offset, missing },
            ScalarOutcome::Got { s, end } => match spec_decode_list(k, bytes, end, n - 1) {
                ListOutcome::Items { items, end: e2 } => ListOutcome::Items {
                    items: seq![s] + items,
                    end: e2,
                },
                short => short,
            },
        }
    }
}

/// The value an absent conditional field is bound to.
pub open spec fn absent_value(d: FieldDecl) -> FieldValueView {
    if d.count is Some {
        FieldValueView::OptList(None)
    } else {
        FieldValueView::OptSingle(None)
    }
}

/// Wrap the body of a present conditional field.
pub open spec fn wrap_present(v: FieldValueView) -> FieldValueView {
    match v {
        FieldValueView::Single(s) => FieldValueView::OptSingle(Some(s)),
        FieldValueView::List(l) => FieldValueView::OptList(Some(l)),
        x => x,
    }
}

/// The body of field `i` — a single scalar, or a counted run — ignoring any
/// presence predicate.
pub open spec fn spec_decode_body(
    fields: Seq<FieldDecl>,
    i: int,
    bytes: Seq<u8>,
    pos: int,
    vals: Seq<FieldValueView>,
) -> StepOutcome {
    let d = fields[i];
    match d.count {
        None => match spec_scalar_step(d.kind, bytes, pos) {
            ScalarOutcome::Got { s, end } => StepOutcome::Step {
                value: FieldValueView::Single(s),
                end,
            },
            ScalarOutcome::Short { offset, missing } => StepOutcome::StepFail {
                offset,
                missing,
                kind: DecodeErrorKind::Truncated,
            },
        },
        Some(c) => match spec_count_of(fields, i, c, vals) {
            CountEval::Unresolved => StepOutcome::StepFail {
                offset: pos,
                missing: 0,
                kind: DecodeErrorKind::UnsupportedValueKind,
            },
            CountEval::Malformed => StepOutcome::StepFail {
                offset: pos,
                missing: 0,
                kind: DecodeErrorKind::MalformedCount,
            },
            CountEval::Count(n) => match spec_decode_list(d.kind, bytes, pos, n) {
                ListOutcome::Items { items, end } => StepOutcome::Step {
                    value: FieldValueView::List(items),
                    end,
                },
                ListOutcome::ListShort { offset, missing } => StepOutcome::StepFail {
                    offset,
                    missing,
                    kind: DecodeErrorKind::Truncated,
                },
            },
        },
    }
}

/// Decode field `i` at `pos`, given the values of the earlier fields.
pub open spec fn spec_decode_field(
    fields: Seq<FieldDecl>,
    i: int,
    bytes: Seq<u8>,
    pos: int,
    vals: Seq<FieldValueView>,
) -> StepOutcome {
    let d = fields[i];
    match d.presence {
        None => spec_decode_body(fields, i, bytes, pos, vals),
        Some(p) => match spec_eval_pred(fields, i, p, vals) {
            None => StepOutcome::StepFail {
                offset: pos,
                missing: 0,
                kind: DecodeErrorKind::UnsupportedValueKind,
            },
            Some(false) => StepOutcome::Step { value: absent_value(d), end: pos },
            Some(true) => match spec_decode_body(fields, i, bytes, pos, vals) {
                StepOutcome::Step { value, end } => StepOutcome::Step {
                    value: wrap_present(value),
                    end,
                },
                fail => fail,
            },
        },
    }
}

/// Decode fields `i..` at `pos`, given the values of the earlier fields.
pub open spec fn spec_decode_fields(
    fields: Seq<FieldDecl>,
    bytes: Seq<u8>,
    i: int,
    pos: int,
    vals: Seq<FieldValueView>,
) -> SpecOutcome
    decreases fields.len() - i,
{
    if i < 0 || i >= fields.len() {
        SpecOutcome::Success { values: vals, end: pos }
    } else {
        match spec_decode_field(fields, i, bytes, pos, vals) {
            StepOutcome::Step { value, end } => spec_decode_fields(
                fields,
                bytes,
                i + 1,
                end,
                vals.push(value),
            ),
            StepOutcome::StepFail { offset, missing, kind } => SpecOutcome::Failure {
                field: i,
                offset,
                missing,
                kind,
            },
        }
    }
}

/// Decode a whole fragment: all fields in order, from the start of the
/// payload.
pub open spec fn spec_decode_fragment(fields: Seq<FieldDecl>, bytes: Seq<u8>) -> SpecOutcome {
    spec_decode_fields(fields, bytes, 0, 0, Seq::empty())
}

/// `256^w`.
pub open spec fn pow256(w: int) -> int
    decreases w,
{
    if w <= 0 {
        1
    } else {
        256 * pow256(w - 1)
    }
}

/// The `w` little-endian bytes of the non-negative integer `v`.
pub open spec fn le_bytes(v: int, w: int) -> Seq<u8>
    decreases w,
{
    if w <= 0 {
        Seq::empty()
    } else {
        seq![(v % 256) as u8] + le_bytes(v / 256, w - 1)
    }
}

/// Whether a scalar is a value of kind `k`.
pub open spec fn scalar_matches_kind(s: Scalar, k: ValueKind) -> bool {
    match (s, k) {
        (Scalar::U8(_), ValueKind::U8) => true,
        (Scalar::I8(_), ValueKind::I8) => true,
        (Scalar::U16(_), ValueKind::U16) => true,
        (Scalar::I16(_), ValueKind::I16) => true,
        (Scalar::U32(_), ValueKind::U32) => true,
        (Scalar::I32(_), ValueKind::I32) => true,
        (Scalar::F32Bits(_), ValueKind::F32) => true,
        (Scalar::StringRef(_), ValueKind::StringRef) => true,
        _ => false,
    }
}

/// The canonical little-endian encoding of one scalar.
pub open spec fn spec_encode_scalar(s: Scalar) -> Seq<u8> {
    match s {
        Scalar::U8(x) => le_bytes(x as int, 1),
        Scalar::I8(x) => le_bytes(to_unsigned(x as int, 0x100), 1),
        Scalar::U16(x) => le_bytes(x as int, 2),
        Scalar::I16(x) => le_bytes(to_unsigned(x as int, 0x10000), 2),
        Scalar::U32(x) => le_bytes(x as int, 4),
        Scalar::I32(x) => le_bytes(to_unsigned(x as int, 0x1_0000_0000), 4),
        Scalar::F32Bits(x) => le_bytes(x as int, 4),
        Scalar::StringRef(x) => le_bytes(to_unsigned(x as int, 0x1_0000_0000), 4),
    }
}

/// The concatenated encodings of a run of scalars.
pub open spec fn spec_encode_list(items: Seq<Scalar>) -> Seq<u8>
    decreases items.len(),
{
    if items.len() <= 0 {
        Seq::empty()
    } else {
        spec_encode_scalar(items[0]) + spec_encode_list(items.skip(1))
    }
}

/// The encoding of one decoded field value; an absent conditional field
/// encodes to nothing.
pub open spec fn spec_encode_value(v: FieldValueView) -> Seq<u8> {
    match v {
        FieldValueView::Single(s) => spec_encode_scalar(s),
        FieldValueView::List(items) => spec_encode_list(items),
        FieldValueView::OptSingle(Some(s)) => spec_encode_scalar(s),
        FieldValueView::OptSingle(None) => Seq::empty(),
        FieldValueView::OptList(Some(items)) => spec_encode_list(items),
        FieldValueView::OptList(None) => Seq::empty(),
    }
}

/// The concatenated encodings of the values of fields `i..`, in schema
/// order.
pub open spec fn spec_encode_fields(
    fields: Seq<FieldDecl>,
    values: Seq<FieldValueView>,
    i: int,
) -> Seq<u8>
    decreases fields.len() - i,
{
    if i < 0 || i >= fields.len() {
        Seq::empty()
    } else {
        spec_encode_value(values[i]) + spec_encode_fields(fields, values, i + 1)
    }
}

/// Every scalar of a run is of kind `k`.
pub open spec fn list_consistent(items: Seq<Scalar>, k: ValueKind) -> bool {
    forall|j: int| 0 <= j < items.len() ==> scalar_matches_kind(#[trigger] items[j], k)
}

/// Whether `values[i]` is a value field `i` could have decoded to: it has
/// the shape the declaration's modifiers dictate, its scalars are of the
/// declared kind, a counted run's length is exactly what the count
/// specification yields over the earlier values, and a conditional field is
/// present exactly when its predicate holds over the earlier values.
pub open spec fn value_consistent_at(
    fields: Seq<FieldDecl>,
    values: Seq<FieldValueView>,
    i: int,
) -> bool {
    let d = fields[i];
    let v = values[i];
    let prior = values.take(i);
    match d.presence {
        None => match d.count {
            None => v matches FieldValueView::Single(s) && scalar_matches_kind(s, d.kind),
            Some(c) => v matches FieldValueView::List(items) && list_consistent(items, d.kind)
                && spec_count_of(fields, i, c, prior) == CountEval::Count(items.len() as int),
        },
        Some(p) => match spec_eval_pred(fields, i, p, prior) {
            None => false,
            Some(false) => v == absent_value(d),
            Some(true) => match d.count {
                None => v matches FieldValueView::OptSingle(Some(s)) && scalar_matches_kind(
                    s,
                    d.kind,
                ),
                Some(c) => v matches FieldValueView::OptList(Some(items)) && list_consistent(
                    items,
                    d.kind,
                ) && spec_count_of(fields, i, c, prior) == CountEval::Count(items.len() as int),
            },
        },
    }
}

/// Whether `values` is a full assignment of decodable values to a schema's
/// fields: one value per declaration, each consistent with its declaration
/// given the values before it.
pub open spec fn values_consistent(fields: Seq<FieldDecl>, values: Seq<FieldValueView>) -> bool {
    values.len() == fields.len() && forall|i: int|
        0 <= i < fields.len() ==> #[trigger] value_consistent_at(fields, values, i)
}

/// The name a predicate addresses.
pub open spec fn pred_field_name(p: Predicate) -> Seq<char> {
    match p {
        Predicate::HasFlag { field, .. } => field@,
        Predicate::Equals { field, .. } => field@,
    }
}

/// Whether a count or presence reference made from field `i` is sound: it
/// resolves, and to an earlier plain (unmodified) integer field.
pub open spec fn ref_ok(fields: Seq<FieldDecl>, i: int, name: Seq<char>) -> bool {
    match resolve_name(fields, i, name) {
        Some(j) => fields[j].count is None && fields[j].presence is None && !(fields[j].kind
            is F32),
        None => false,
    }
}

/// Whether declaration `i` only makes sound references.
pub open spec fn decl_wf(fields: Seq<FieldDecl>, i: int) -> bool {
    (match fields[i].count {
        Some(CountSpec::Field(nm)) => ref_ok(fields, i, nm@),
        _ => true,
    }) && (match fields[i].presence {
        Some(p) => ref_ok(fields, i, pred_field_name(p)),
        None => true,
    })
}

/// A well-formed schema: every declaration's references are sound.  Decoding
/// such a schema never reports `UnsupportedValueKind`
/// (see [`crate::laws::lemma_wf_schema_never_unsupported`]).
pub open spec fn schema_wf(fields: Seq<FieldDecl>) -> bool {
    forall|i: int| 0 <= i < fields.len() ==> #[trigger] decl_wf(fields, i)
}

/// A decoded value has the shape its declaration dictates; in particular an
/// unmodified field always decodes to a single scalar of its kind.
pub open spec fn val_shaped(d: FieldDecl, v: FieldValueView) -> bool {
    d.count is None && d.presence is None ==> (v matches FieldValueView::Single(s)
        && scalar_matches_kind(s, d.kind))
}

/// Every decoded value so far has the shape its declaration dictates.
pub open spec fn vals_shaped(fields: Seq<FieldDecl>, vals: Seq<FieldValueView>) -> bool {
    vals.len() <= fields.len() && forall|j: int|
        0 <= j < vals.len() ==> #[trigger] val_shaped(fields[j], vals[j])
}

} // verus!
