//! The structural guarantees of the decoding engine, each proved against the
//! model in [`crate::model`].

use vstd::arithmetic::div_mod::{lemma_fundamental_div_mod, lemma_mod_bound};
use vstd::prelude::*;

use crate::error::DecodeErrorKind;
use crate::model::{
    absent_value, decl_wf, le_bytes, le_value, list_consistent, pow256, pred_field_name, ref_ok,
    resolve_from, resolve_name, scalar_bits, scalar_count, scalar_matches_kind, schema_wf,
    spec_count_of, spec_decode_field, spec_decode_fields, spec_decode_fragment, spec_decode_list,
    spec_encode_fields, spec_encode_list, spec_encode_scalar, spec_encode_value, spec_eval_pred,
    spec_scalar_at, spec_scalar_step, to_signed, to_unsigned, val_shaped, vals_shaped,
    value_consistent_at, values_consistent, width_of, CountEval, ListOutcome, ScalarOutcome,
    SpecOutcome, StepOutcome,
};
use crate::schema::{CountSpec, FieldDecl, FragmentSchema, ValueKind};
use crate::value::{FieldValueView, Scalar};

verus! {

proof fn lemma_pow256_small()
    ensures
        pow256(1) == 0x100,
        pow256(2) == 0x10000,
        pow256(4) == 0x1_0000_0000,
{
    assert(pow256(0) == 1);
    assert(pow256(1) == 0x100);
    assert(pow256(2) == 0x10000);
    assert(pow256(3) == 0x100_0000);
    assert(pow256(4) == 0x1_0000_0000);
}

/// `le_bytes` and `le_value` are mutually inverse on `w`-byte ranges.
proof fn lemma_le_round(v: int, w: int)
    requires
        0 <= v < pow256(w),
        0 <= w,
    ensures
        le_bytes(v, w).len() == w,
        le_value(le_bytes(v, w)) == v,
    decreases w,
{
    if w <= 0 {
        assert(le_bytes(v, w) =~= Seq::<u8>::empty());
    } else {
        lemma_fundamental_div_mod(v, 256);
        lemma_mod_bound(v, 256);
        let q = v / 256;
        let r = v % 256;
        assert(0 <= q);
        assert(q < pow256(w - 1));
        lemma_le_round(q, w - 1);
        let b = le_bytes(v, w);
        assert(b == seq![r as u8] + le_bytes(q, w - 1));
        assert(b.skip(1) =~= le_bytes(q, w - 1));
        assert(b[0] as int == r);
        assert(le_value(b) == b[0] + 256 * le_value(b.skip(1)));
    }
}

/// A scalar's canonical encoding is as wide as its kind, and denotes its
/// (sign-extended) bit pattern.
proof fn lemma_scalar_enc(s: Scalar, k: ValueKind)
    requires
        scalar_matches_kind(s, k),
    ensures
        spec_encode_scalar(s).len() == width_of(k),
{
    lemma_pow256_small();
    match s {
        Scalar::U8(x) => lemma_le_round(x as int, 1),
        Scalar::I8(x) => lemma_le_round(to_unsigned(x as int, 0x100), 1),
        Scalar::U16(x) => lemma_le_round(x as int, 2),
        Scalar::I16(x) => lemma_le_round(to_unsigned(x as int, 0x10000), 2),
        Scalar::U32(x) => lemma_le_round(x as int, 4),
        Scalar::I32(x) => lemma_le_round(to_unsigned(x as int, 0x1_0000_0000), 4),
        Scalar::F32Bits(x) => lemma_le_round(x as int, 4),
        Scalar::StringRef(x) => lemma_le_round(to_unsigned(x as int, 0x1_0000_0000), 4),
    }
}

/// A fixed-width read at the start of a scalar's canonical encoding yields
/// that scalar back.
proof fn lemma_scalar_round(s: Scalar, k: ValueKind, bytes: Seq<u8>, pos: int)
    requires
        scalar_matches_kind(s, k),
        0 <= pos,
        pos + width_of(k) <= bytes.len(),
        bytes.subrange(pos, pos + width_of(k)) == spec_encode_scalar(s),
    ensures
        spec_scalar_step(k, bytes, pos) == (ScalarOutcome::Got { s, end: pos + width_of(k) }),
{
    lemma_pow256_small();
    lemma_scalar_enc(s, k);
    let raw = le_value(bytes.subrange(pos, pos + width_of(k)));
    match s {
        Scalar::U8(x) => lemma_le_round(x as int, 1),
        Scalar::I8(x) => {
            lemma_le_round(to_unsigned(x as int, 0x100), 1);
            assert(to_signed(raw, 0x100) == x as int);
        },
        Scalar::U16(x) => lemma_le_round(x as int, 2),
        Scalar::I16(x) => {
            lemma_le_round(to_unsigned(x as int, 0x10000), 2);
            assert(to_signed(raw, 0x10000) == x as int);
        },
        Scalar::U32(x) => lemma_le_round(x as int, 4),
        Scalar::I32(x) => {
            lemma_le_round(to_unsigned(x as int, 0x1_0000_0000), 4);
            assert(to_signed(raw, 0x1_0000_0000) == x as int);
        },
        Scalar::F32Bits(x) => lemma_le_round(x as int, 4),
        Scalar::StringRef(x) => {
            lemma_le_round(to_unsigned(x as int, 0x1_0000_0000), 4);
            assert(to_signed(raw, 0x1_0000_0000) == x as int);
        },
    }
    assert(spec_scalar_at(k, bytes, pos) == s);
}

/// Splitting a known subrange of `bytes` at a concatenation boundary.
proof fn lemma_subrange_split(bytes: Seq<u8>, pos: int, a: Seq<u8>, b: Seq<u8>)
    requires
        0 <= pos,
        pos + a.len() + b.len() <= bytes.len(),
        bytes.subrange(pos, pos + a.len() + b.len()) == a + b,
    ensures
        bytes.subrange(pos, pos + a.len()) == a,
        bytes.subrange(pos + a.len(), pos + a.len() + b.len()) == b,
{
    assert forall|j: int| 0 <= j < a.len() implies bytes.subrange(pos, pos + a.len())[j] == a[j] by {
        assert(bytes.subrange(pos, pos + a.len() + b.len())[j] == (a + b)[j]);
    };
    assert(bytes.subrange(pos, pos + a.len()) =~= a);
    assert forall|j: int| 0 <= j < b.len() implies bytes.subrange(
        pos + a.len(),
        pos + a.len() + b.len(),
    )[j] == b[j] by {
        assert(bytes.subrange(pos, pos + a.len() + b.len())[a.len() + j] == (a + b)[a.len() + j]);
        assert((a + b)[a.len() + j] == b[j]);
        assert(bytes.subrange(pos, pos + a.len() + b.len())[a.len() + j] == bytes[pos + a.len()
            + j]);
        assert(bytes.subrange(pos + a.len(), pos + a.len() + b.len())[j] == bytes[pos + a.len()
            + j]);
    };
    assert(bytes.subrange(pos + a.len(), pos + a.len() + b.len()) =~= b);
}

/// Reading `items.len()` scalars at the start of the run's canonical
/// encoding yields the run back.
proof fn lemma_list_round(k: ValueKind, items: Seq<Scalar>, bytes: Seq<u8>, pos: int)
    requires
        list_consistent(items, k),
        0 <= pos,
        pos + spec_encode_list(items).len() <= bytes.len(),
        bytes.subrange(pos, pos + spec_encode_list(items).len()) == spec_encode_list(items),
    ensures
        spec_decode_list(k, bytes, pos, items.len() as int) == (ListOutcome::Items {
            items,
            end: pos + spec_encode_list(items).len(),
        }),
    decreases items.len(),
{
    if items.len() == 0 {
        assert(items =~= Seq::<Scalar>::empty());
        assert(spec_encode_list(items).len() == 0);
        assert(spec_decode_list(k, bytes, pos, 0) == (ListOutcome::Items {
            items: Seq::<Scalar>::empty(),
            end: pos,
        }));
    } else {
        let w = width_of(k);
        let e0 = spec_encode_scalar(items[0]);
        let rest_enc = spec_encode_list(items.skip(1));
        let enc = spec_encode_list(items);
        assert(scalar_matches_kind(items[0], k));
        lemma_scalar_enc(items[0], k);
        assert(enc == e0 + rest_enc);
        lemma_subrange_split(bytes, pos, e0, rest_enc);
        lemma_scalar_round(items[0], k, bytes, pos);
        assert(list_consistent(items.skip(1), k)) by {
            assert forall|j: int| 0 <= j < items.skip(1).len() implies scalar_matches_kind(
                #[trigger] items.skip(1)[j],
                k,
            ) by {
                assert(items.skip(1)[j] == items[j + 1]);
            };
        };
        lemma_list_round(k, items.skip(1), bytes, pos + w);
        assert(seq![items[0]] + items.skip(1) =~= items);
        let n = items.len() as int;
        assert(spec_scalar_step(k, bytes, pos) == (ScalarOutcome::Got {
            s: items[0],
            end: pos + w,
        }));
        assert(spec_decode_list(k, bytes, pos + w, n - 1) == (ListOutcome::Items {
            items: items.skip(1),
            end: pos + w + rest_enc.len(),
        }));
        assert(pos + w + rest_enc.len() == pos + enc.len());
        assert(spec_decode_list(k, bytes, pos, n) == (ListOutcome::Items {
            items: seq![items[0]] + items.skip(1),
            end: pos + w + rest_enc.len(),
        }));
    }
}

/// One field of a consistent assignment decodes from its canonical encoding
/// to exactly its assigned value.
proof fn lemma_field_round_step(
    fields: Seq<FieldDecl>,
    values: Seq<FieldValueView>,
    bytes: Seq<u8>,
    i: int,
    pos: int,
)
    requires
        values_consistent(fields, values),
        0 <= i < fields.len(),
        0 <= pos,
        pos + spec_encode_value(values[i]).len() <= bytes.len(),
        bytes.subrange(pos, pos + spec_encode_value(values[i]).len()) == spec_encode_value(
            values[i],
        ),
    ensures
        spec_decode_field(fields, i, bytes, pos, values.take(i)) == (StepOutcome::Step {
            value: values[i],
            end: pos + spec_encode_value(values[i]).len(),
        }),
{
    assert(value_consistent_at(fields, values, i));
    let d = fields[i];
    let v = values[i];
    let prior = values.take(i);
    match d.presence {
        None => {
            match d.count {
                None => {
                    let s = v->Single_0;
                    lemma_scalar_enc(s, d.kind);
                    lemma_scalar_round(s, d.kind, bytes, pos);
                },
                Some(c) => {
                    let items = v->List_0;
                    lemma_list_round(d.kind, items, bytes, pos);
                },
            }
        },
        Some(p) => {
            match spec_eval_pred(fields, i, p, prior) {
                Some(false) => {
                    assert(spec_encode_value(v).len() == 0);
                },
                Some(true) => {
                    match d.count {
                        None => {
                            let s = v->OptSingle_0->Some_0;
                            lemma_scalar_enc(s, d.kind);
                            lemma_scalar_round(s, d.kind, bytes, pos);
                        },
                        Some(c) => {
                            let items = v->OptList_0->Some_0;
                            lemma_list_round(d.kind, items, bytes, pos);
                        },
                    }
                },
                None => {
                    assert(false);
                },
            }
        },
    }
}

/// Fields `i..` of a consistent assignment decode from their canonical
/// encodings to exactly their assigned values.
proof fn lemma_fields_round(
    fields: Seq<FieldDecl>,
    values: Seq<FieldValueView>,
    bytes: Seq<u8>,
    i: int,
    pos: int,
)
    requires
        values_consistent(fields, values),
        0 <= i <= fields.len(),
        0 <= pos,
        pos + spec_encode_fields(fields, values, i).len() <= bytes.len(),
        bytes.subrange(pos, pos + spec_encode_fields(fields, values, i).len())
            == spec_encode_fields(fields, values, i),
    ensures
        spec_decode_fields(fields, bytes, i, pos, values.take(i)) == (SpecOutcome::Success {
            values,
            end: pos + spec_encode_fields(fields, values, i).len(),
        }),
    decreases fields.len() - i,
{
    if i >= fields.len() {
        assert(values.take(i) =~= values);
    } else {
        let ev = spec_encode_value(values[i]);
        let rest = spec_encode_fields(fields, values, i + 1);
        assert(spec_encode_fields(fields, values, i) == ev + rest);
        lemma_subrange_split(bytes, pos, ev, rest);
        lemma_field_round_step(fields, values, bytes, i, pos);
        assert(values.take(i).push(values[i]) =~= values.take(i + 1));
        lemma_fields_round(fields, values, bytes, i + 1, pos + ev.len());
    }
}

/// Round-trip fidelity: decoding a payload that is the byte-for-byte
/// concatenation of validly encoded field values — in schema order,
/// honouring counts and predicates — succeeds and yields exactly those
/// values, consuming exactly the encoding and leaving any trailing bytes to
/// the caller.
pub proof fn lemma_round_trip(fields: Seq<FieldDecl>, values: Seq<FieldValueView>, extra: Seq<u8>)
    requires
        values_consistent(fields, values),
    ensures
        spec_decode_fragment(fields, spec_encode_fields(fields, values, 0) + extra)
            == (SpecOutcome::Success {
            values,
            end: spec_encode_fields(fields, values, 0).len() as int,
        }),
{
    let enc = spec_encode_fields(fields, values, 0);
    let bytes = enc + extra;
    assert(bytes.subrange(0, enc.len() as int) =~= enc);
    assert(values.take(0) =~= Seq::<FieldValueView>::empty());
    lemma_fields_round(fields, values, bytes, 0, 0);
}

/// A subrange that lies before the cut survives a `take`.
proof fn lemma_take_subrange(full: Seq<u8>, m: int, a: int, b: int)
    requires
        0 <= a <= b <= m <= full.len(),
    ensures
        full.take(m).subrange(a, b) == full.subrange(a, b),
{
    assert(full.take(m).subrange(a, b) =~= full.subrange(a, b));
}

/// Cutting a run's canonical encoding short — at any byte strictly inside
/// it — makes the run read fail at the read containing the cut.
proof fn lemma_list_truncated(k: ValueKind, items: Seq<Scalar>, full: Seq<u8>, pos: int, m: int)
    requires
        list_consistent(items, k),
        0 <= pos <= m,
        pos + spec_encode_list(items).len() <= full.len(),
        m < pos + spec_encode_list(items).len(),
        full.subrange(pos, pos + spec_encode_list(items).len()) == spec_encode_list(items),
    ensures
        (match spec_decode_list(k, full.take(m), pos, items.len() as int) {
            ListOutcome::ListShort { offset, missing } => pos <= offset <= m && m < offset
                + width_of(k) && missing == offset + width_of(k) - m,
            ListOutcome::Items { .. } => false,
        }),
    decreases items.len(),
{
    let enc = spec_encode_list(items);
    if items.len() == 0 {
        assert(enc.len() == 0);
        assert(false);
    }
    let w = width_of(k);
    let e0 = spec_encode_scalar(items[0]);
    let rest_enc = spec_encode_list(items.skip(1));
    assert(scalar_matches_kind(items[0], k));
    lemma_scalar_enc(items[0], k);
    assert(enc == e0 + rest_enc);
    lemma_subrange_split(full, pos, e0, rest_enc);
    let t = full.take(m);
    let n = items.len() as int;
    if pos + w <= m {
        lemma_take_subrange(full, m, pos, pos + w);
        lemma_scalar_round(items[0], k, t, pos);
        assert(list_consistent(items.skip(1), k)) by {
            assert forall|j: int| 0 <= j < items.skip(1).len() implies scalar_matches_kind(
                #[trigger] items.skip(1)[j],
                k,
            ) by {
                assert(items.skip(1)[j] == items[j + 1]);
            };
        };
        lemma_list_truncated(k, items.skip(1), full, pos + w, m);
        assert(spec_scalar_step(k, t, pos) == (ScalarOutcome::Got { s: items[0], end: pos + w }));
        match spec_decode_list(k, t, pos + w, n - 1) {
            ListOutcome::ListShort { offset, missing } => {
                assert(spec_decode_list(k, t, pos, n) == (ListOutcome::ListShort {
                    offset,
                    missing,
                }));
            },
            ListOutcome::Items { .. } => {
                assert(false);
            },
        }
    } else {
        assert(t.len() == m);
        assert(spec_scalar_step(k, t, pos) == (ScalarOutcome::Short {
            offset: pos,
            missing: pos + w - m,
        }));
        assert(spec_decode_list(k, t, pos, n) == (ListOutcome::ListShort {
            offset: pos,
            missing: pos + w - m,
        }));
    }
}

/// Cutting the encoding of fields `i..` short makes the decode of those
/// fields fail with `Truncated`, at the fixed-width read containing the cut.
proof fn lemma_fields_truncated(
    fields: Seq<FieldDecl>,
    values: Seq<FieldValueView>,
    full: Seq<u8>,
    i: int,
    pos: int,
    m: int,
)
    requires
        values_consistent(fields, values),
        0 <= i <= fields.len(),
        0 <= pos <= m,
        pos + spec_encode_fields(fields, values, i).len() <= full.len(),
        m < pos + spec_encode_fields(fields, values, i).len(),
        full.subrange(pos, pos + spec_encode_fields(fields, values, i).len())
            == spec_encode_fields(fields, values, i),
    ensures
        (match spec_decode_fields(fields, full.take(m), i, pos, values.take(i)) {
            SpecOutcome::Failure { field, offset, missing, kind } => kind
                == DecodeErrorKind::Truncated && i <= field < fields.len() && pos <= offset <= m
                && m < offset + width_of(fields[field].kind) && missing == offset + width_of(
                fields[field].kind,
            ) - m,
            SpecOutcome::Success { .. } => false,
        }),
    decreases fields.len() - i,
{
    if i >= fields.len() {
        assert(spec_encode_fields(fields, values, i).len() == 0);
        assert(false);
    }
    assert(value_consistent_at(fields, values, i));
    let d = fields[i];
    let v = values[i];
    let prior = values.take(i);
    let ev = spec_encode_value(v);
    let rest = spec_encode_fields(fields, values, i + 1);
    assert(spec_encode_fields(fields, values, i) == ev + rest);
    lemma_subrange_split(full, pos, ev, rest);
    let t = full.take(m);
    if pos + ev.len() <= m {
        lemma_take_subrange(full, m, pos, pos + ev.len());
        lemma_field_round_step(fields, values, t, i, pos);
        assert(values.take(i).push(values[i]) =~= values.take(i + 1));
        lemma_fields_truncated(fields, values, full, i + 1, pos + ev.len(), m);
        match spec_decode_fields(fields, t, i + 1, pos + ev.len(), values.take(i + 1)) {
            SpecOutcome::Failure { field, offset, missing, kind } => {
                assert(spec_decode_fields(fields, t, i, pos, values.take(i))
                    == (SpecOutcome::Failure { field, offset, missing, kind }));
            },
            SpecOutcome::Success { .. } => {
                assert(false);
            },
        }
    } else {
        assert(t.len() == m);
        match d.presence {
            None => {
                match d.count {
                    None => {
                        let s = v->Single_0;
                        lemma_scalar_enc(s, d.kind);
                        assert(spec_scalar_step(d.kind, t, pos) == (ScalarOutcome::Short {
                            offset: pos,
                            missing: pos + width_of(d.kind) - m,
                        }));
                    },
                    Some(c) => {
                        let items = v->List_0;
                        lemma_list_truncated(d.kind, items, full, pos, m);
                    },
                }
            },
            Some(p) => {
                match spec_eval_pred(fields, i, p, prior) {
                    None => {
                        assert(false);
                    },
                    Some(false) => {
                        assert(ev.len() == 0);
                        assert(false);
                    },
                    Some(true) => {
                        match d.count {
                            None => {
                                let s = v->OptSingle_0->Some_0;
                                lemma_scalar_enc(s, d.kind);
                                assert(spec_scalar_step(d.kind, t, pos) == (ScalarOutcome::Short {
                                    offset: pos,
                                    missing: pos + width_of(d.kind) - m,
                                }));
                            },
                            Some(c) => {
                                let items = v->OptList_0->Some_0;
                                lemma_list_truncated(d.kind, items, full, pos, m);
                            },
                        }
                    },
                }
            },
        }
    }
}

/// Truncation safety: cut a valid payload one or more bytes short anywhere
/// strictly inside it and decoding reports `Truncated` — never a
/// wrong-but-successful record — at the offset of the fixed-width read the
/// cut falls in, with the exact number of missing bytes.
pub proof fn lemma_truncation(fields: Seq<FieldDecl>, values: Seq<FieldValueView>, m: int)
    requires
        values_consistent(fields, values),
        0 <= m < spec_encode_fields(fields, values, 0).len(),
    ensures
        (match spec_decode_fragment(fields, spec_encode_fields(fields, values, 0).take(m)) {
            SpecOutcome::Failure { field, offset, missing, kind } => kind
                == DecodeErrorKind::Truncated && 0 <= field < fields.len() && 0 <= offset <= m
                && m < offset + width_of(fields[field].kind) && missing == offset + width_of(
                fields[field].kind,
            ) - m,
            SpecOutcome::Success { .. } => false,
        }),
{
    let enc = spec_encode_fields(fields, values, 0);
    assert(enc.subrange(0, enc.len() as int) =~= enc);
    assert(values.take(0) =~= Seq::<FieldValueView>::empty());
    lemma_fields_truncated(fields, values, enc, 0, 0, m);
}

/// A counted field whose count evaluates to zero decodes to the empty run
/// and consumes no bytes for the array itself, whatever the payload holds.
pub proof fn lemma_count_zero(
    fields: Seq<FieldDecl>,
    i: int,
    bytes: Seq<u8>,
    pos: int,
    vals: Seq<FieldValueView>,
)
    requires
        0 <= i < fields.len(),
        fields[i].presence is None,
        fields[i].count matches Some(c) && spec_count_of(fields, i, c, vals) == CountEval::Count(
            0,
        ),
    ensures
        spec_decode_field(fields, i, bytes, pos, vals) == (StepOutcome::Step {
            value: FieldValueView::List(Seq::empty()),
            end: pos,
        }),
{
}

/// A conditional field whose predicate evaluates false over the earlier
/// values is bound absent and consumes no bytes, regardless of what bytes
/// follow.
pub proof fn lemma_absent_consumes_nothing(
    fields: Seq<FieldDecl>,
    i: int,
    bytes: Seq<u8>,
    pos: int,
    vals: Seq<FieldValueView>,
)
    requires
        0 <= i < fields.len(),
        fields[i].presence matches Some(p) && spec_eval_pred(fields, i, p, vals) == Some(false),
    ensures
        spec_decode_field(fields, i, bytes, pos, vals) == (StepOutcome::Step {
            value: absent_value(fields[i]),
            end: pos,
        }),
{
}

/// A successful resolution finds a field in the searched range with the
/// searched name.
proof fn lemma_resolve_props(fields: Seq<FieldDecl>, j0: int, upto: int, name: Seq<char>)
    ensures
        (match resolve_from(fields, j0, upto, name) {
            Some(j) => j0 <= j < upto && upto <= fields.len() && fields[j].name@ == name,
            None => true,
        }),
    decreases upto - j0,
{
    if j0 < 0 || j0 >= upto || upto > fields.len() {
    } else if fields[j0].name@ == name {
    } else {
        lemma_resolve_props(fields, j0 + 1, upto, name);
    }
}

/// A fixed-width read yields a scalar of the kind it read.
proof fn lemma_scalar_at_matches(k: ValueKind, bytes: Seq<u8>, pos: int)
    ensures
        scalar_matches_kind(spec_scalar_at(k, bytes, pos), k),
{
    match k {
        ValueKind::U8 => {},
        ValueKind::I8 => {},
        ValueKind::U16 => {},
        ValueKind::I16 => {},
        ValueKind::U32 => {},
        ValueKind::I32 => {},
        ValueKind::F32 => {},
        ValueKind::StringRef => {},
    }
}

/// Every non-float scalar has integer bits and an integer value.
proof fn lemma_integer_scalar(s: Scalar, k: ValueKind)
    requires
        scalar_matches_kind(s, k),
        !(k is F32),
    ensures
        scalar_bits(s) is Some,
        scalar_count(s) is Some,
{
}

/// Decoding one field of a well-formed schema cannot report
/// `UnsupportedValueKind`, and the value it yields has the declared shape.
proof fn lemma_wf_step_not_unsupported(
    fields: Seq<FieldDecl>,
    i: int,
    bytes: Seq<u8>,
    pos: int,
    vals: Seq<FieldValueView>,
)
    requires
        decl_wf(fields, i),
        vals_shaped(fields, vals),
        vals.len() == i,
        0 <= i < fields.len(),
    ensures
        (match spec_decode_field(fields, i, bytes, pos, vals) {
            StepOutcome::StepFail { kind, .. } => kind != DecodeErrorKind::UnsupportedValueKind,
            StepOutcome::Step { value, .. } => val_shaped(fields[i], value),
        }),
{
    let d = fields[i];
    match d.presence {
        Some(p) => {
            let nm = pred_field_name(p);
            assert(ref_ok(fields, i, nm));
            let j = resolve_name(fields, i, nm)->Some_0;
            lemma_resolve_props(fields, 0, i, nm);
            assert(val_shaped(fields[j], vals[j]));
            lemma_integer_scalar(vals[j]->Single_0, fields[j].kind);
            assert(spec_eval_pred(fields, i, p, vals) is Some);
        },
        None => {},
    }
    match d.count {
        Some(c) => match c {
            CountSpec::Field(cnm) => {
                assert(ref_ok(fields, i, cnm@));
                let j = resolve_name(fields, i, cnm@)->Some_0;
                lemma_resolve_props(fields, 0, i, cnm@);
                assert(val_shaped(fields[j], vals[j]));
                lemma_integer_scalar(vals[j]->Single_0, fields[j].kind);
                assert(!(spec_count_of(fields, i, c, vals) is Unresolved));
            },
            CountSpec::Literal(_) => {
                assert(!(spec_count_of(fields, i, c, vals) is Unresolved));
            },
        },
        None => {},
    }
    if d.presence is None && d.count is None {
        lemma_scalar_at_matches(d.kind, bytes, pos);
    }
}

/// Decoding the remaining fields of a well-formed schema cannot report
/// `UnsupportedValueKind`.
proof fn lemma_wf_fields_not_unsupported(
    fields: Seq<FieldDecl>,
    bytes: Seq<u8>,
    i: int,
    pos: int,
    vals: Seq<FieldValueView>,
)
    requires
        schema_wf(fields),
        vals_shaped(fields, vals),
        vals.len() == i,
        0 <= i <= fields.len(),
    ensures
        (match spec_decode_fields(fields, bytes, i, pos, vals) {
            SpecOutcome::Failure { kind, .. } => kind != DecodeErrorKind::UnsupportedValueKind,
            SpecOutcome::Success { .. } => true,
        }),
    decreases fields.len() - i,
{
    if i < fields.len() {
        assert(decl_wf(fields, i));
        lemma_wf_step_not_unsupported(fields, i, bytes, pos, vals);
        match spec_decode_field(fields, i, bytes, pos, vals) {
            StepOutcome::Step { value, end } => {
                assert(vals_shaped(fields, vals.push(value))) by {
                    assert forall|j: int| 0 <= j < vals.push(value).len() implies val_shaped(
                        fields[j],
                        #[trigger] vals.push(value)[j],
                    ) by {
                        if j < vals.len() {
                            assert(vals.push(value)[j] == vals[j]);
                            assert(val_shaped(fields[j], vals[j]));
                        }
                    };
                };
                lemma_wf_fields_not_unsupported(fields, bytes, i + 1, end, vals.push(value));
            },
            StepOutcome::StepFail { .. } => {},
        }
    }
}

/// A schema that passes validation never reports `UnsupportedValueKind` at
/// decode time, on any payload: a broken schema is a programming error and
/// is caught once, at registration, not per decode.
pub proof fn lemma_wf_schema_never_unsupported(fields: Seq<FieldDecl>, bytes: Seq<u8>)
    requires
        schema_wf(fields),
    ensures
        (match spec_decode_fragment(fields, bytes) {
            SpecOutcome::Failure { kind, .. } => kind != DecodeErrorKind::UnsupportedValueKind,
            SpecOutcome::Success { .. } => true,
        }),
{
    lemma_wf_fields_not_unsupported(fields, bytes, 0, 0, Seq::empty());
}

/// The fragment type id and name take no part in decoding: two schemas with
/// the same field declarations decode every payload alike, whatever ids and
/// names they declare.  Checking that a payload's id matches what the caller
/// expected is the archive layer's job, not this engine's.
pub proof fn lemma_type_id_not_consulted(a: FragmentSchema, b: FragmentSchema, bytes: Seq<u8>)
    requires
        a.fields@ == b.fields@,
    ensures
        spec_decode_fragment(a.fields@, bytes) == spec_decode_fragment(b.fields@, bytes),
{
}

} // verus!
