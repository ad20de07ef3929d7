//! The executable decoding engine, proved equal to the model in
//! [`crate::model`].

use vstd::prelude::*;

use crate::error::{DecodeError, DecodeErrorKind};
use crate::model::{
    decl_wf, le_value, ref_ok, resolve_from, resolve_name, scalar_bits, scalar_count, schema_wf,
    spec_count_of, spec_decode_body, spec_decode_field, spec_decode_fields, spec_decode_fragment,
    spec_decode_list, spec_eval_pred, spec_scalar_at, spec_scalar_step, to_signed, to_unsigned,
    width_of, CountEval, ListOutcome, ScalarOutcome, SpecOutcome, StepOutcome,
};
use crate::schema::{CountSpec, FieldDecl, FragmentSchema, Predicate, ValueKind};
use crate::value::{entry_values, FieldEntry, FieldValue, FieldValueView, FragmentRecord, Scalar};

verus! {

/// Width in bytes of one value of kind `k`.
pub fn width(k: ValueKind) -> (w: usize)
    ensures
        w as int == width_of(k),
{
    match k {
        ValueKind::U8 => 1,
        ValueKind::I8 => 1,
        ValueKind::U16 => 2,
        ValueKind::I16 => 2,
        ValueKind::U32 => 4,
        ValueKind::I32 => 4,
        ValueKind::F32 => 4,
        ValueKind::StringRef => 4,
    }
}

proof fn lemma_le1(s: Seq<u8>)
    requires
        s.len() == 1,
    ensures
        le_value(s) == s[0],
{
    assert(s.skip(1) =~= Seq::<u8>::empty());
    assert(le_value(Seq::<u8>::empty()) == 0);
}

proof fn lemma_le2(s: Seq<u8>)
    requires
        s.len() == 2,
    ensures
        le_value(s) == s[0] + 0x100 * s[1],
        0 <= le_value(s) < 0x10000,
{
    lemma_le1(s.skip(1));
    assert(s.skip(1)[0] == s[1]);
}

proof fn lemma_le4(s: Seq<u8>)
    requires
        s.len() == 4,
    ensures
        le_value(s) == s[0] + 0x100 * s[1] + 0x10000 * s[2] + 0x100_0000 * s[3],
        0 <= le_value(s) < 0x1_0000_0000,
{
    let t = s.skip(1);
    let t2 = t.skip(1);
    lemma_le2(t2);
    assert(t[0] == s[1] && t2[0] == s[2] && t2[1] == s[3]);
    assert(le_value(t) == t[0] + 0x100 * le_value(t2));
    assert(le_value(s) == s[0] + 0x100 * le_value(t));
}

/// 16-bit little-endian read at `pos`.
fn read_u16(bytes: &[u8], pos: usize) -> (u: u16)
    requires
        pos + 2 <= bytes@.len(),
    ensures
        u as int == le_value(bytes@.subrange(pos as int, pos as int + 2)),
{
    let b0 = bytes[pos];
    let b1 = bytes[pos + 1];
    proof {
        let s = bytes@.subrange(pos as int, pos as int + 2);
        lemma_le2(s);
        assert(s[0] == b0 && s[1] == b1);
    }
    b0 as u16 + 0x100 * (b1 as u16)
}

/// 32-bit little-endian read at `pos`.
fn read_u32(bytes: &[u8], pos: usize) -> (u: u32)
    requires
        pos + 4 <= bytes@.len(),
    ensures
        u as int == le_value(bytes@.subrange(pos as int, pos as int + 4)),
{
    let b0 = bytes[pos];
    let b1 = bytes[pos + 1];
    let b2 = bytes[pos + 2];
    let b3 = bytes[pos + 3];
    proof {
        let s = bytes@.subrange(pos as int, pos as int + 4);
        lemma_le4(s);
        assert(s[0] == b0 && s[1] == b1 && s[2] == b2 && s[3] == b3);
    }
    b0 as u32 + 0x100 * (b1 as u32) + 0x10000 * (b2 as u32) + 0x100_0000 * (b3 as u32)
}

/// Two's-complement reading of a 32-bit pattern.
fn signed32(u: u32) -> (v: i32)
    ensures
        v as int == to_signed(u as int, 0x1_0000_0000),
{
    if u < 0x8000_0000 {
        u as i32
    } else {
        ((u as i64) - 0x1_0000_0000i64) as i32
    }
}

/// One fixed-width read of kind `k` at `pos`; on failure, the offset of the
/// read and the number of bytes missing.
fn read_scalar(k: ValueKind, bytes: &[u8], pos: usize) -> (res: Result<(Scalar, usize), (usize, usize)>)
    requires
        pos <= bytes@.len(),
    ensures
        (match res {
            Ok((s, end)) => spec_scalar_step(k, bytes@, pos as int) == (ScalarOutcome::Got {
                s,
                end: end as int,
            }) && pos <= end <= bytes@.len(),
            Err((offset, missing)) => spec_scalar_step(k, bytes@, pos as int)
                == (ScalarOutcome::Short { offset: offset as int, missing: missing as int }),
        }),
{
    let w = width(k);
    let avail = bytes.len() - pos;
    if avail < w {
        return Err((pos, w - avail));
    }
    let ghost sub = bytes@.subrange(pos as int, pos as int + width_of(k));
    let s = match k {
        ValueKind::U8 => {
            let b0 = bytes[pos];
            proof {
                lemma_le1(sub);
                assert(sub[0] == b0);
            }
            Scalar::U8(b0)
        },
        ValueKind::I8 => {
            let b0 = bytes[pos];
            proof {
                lemma_le1(sub);
                assert(sub[0] == b0);
            }
            let v: i8 = if b0 < 0x80 {
                b0 as i8
            } else {
                ((b0 as i16) - 0x100i16) as i8
            };
            Scalar::I8(v)
        },
        ValueKind::U16 => Scalar::U16(read_u16(bytes, pos)),
        ValueKind::I16 => {
            let u = read_u16(bytes, pos);
            let v: i16 = if u < 0x8000 {
                u as i16
            } else {
                ((u as i32) - 0x10000i32) as i16
            };
            Scalar::I16(v)
        },
        ValueKind::U32 => Scalar::U32(read_u32(bytes, pos)),
        ValueKind::I32 => Scalar::I32(signed32(read_u32(bytes, pos))),
        ValueKind::F32 => Scalar::F32Bits(read_u32(bytes, pos)),
        ValueKind::StringRef => Scalar::StringRef(signed32(read_u32(bytes, pos))),
    };
    assert(s == spec_scalar_at(k, bytes@, pos as int));
    Ok((s, pos + w))
}

/// Index of the first of the `upto` earliest declarations named `name`.
fn resolve_field(fields: &Vec<FieldDecl>, upto: usize, name: &String) -> (res: Option<usize>)
    requires
        upto <= fields@.len(),
    ensures
        (match res {
            Some(j) => resolve_name(fields@, upto as int, name@) == Some(j as int) && j < upto,
            None => resolve_name(fields@, upto as int, name@) is None,
        }),
{
    for j in 0..upto
        invariant
            upto <= fields@.len(),
            resolve_name(fields@, upto as int, name@) == resolve_from(
                fields@,
                j as int,
                upto as int,
                name@,
            ),
    {
        if fields[j].name == *name {
            return Some(j);
        }
    }
    None
}

/// The 32-bit bit pattern of an integer scalar, sign kinds sign-extended.
fn exec_scalar_bits(s: &Scalar) -> (res: Option<u32>)
    ensures
        res == scalar_bits(*s),
{
    match s {
        Scalar::U8(x) => Some(*x as u32),
        Scalar::I8(x) => Some(bits32(*x as i32)),
        Scalar::U16(x) => Some(*x as u32),
        Scalar::I16(x) => Some(bits32(*x as i32)),
        Scalar::U32(x) => Some(*x),
        Scalar::I32(x) => Some(bits32(*x)),
        Scalar::F32Bits(_) => None,
        Scalar::StringRef(x) => Some(bits32(*x)),
    }
}

/// Two's-complement 32-bit pattern of a signed value.
fn bits32(x: i32) -> (r: u32)
    ensures
        r as int == to_unsigned(x as int, 0x1_0000_0000),
{
    if x >= 0 {
        x as u32
    } else {
        ((x as i64) + 0x1_0000_0000i64) as u32
    }
}

/// The signed integer value of an integer scalar.
fn exec_scalar_count(s: &Scalar) -> (res: Option<i64>)
    ensures
        (match res {
            Some(n) => scalar_count(*s) == Some(n as int),
            None => scalar_count(*s) is None,
        }),
{
    match s {
        Scalar::U8(x) => Some(*x as i64),
        Scalar::I8(x) => Some(*x as i64),
        Scalar::U16(x) => Some(*x as i64),
        Scalar::I16(x) => Some(*x as i64),
        Scalar::U32(x) => Some(*x as i64),
        Scalar::I32(x) => Some(*x as i64),
        Scalar::F32Bits(_) => None,
        Scalar::StringRef(x) => Some(*x as i64),
    }
}

/// A presence predicate evaluated over the decoded entries so far.
fn eval_pred(fields: &Vec<FieldDecl>, i: usize, p: &Predicate, entries: &Vec<FieldEntry>) -> (res:
    Option<bool>)
    requires
        i <= fields@.len(),
        entries@.len() == i as int,
    ensures
        res == spec_eval_pred(fields@, i as int, *p, entry_values(entries@)),
{
    match p {
        Predicate::HasFlag { field, mask } => match resolve_field(fields, i, field) {
            None => None,
            Some(j) => {
                assert(entry_values(entries@)[j as int] == entries@[j as int].value@);
                match &entries[j].value {
                    FieldValue::Single(s) => match exec_scalar_bits(s) {
                        Some(b) => Some((b & *mask) != 0),
                        None => None,
                    },
                    _ => None,
                }
            },
        },
        Predicate::Equals { field, value } => match resolve_field(fields, i, field) {
            None => None,
            Some(j) => {
                assert(entry_values(entries@)[j as int] == entries@[j as int].value@);
                match &entries[j].value {
                    FieldValue::Single(s) => match exec_scalar_bits(s) {
                        Some(b) => Some(b == *value),
                        None => None,
                    },
                    _ => None,
                }
            },
        },
    }
}

/// A count specification evaluated over the decoded entries so far.  `Ok` is
/// a usable count; `Err` carries the error kind the field decode reports.
fn eval_count(fields: &Vec<FieldDecl>, i: usize, c: &CountSpec, entries: &Vec<FieldEntry>) -> (res:
    Result<u32, DecodeErrorKind>)
    requires
        i <= fields@.len(),
        entries@.len() == i as int,
    ensures
        (match res {
            Ok(n) => spec_count_of(fields@, i as int, *c, entry_values(entries@))
                == CountEval::Count(n as int),
            Err(kind) => (kind == DecodeErrorKind::MalformedCount && spec_count_of(
                fields@,
                i as int,
                *c,
                entry_values(entries@),
            ) == CountEval::Malformed) || (kind == DecodeErrorKind::UnsupportedValueKind
                && spec_count_of(fields@, i as int, *c, entry_values(entries@))
                == CountEval::Unresolved),
        }),
{
    match c {
        CountSpec::Literal(k) => {
            if *k <= crate::MAX_FIELD_COUNT {
                Ok(*k)
            } else {
                Err(DecodeErrorKind::MalformedCount)
            }
        },
        CountSpec::Field(nm) => match resolve_field(fields, i, nm) {
            None => Err(DecodeErrorKind::UnsupportedValueKind),
            Some(j) => {
                assert(entry_values(entries@)[j as int] == entries@[j as int].value@);
                match &entries[j].value {
                    FieldValue::Single(s) => match exec_scalar_count(s) {
                        Some(n) => {
                            if n < 0 || n > crate::MAX_FIELD_COUNT as i64 {
                                Err(DecodeErrorKind::MalformedCount)
                            } else {
                                Ok(n as u32)
                            }
                        },
                        None => Err(DecodeErrorKind::UnsupportedValueKind),
                    },
                    _ => Err(DecodeErrorKind::UnsupportedValueKind),
                }
            },
        },
    }
}

/// `n` consecutive reads of kind `k` starting at `pos`.
fn decode_list(k: ValueKind, bytes: &[u8], pos: usize, n: u32) -> (res: Result<
    (Vec<Scalar>, usize),
    (usize, usize),
>)
    requires
        pos <= bytes@.len(),
    ensures
        (match res {
            Ok((items, end)) => spec_decode_list(k, bytes@, pos as int, n as int)
                == (ListOutcome::Items { items: items@, end: end as int }) && pos <= end
                <= bytes@.len(),
            Err((offset, missing)) => spec_decode_list(k, bytes@, pos as int, n as int)
                == (ListOutcome::ListShort { offset: offset as int, missing: missing as int }),
        }),
{
    let mut items: Vec<Scalar> = Vec::new();
    let mut cur: usize = pos;
    let mut j: u32 = 0;
    while j < n
        invariant
            pos <= cur <= bytes@.len(),
            j <= n,
            items@.len() == j as int,
            (match spec_decode_list(k, bytes@, cur as int, n - j) {
                ListOutcome::Items { items: rest, end } => spec_decode_list(
                    k,
                    bytes@,
                    pos as int,
                    n as int,
                ) == (ListOutcome::Items { items: items@ + rest, end }),
                ListOutcome::ListShort { offset, missing } => spec_decode_list(
                    k,
                    bytes@,
                    pos as int,
                    n as int,
                ) == (ListOutcome::ListShort { offset, missing }),
            }),
        decreases n - j,
    {
        match read_scalar(k, bytes, cur) {
            Err((offset, missing)) => {
                return Err((offset, missing));
            },
            Ok((s, end)) => {
                proof {
                    let rest_outcome = spec_decode_list(k, bytes@, end as int, n - j - 1);
                    match rest_outcome {
                        ListOutcome::Items { items: rest2, end: e2 } => {
                            assert(items@ + (seq![s] + rest2) =~= items@.push(s) + rest2);
                        },
                        ListOutcome::ListShort { .. } => {},
                    }
                }
                items.push(s);
                cur = end;
                j = j + 1;
            },
        }
    }
    proof {
        assert(items@ + Seq::<Scalar>::empty() =~= items@);
    }
    Ok((items, cur))
}

/// The body of field `i` — a single scalar or a counted run — ignoring any
/// presence predicate.
fn decode_body(
    fields: &Vec<FieldDecl>,
    i: usize,
    bytes: &[u8],
    pos: usize,
    entries: &Vec<FieldEntry>,
) -> (res: Result<(FieldValue, usize), (usize, usize, DecodeErrorKind)>)
    requires
        i < fields@.len(),
        entries@.len() == i as int,
        pos <= bytes@.len(),
    ensures
        (match res {
            Ok((v, end)) => spec_decode_body(
                fields@,
                i as int,
                bytes@,
                pos as int,
                entry_values(entries@),
            ) == (StepOutcome::Step { value: v@, end: end as int }) && pos <= end <= bytes@.len(),
            Err((offset, missing, kind)) => spec_decode_body(
                fields@,
                i as int,
                bytes@,
                pos as int,
                entry_values(entries@),
            ) == (StepOutcome::StepFail { offset: offset as int, missing: missing as int, kind }),
        }),
{
    let d = &fields[i];
    match &d.count {
        None => match read_scalar(d.kind, bytes, pos) {
            Ok((s, end)) => Ok((FieldValue::Single(s), end)),
            Err((offset, missing)) => Err((offset, missing, DecodeErrorKind::Truncated)),
        },
        Some(c) => match eval_count(fields, i, c, entries) {
            Err(kind) => Err((pos, 0, kind)),
            Ok(n) => match decode_list(d.kind, bytes, pos, n) {
                Ok((items, end)) => Ok((FieldValue::List(items), end)),
                Err((offset, missing)) => Err((offset, missing, DecodeErrorKind::Truncated)),
            },
        },
    }
}

/// Decode field `i` at `pos`, given the entries decoded so far.
fn decode_field(
    fields: &Vec<FieldDecl>,
    i: usize,
    bytes: &[u8],
    pos: usize,
    entries: &Vec<FieldEntry>,
) -> (res: Result<(FieldValue, usize), (usize, usize, DecodeErrorKind)>)
    requires
        i < fields@.len(),
        entries@.len() == i as int,
        pos <= bytes@.len(),
    ensures
        (match res {
            Ok((v, end)) => spec_decode_field(
                fields@,
                i as int,
                bytes@,
                pos as int,
                entry_values(entries@),
            ) == (StepOutcome::Step { value: v@, end: end as int }) && pos <= end <= bytes@.len(),
            Err((offset, missing, kind)) => spec_decode_field(
                fields@,
                i as int,
                bytes@,
                pos as int,
                entry_values(entries@),
            ) == (StepOutcome::StepFail { offset: offset as int, missing: missing as int, kind }),
        }),
{
    let d = &fields[i];
    match &d.presence {
        None => decode_body(fields, i, bytes, pos, entries),
        Some(p) => match eval_pred(fields, i, p, entries) {
            None => Err((pos, 0, DecodeErrorKind::UnsupportedValueKind)),
            Some(false) => {
                let v = if d.count.is_some() {
                    FieldValue::OptList(None)
                } else {
                    FieldValue::OptSingle(None)
                };
                Ok((v, pos))
            },
            Some(true) => match decode_body(fields, i, bytes, pos, entries) {
                Ok((v, end)) => {
                    let wrapped = match v {
                        FieldValue::Single(s) => FieldValue::OptSingle(Some(s)),
                        FieldValue::List(l) => FieldValue::OptList(Some(l)),
                        x => x,
                    };
                    Ok((wrapped, end))
                },
                Err(e) => Err(e),
            },
        },
    }
}

/// Whether a reference from field `i` to the field named `name` is sound:
/// it resolves to an earlier plain integer field.
fn check_ref(fields: &Vec<FieldDecl>, i: usize, name: &String) -> (ok: bool)
    requires
        i <= fields@.len(),
    ensures
        ok == ref_ok(fields@, i as int, name@),
{
    match resolve_field(fields, i, name) {
        None => false,
        Some(j) => {
            let d = &fields[j];
            let kind_ok = match d.kind {
                ValueKind::F32 => false,
                _ => true,
            };
            d.count.is_none() && d.presence.is_none() && kind_ok
        },
    }
}

impl FragmentSchema {
    /// Check this schema once, at registration time: every count and every
    /// presence predicate must address an earlier field that is a plain
    /// (unmodified) integer.  A schema that passes never reports
    /// `UnsupportedValueKind` at decode time, on any payload
    /// (see [`crate::laws::lemma_wf_schema_never_unsupported`]); a schema
    /// that fails is a programming error, not a data error.
    pub fn validate(&self) -> (ok: bool)
        ensures
            ok == schema_wf(self.fields@),
    {
        let n = self.fields.len();
        for i in 0..n
            invariant
                n == self.fields@.len(),
                forall|k: int| 0 <= k < i as int ==> #[trigger] decl_wf(self.fields@, k),
        {
            let d = &self.fields[i];
            let count_ok = match &d.count {
                Some(CountSpec::Field(nm)) => check_ref(&self.fields, i, nm),
                Some(CountSpec::Literal(_)) => true,
                None => true,
            };
            let presence_ok = match &d.presence {
                Some(Predicate::HasFlag { field, .. }) => check_ref(&self.fields, i, field),
                Some(Predicate::Equals { field, .. }) => check_ref(&self.fields, i, field),
                None => true,
            };
            if !(count_ok && presence_ok) {
                assert(!decl_wf(self.fields@, i as int));
                return false;
            }
            assert(decl_wf(self.fields@, i as int));
        }
        true
    }

    /// Decode one fragment payload against this schema.
    ///
    /// On success the record binds every declared field, in order, and the
    /// returned count says how many payload bytes the fragment consumed; the
    /// remainder is the caller's (archive padding and alignment are not this
    /// engine's concern).  On failure the error names this fragment, the
    /// field being decoded, the byte offset of the failing read and the
    /// failure kind.  The outcome in both cases is exactly
    /// [`spec_decode_fragment`] on the declared fields — the fragment type
    /// id takes no part in decoding.
    pub fn decode(&self, bytes: &[u8]) -> (res: Result<(FragmentRecord, usize), DecodeError>)
        ensures
            (match res {
                Ok((rec, used)) => spec_decode_fragment(self.fields@, bytes@)
                    == (SpecOutcome::Success {
                    values: entry_values(rec.fields@),
                    end: used as int,
                }) && used <= bytes@.len() && rec.type_id == self.type_id && rec.name@ == self.name@
                    && rec.fields@.len() == self.fields@.len() && (forall|k: int|
                    0 <= k < self.fields@.len() ==> (#[trigger] rec.fields@[k].name@)
                        == self.fields@[k].name@),
                Err(e) => (match spec_decode_fragment(self.fields@, bytes@) {
                    SpecOutcome::Failure { field, offset, missing, kind } => e.kind == kind
                        && e.offset as int == offset && e.missing as int == missing
                        && 0 <= field < self.fields@.len() && e.field_name@
                        == self.fields@[field].name@ && e.fragment_name@ == self.name@,
                    SpecOutcome::Success { .. } => false,
                }),
            }),
    {
        let n = self.fields.len();
        let mut entries: Vec<FieldEntry> = Vec::new();
        let mut pos: usize = 0;
        let mut i: usize = 0;
        proof {
            assert(entry_values(Seq::<FieldEntry>::empty()) =~= Seq::<FieldValueView>::empty());
        }
        while i < n
            invariant
                n == self.fields@.len(),
                i <= n,
                entries@.len() == i as int,
                pos <= bytes@.len(),
                forall|k: int|
                    0 <= k < i as int ==> (#[trigger] entries@[k].name@)
                        == self.fields@[k].name@,
                spec_decode_fragment(self.fields@, bytes@) == spec_decode_fields(
                    self.fields@,
                    bytes@,
                    i as int,
                    pos as int,
                    entry_values(entries@),
                ),
            decreases n - i,
        {
            match decode_field(&self.fields, i, bytes, pos, &entries) {
                Ok((v, end)) => {
                    let entry = FieldEntry { name: self.fields[i].name.clone(), value: v };
                    proof {
                        assert(entry_values(entries@.push(entry)) =~= entry_values(
                            entries@,
                        ).push(entry.value@));
                    }
                    entries.push(entry);
                    pos = end;
                    i = i + 1;
                },
                Err((offset, missing, kind)) => {
                    return Err(
                        DecodeError {
                            fragment_name: self.name.clone(),
                            field_name: self.fields[i].name.clone(),
                            offset,
                            missing,
                            kind,
                        },
                    );
                },
            }
        }
        Ok(
            (
                FragmentRecord {
                    type_id: self.type_id,
                    name: self.name.clone(),
                    fields: entries,
                },
                pos,
            ),
        )
    }
}

} // verus!
