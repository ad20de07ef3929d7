use wld_fragment::error::DecodeErrorKind;
use wld_fragment::schema::{CountSpec, FieldDecl, FragmentSchema, Predicate, ValueKind};
use wld_fragment::value::{FieldValue, Scalar};

fn one_field(kind: ValueKind) -> FragmentSchema {
    FragmentSchema {
        type_id: 0x10,
        name: "One".to_string(),
        fields: vec![FieldDecl::plain("v".to_string(), kind)],
    }
}

#[test]
fn u8_decodes() {
    let (rec, used) = one_field(ValueKind::U8).decode(&[0xFE]).unwrap();
    assert_eq!(used, 1);
    assert_eq!(rec.fields[0].value, FieldValue::Single(Scalar::U8(0xFE)));
}

#[test]
fn i8_decodes_negative() {
    let (rec, _) = one_field(ValueKind::I8).decode(&[0xFF]).unwrap();
    assert_eq!(rec.fields[0].value, FieldValue::Single(Scalar::I8(-1)));
}

#[test]
fn u16_decodes_little_endian() {
    let (rec, _) = one_field(ValueKind::U16).decode(&[0x34, 0x12]).unwrap();
    assert_eq!(rec.fields[0].value, FieldValue::Single(Scalar::U16(0x1234)));
}

#[test]
fn i16_decodes_most_negative() {
    let (rec, _) = one_field(ValueKind::I16).decode(&[0x00, 0x80]).unwrap();
    assert_eq!(rec.fields[0].value, FieldValue::Single(Scalar::I16(-32768)));
}

#[test]
fn u32_decodes_little_endian() {
    let (rec, _) = one_field(ValueKind::U32)
        .decode(&[0x78, 0x56, 0x34, 0x12])
        .unwrap();
    assert_eq!(
        rec.fields[0].value,
        FieldValue::Single(Scalar::U32(0x12345678))
    );
}

#[test]
fn i32_decodes_negative() {
    let (rec, _) = one_field(ValueKind::I32)
        .decode(&[0xFE, 0xFF, 0xFF, 0xFF])
        .unwrap();
    assert_eq!(rec.fields[0].value, FieldValue::Single(Scalar::I32(-2)));
}

#[test]
fn f32_bits_are_preserved() {
    let bits = (-2.5f32).to_bits();
    let bytes = bits.to_le_bytes();
    let (rec, _) = one_field(ValueKind::F32).decode(&bytes).unwrap();
    match rec.fields[0].value {
        FieldValue::Single(Scalar::F32Bits(b)) => {
            assert_eq!(f32::from_bits(b), -2.5f32);
        }
        ref other => panic!("unexpected value: {:?}", other),
    }
}

#[test]
fn string_reference_is_a_signed_index() {
    // Real archives use negative references into the string table.
    let (rec, _) = one_field(ValueKind::StringRef)
        .decode(&[0xF6, 0xFF, 0xFF, 0xFF])
        .unwrap();
    assert_eq!(
        rec.fields[0].value,
        FieldValue::Single(Scalar::StringRef(-10))
    );
}

#[test]
fn truncated_scalar_reports_shortfall() {
    let err = one_field(ValueKind::U32).decode(&[0x01, 0x02]).unwrap_err();
    assert_eq!(err.kind, DecodeErrorKind::Truncated);
    assert_eq!(err.offset, 0);
    assert_eq!(err.missing, 2);
    assert_eq!(err.field_name, "v");
}

/// The shape of the archive's classic test fragment: a string reference,
/// flags, a count, a counted array, a float present when `flags == 0x01`,
/// and an optional counted array gated the same way.
fn classic_schema() -> FragmentSchema {
    FragmentSchema {
        type_id: 0x01,
        name: "TestFragment".to_string(),
        fields: vec![
            FieldDecl::plain("name_reference".to_string(), ValueKind::StringRef),
            FieldDecl::plain("flags".to_string(), ValueKind::U32),
            FieldDecl::plain("some_count".to_string(), ValueKind::U32),
            FieldDecl::counted(
                "some_stuff".to_string(),
                ValueKind::U32,
                CountSpec::Field("some_count".to_string()),
            ),
            FieldDecl::conditional(
                "something_else".to_string(),
                ValueKind::F32,
                Predicate::Equals { field: "flags".to_string(), value: 0x01 },
            ),
            FieldDecl::conditional_counted(
                "optional_thing".to_string(),
                ValueKind::U32,
                CountSpec::Field("some_count".to_string()),
                Predicate::Equals { field: "flags".to_string(), value: 0x01 },
            ),
        ],
    }
}

#[test]
fn classic_fragment_all_present() {
    let bytes = vec![
        0xF6, 0xFF, 0xFF, 0xFF, // name_reference = -10
        0x01, 0x00, 0x00, 0x00, // flags = 1
        0x01, 0x00, 0x00, 0x00, // some_count = 1
        0x2A, 0x00, 0x00, 0x00, // some_stuff = [42]
        0x00, 0x00, 0x80, 0x3F, // something_else = 1.0f32
        0x07, 0x00, 0x00, 0x00, // optional_thing = [7]
    ];
    let (rec, used) = classic_schema().decode(&bytes).unwrap();
    assert_eq!(used, 24);
    assert_eq!(
        rec.fields[0].value,
        FieldValue::Single(Scalar::StringRef(-10))
    );
    assert_eq!(
        rec.fields[3].value,
        FieldValue::List(vec![Scalar::U32(42)])
    );
    assert_eq!(
        rec.fields[4].value,
        FieldValue::OptSingle(Some(Scalar::F32Bits(0x3F80_0000)))
    );
    assert_eq!(
        rec.fields[5].value,
        FieldValue::OptList(Some(vec![Scalar::U32(7)]))
    );
}

#[test]
fn classic_fragment_all_absent() {
    let bytes = vec![
        0xF6, 0xFF, 0xFF, 0xFF, // name_reference
        0x02, 0x00, 0x00, 0x00, // flags = 2: both predicates false
        0x01, 0x00, 0x00, 0x00, // some_count = 1
        0x2A, 0x00, 0x00, 0x00, // some_stuff = [42]
    ];
    let (rec, used) = classic_schema().decode(&bytes).unwrap();
    assert_eq!(used, 16);
    assert_eq!(rec.fields[4].value, FieldValue::OptSingle(None));
    assert_eq!(rec.fields[5].value, FieldValue::OptList(None));
}

#[test]
fn record_lookup_by_name() {
    let bytes = vec![
        0xF6, 0xFF, 0xFF, 0xFF, 0x02, 0x00, 0x00, 0x00, 0x00, 0x00, 0x00, 0x00,
    ];
    let (rec, _) = classic_schema().decode(&bytes).unwrap();
    let flags = rec.get(&"flags".to_string()).unwrap();
    assert_eq!(*flags, FieldValue::Single(Scalar::U32(2)));
    assert!(rec.get(&"no_such_field".to_string()).is_none());
}

#[test]
fn later_fields_cannot_be_referenced() {
    // A count may only address an *earlier* field: the single left-to-right
    // pass has not decoded "late" yet.
    let schema = FragmentSchema {
        type_id: 0x11,
        name: "Forward".to_string(),
        fields: vec![
            FieldDecl::counted(
                "items".to_string(),
                ValueKind::U8,
                CountSpec::Field("late".to_string()),
            ),
            FieldDecl::plain("late".to_string(), ValueKind::U8),
        ],
    };
    let err = schema.decode(&[0x01, 0x01]).unwrap_err();
    assert_eq!(err.kind, DecodeErrorKind::UnsupportedValueKind);
    assert_eq!(err.field_name, "items");
}

#[test]
fn flag_mask_selects_single_bit() {
    let schema = FragmentSchema {
        type_id: 0x12,
        name: "Bits".to_string(),
        fields: vec![
            FieldDecl::plain("flags".to_string(), ValueKind::U32),
            FieldDecl::conditional(
                "hi".to_string(),
                ValueKind::U8,
                Predicate::HasFlag { field: "flags".to_string(), mask: 0x8000_0000 },
            ),
        ],
    };
    // Bit 31 set: present.
    let (rec, used) = schema.decode(&[0x00, 0x00, 0x00, 0x80, 0x11]).unwrap();
    assert_eq!(used, 5);
    assert_eq!(
        rec.fields[1].value,
        FieldValue::OptSingle(Some(Scalar::U8(0x11)))
    );
    // Every bit but 31 set: absent.
    let (rec2, used2) = schema.decode(&[0xFF, 0xFF, 0xFF, 0x7F, 0x11]).unwrap();
    assert_eq!(used2, 4);
    assert_eq!(rec2.fields[1].value, FieldValue::OptSingle(None));
}

#[test]
fn signed_count_field_accepts_positive_values() {
    let schema = FragmentSchema {
        type_id: 0x13,
        name: "SignedCount".to_string(),
        fields: vec![
            FieldDecl::plain("n".to_string(), ValueKind::I8),
            FieldDecl::counted(
                "items".to_string(),
                ValueKind::U8,
                CountSpec::Field("n".to_string()),
            ),
        ],
    };
    let (rec, used) = schema.decode(&[0x02, 0xAA, 0xBB]).unwrap();
    assert_eq!(used, 3);
    assert_eq!(
        rec.fields[1].value,
        FieldValue::List(vec![Scalar::U8(0xAA), Scalar::U8(0xBB)])
    );
}
