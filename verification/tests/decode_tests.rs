use wld_fragment::error::DecodeErrorKind;
use wld_fragment::schema::{CountSpec, FieldDecl, FragmentSchema, Predicate, ValueKind};
use wld_fragment::value::{FieldValue, Scalar};

/// The schema of the worked scenario: flags, count, a count-sized array of
/// u32, and a float present only when bit 0 of flags is set.
fn scenario_schema() -> FragmentSchema {
    FragmentSchema {
        type_id: 0x01,
        name: "Scenario".to_string(),
        fields: vec![
            FieldDecl::plain("flags".to_string(), ValueKind::U32),
            FieldDecl::plain("count".to_string(), ValueKind::U32),
            FieldDecl::counted(
                "values".to_string(),
                ValueKind::U32,
                CountSpec::Field("count".to_string()),
            ),
            FieldDecl::conditional(
                "extra".to_string(),
                ValueKind::F32,
                Predicate::HasFlag { field: "flags".to_string(), mask: 0x01 },
            ),
        ],
    }
}

fn scenario_payload_present() -> Vec<u8> {
    vec![
        0x01, 0x00, 0x00, 0x00, // flags = 1
        0x02, 0x00, 0x00, 0x00, // count = 2
        0x0A, 0x00, 0x00, 0x00, // values[0] = 10
        0x14, 0x00, 0x00, 0x00, // values[1] = 20
        0x00, 0x00, 0x80, 0x3F, // extra = 1.0f32
    ]
}

#[test]
fn scenario_flags_present() {
    let schema = scenario_schema();
    let bytes = scenario_payload_present();
    let (rec, used) = schema.decode(&bytes).unwrap();
    assert_eq!(used, 20);
    assert_eq!(rec.type_id, 0x01);
    assert_eq!(rec.fields.len(), 4);
    assert_eq!(rec.fields[0].name, "flags");
    assert_eq!(rec.fields[0].value, FieldValue::Single(Scalar::U32(1)));
    assert_eq!(rec.fields[1].value, FieldValue::Single(Scalar::U32(2)));
    assert_eq!(
        rec.fields[2].value,
        FieldValue::List(vec![Scalar::U32(10), Scalar::U32(20)])
    );
    match &rec.fields[3].value {
        FieldValue::OptSingle(Some(Scalar::F32Bits(bits))) => {
            assert_eq!(*bits, 0x3F80_0000);
            assert_eq!(f32::from_bits(*bits), 1.0f32);
        }
        other => panic!("unexpected extra value: {:?}", other),
    }
}

#[test]
fn scenario_flags_absent() {
    let schema = scenario_schema();
    let bytes = vec![
        0x00, 0x00, 0x00, 0x00, // flags = 0
        0x02, 0x00, 0x00, 0x00, // count = 2
        0x0A, 0x00, 0x00, 0x00, // values[0] = 10
        0x14, 0x00, 0x00, 0x00, // values[1] = 20
    ];
    let (rec, used) = schema.decode(&bytes).unwrap();
    assert_eq!(used, 16);
    assert_eq!(rec.fields[3].value, FieldValue::OptSingle(None));
}

#[test]
fn scenario_consumes_twelve_bytes_with_count_one() {
    // flags = 0 and a single element: 4 + 4 + 4 bytes, none for `extra`.
    let schema = scenario_schema();
    let bytes = vec![
        0x00, 0x00, 0x00, 0x00, // flags = 0
        0x01, 0x00, 0x00, 0x00, // count = 1
        0x0A, 0x00, 0x00, 0x00, // values[0] = 10
    ];
    let (rec, used) = schema.decode(&bytes).unwrap();
    assert_eq!(used, 12);
    assert_eq!(rec.fields[2].value, FieldValue::List(vec![Scalar::U32(10)]));
    assert_eq!(rec.fields[3].value, FieldValue::OptSingle(None));
}

#[test]
fn count_zero_yields_empty_list_and_no_bytes() {
    let schema = FragmentSchema {
        type_id: 0x02,
        name: "Counted".to_string(),
        fields: vec![
            FieldDecl::plain("count".to_string(), ValueKind::U32),
            FieldDecl::counted(
                "items".to_string(),
                ValueKind::U16,
                CountSpec::Field("count".to_string()),
            ),
        ],
    };
    let bytes = vec![0x00, 0x00, 0x00, 0x00];
    let (rec, used) = schema.decode(&bytes).unwrap();
    assert_eq!(used, 4); // the array itself consumed nothing
    assert_eq!(rec.fields[1].value, FieldValue::List(vec![]));
}

#[test]
fn absent_field_ignores_trailing_bytes() {
    let schema = FragmentSchema {
        type_id: 0x03,
        name: "Cond".to_string(),
        fields: vec![
            FieldDecl::plain("flags".to_string(), ValueKind::U32),
            FieldDecl::conditional(
                "maybe".to_string(),
                ValueKind::U32,
                Predicate::HasFlag { field: "flags".to_string(), mask: 0x01 },
            ),
        ],
    };
    // Predicate is false; the four trailing garbage bytes must not be read.
    let bytes = vec![0x00, 0x00, 0x00, 0x00, 0xDE, 0xAD, 0xBE, 0xEF];
    let (rec, used) = schema.decode(&bytes).unwrap();
    assert_eq!(used, 4);
    assert_eq!(rec.fields[1].value, FieldValue::OptSingle(None));
}

#[test]
fn truncation_inside_array_element() {
    let schema = scenario_schema();
    let mut bytes = scenario_payload_present();
    bytes.truncate(13); // one byte into values[1], which starts at offset 12
    let err = schema.decode(&bytes).unwrap_err();
    assert_eq!(err.kind, DecodeErrorKind::Truncated);
    assert_eq!(err.field_name, "values");
    assert_eq!(err.offset, 12);
    assert_eq!(err.missing, 3);
    assert_eq!(err.fragment_name, "Scenario");
}

#[test]
fn truncation_inside_count_field() {
    let schema = scenario_schema();
    let mut bytes = scenario_payload_present();
    bytes.truncate(6); // two bytes into `count`, which starts at offset 4
    let err = schema.decode(&bytes).unwrap_err();
    assert_eq!(err.kind, DecodeErrorKind::Truncated);
    assert_eq!(err.field_name, "count");
    assert_eq!(err.offset, 4);
    assert_eq!(err.missing, 2);
}

#[test]
fn truncation_of_final_float() {
    let schema = scenario_schema();
    let mut bytes = scenario_payload_present();
    bytes.truncate(19);
    let err = schema.decode(&bytes).unwrap_err();
    assert_eq!(err.kind, DecodeErrorKind::Truncated);
    assert_eq!(err.field_name, "extra");
    assert_eq!(err.offset, 16);
    assert_eq!(err.missing, 1);
}

#[test]
fn malformed_count_negative() {
    let schema = FragmentSchema {
        type_id: 0x04,
        name: "Neg".to_string(),
        fields: vec![
            FieldDecl::plain("count".to_string(), ValueKind::I32),
            FieldDecl::counted(
                "items".to_string(),
                ValueKind::U8,
                CountSpec::Field("count".to_string()),
            ),
        ],
    };
    let bytes = vec![0xFF, 0xFF, 0xFF, 0xFF, 0x00]; // count = -1
    let err = schema.decode(&bytes).unwrap_err();
    assert_eq!(err.kind, DecodeErrorKind::MalformedCount);
    assert_eq!(err.field_name, "items");
    assert_eq!(err.offset, 4);
    assert_eq!(err.missing, 0);
}

#[test]
fn malformed_count_too_large() {
    let schema = FragmentSchema {
        type_id: 0x05,
        name: "Huge".to_string(),
        fields: vec![
            FieldDecl::plain("count".to_string(), ValueKind::U32),
            FieldDecl::counted(
                "items".to_string(),
                ValueKind::U8,
                CountSpec::Field("count".to_string()),
            ),
        ],
    };
    // count = 0x7FFFFFFF, far above MAX_FIELD_COUNT: rejected before any
    // element read.
    let bytes = vec![0xFF, 0xFF, 0xFF, 0x7F];
    let err = schema.decode(&bytes).unwrap_err();
    assert_eq!(err.kind, DecodeErrorKind::MalformedCount);
}

#[test]
fn malformed_count_literal_too_large() {
    let schema = FragmentSchema {
        type_id: 0x06,
        name: "HugeLit".to_string(),
        fields: vec![FieldDecl::counted(
            "items".to_string(),
            ValueKind::U8,
            CountSpec::Literal(wld_fragment::MAX_FIELD_COUNT + 1),
        )],
    };
    let err = schema.decode(&[]).unwrap_err();
    assert_eq!(err.kind, DecodeErrorKind::MalformedCount);
}

#[test]
fn count_at_limit_is_not_malformed() {
    // A count of exactly MAX_FIELD_COUNT passes the count check; this
    // payload is far too short for it, so the failure is Truncated, at the
    // first element that cannot be read.
    let schema = FragmentSchema {
        type_id: 0x0D,
        name: "Limit".to_string(),
        fields: vec![
            FieldDecl::plain("count".to_string(), ValueKind::U32),
            FieldDecl::counted(
                "items".to_string(),
                ValueKind::U8,
                CountSpec::Field("count".to_string()),
            ),
        ],
    };
    let mut bytes = wld_fragment::MAX_FIELD_COUNT.to_le_bytes().to_vec();
    bytes.push(0xAA);
    bytes.push(0xBB);
    let err = schema.decode(&bytes).unwrap_err();
    assert_eq!(err.kind, DecodeErrorKind::Truncated);
    assert_eq!(err.offset, 6);
    assert_eq!(err.missing, 1);
}

#[test]
fn literal_count_decodes_fixed_array() {
    let schema = FragmentSchema {
        type_id: 0x07,
        name: "Fixed".to_string(),
        fields: vec![FieldDecl::counted(
            "pair".to_string(),
            ValueKind::U16,
            CountSpec::Literal(2),
        )],
    };
    let bytes = vec![0x34, 0x12, 0x78, 0x56];
    let (rec, used) = schema.decode(&bytes).unwrap();
    assert_eq!(used, 4);
    assert_eq!(
        rec.fields[0].value,
        FieldValue::List(vec![Scalar::U16(0x1234), Scalar::U16(0x5678)])
    );
}

#[test]
fn unresolved_count_reference() {
    let schema = FragmentSchema {
        type_id: 0x08,
        name: "BadRef".to_string(),
        fields: vec![FieldDecl::counted(
            "items".to_string(),
            ValueKind::U8,
            CountSpec::Field("missing".to_string()),
        )],
    };
    let err = schema.decode(&[0x01, 0x02]).unwrap_err();
    assert_eq!(err.kind, DecodeErrorKind::UnsupportedValueKind);
}

#[test]
fn unresolved_predicate_reference() {
    let schema = FragmentSchema {
        type_id: 0x09,
        name: "BadPred".to_string(),
        fields: vec![FieldDecl::conditional(
            "maybe".to_string(),
            ValueKind::U8,
            Predicate::HasFlag { field: "missing".to_string(), mask: 1 },
        )],
    };
    let err = schema.decode(&[0x01]).unwrap_err();
    assert_eq!(err.kind, DecodeErrorKind::UnsupportedValueKind);
}

#[test]
fn float_field_cannot_drive_a_predicate() {
    let schema = FragmentSchema {
        type_id: 0x0A,
        name: "FloatPred".to_string(),
        fields: vec![
            FieldDecl::plain("f".to_string(), ValueKind::F32),
            FieldDecl::conditional(
                "maybe".to_string(),
                ValueKind::U8,
                Predicate::HasFlag { field: "f".to_string(), mask: 1 },
            ),
        ],
    };
    let bytes = vec![0x00, 0x00, 0x80, 0x3F, 0x07];
    let err = schema.decode(&bytes).unwrap_err();
    assert_eq!(err.kind, DecodeErrorKind::UnsupportedValueKind);
    assert_eq!(err.field_name, "maybe");
}

#[test]
fn type_id_is_not_validated_against_content() {
    // The same payload decodes identically under a schema that declares a
    // different type id: dispatch is the archive layer's job.
    let mut schema = scenario_schema();
    schema.type_id = 0x99;
    let bytes = scenario_payload_present();
    let (rec, used) = schema.decode(&bytes).unwrap();
    assert_eq!(used, 20);
    assert_eq!(rec.type_id, 0x99);
    assert_eq!(rec.fields[0].value, FieldValue::Single(Scalar::U32(1)));
}

#[test]
fn trailing_bytes_are_left_to_the_caller() {
    let schema = FragmentSchema {
        type_id: 0x0B,
        name: "Short".to_string(),
        fields: vec![FieldDecl::plain("v".to_string(), ValueKind::U8)],
    };
    let bytes = vec![0x2A, 0xAA, 0xBB];
    let (rec, used) = schema.decode(&bytes).unwrap();
    assert_eq!(used, 1);
    assert_eq!(rec.fields[0].value, FieldValue::Single(Scalar::U8(42)));
}

#[test]
fn empty_schema_decodes_nothing() {
    let schema =
        FragmentSchema { type_id: 0x0C, name: "Empty".to_string(), fields: vec![] };
    let (rec, used) = schema.decode(&[0x01, 0x02]).unwrap();
    assert_eq!(used, 0);
    assert_eq!(rec.fields.len(), 0);
}
