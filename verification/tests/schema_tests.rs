use wld_fragment::schema::{CountSpec, FieldDecl, FragmentSchema, Predicate, ValueKind};

fn flags_then_conditional(count_of: &str, presence_of: &str) -> FragmentSchema {
    FragmentSchema {
        type_id: 0x20,
        name: "Checked".to_string(),
        fields: vec![
            FieldDecl::plain("flags".to_string(), ValueKind::U32),
            FieldDecl::plain("count".to_string(), ValueKind::U32),
            FieldDecl::conditional_counted(
                "items".to_string(),
                ValueKind::U16,
                CountSpec::Field(count_of.to_string()),
                Predicate::HasFlag { field: presence_of.to_string(), mask: 0x01 },
            ),
        ],
    }
}

#[test]
fn sound_schema_validates() {
    assert!(flags_then_conditional("count", "flags").validate());
}

#[test]
fn unknown_count_reference_fails_validation() {
    assert!(!flags_then_conditional("no_such", "flags").validate());
}

#[test]
fn unknown_presence_reference_fails_validation() {
    assert!(!flags_then_conditional("count", "no_such").validate());
}

#[test]
fn self_reference_fails_validation() {
    // "items" is not decoded before itself; the reference is unsound.
    assert!(!flags_then_conditional("items", "flags").validate());
}

#[test]
fn float_count_source_fails_validation() {
    let schema = FragmentSchema {
        type_id: 0x21,
        name: "FloatCount".to_string(),
        fields: vec![
            FieldDecl::plain("f".to_string(), ValueKind::F32),
            FieldDecl::counted(
                "items".to_string(),
                ValueKind::U8,
                CountSpec::Field("f".to_string()),
            ),
        ],
    };
    assert!(!schema.validate());
}

#[test]
fn conditional_count_source_fails_validation() {
    // A conditional field may be absent, so it cannot drive a later count.
    let schema = FragmentSchema {
        type_id: 0x22,
        name: "CondCount".to_string(),
        fields: vec![
            FieldDecl::plain("flags".to_string(), ValueKind::U32),
            FieldDecl::conditional(
                "maybe_count".to_string(),
                ValueKind::U32,
                Predicate::HasFlag { field: "flags".to_string(), mask: 0x01 },
            ),
            FieldDecl::counted(
                "items".to_string(),
                ValueKind::U8,
                CountSpec::Field("maybe_count".to_string()),
            ),
        ],
    };
    assert!(!schema.validate());
}

#[test]
fn literal_counts_need_no_reference() {
    let schema = FragmentSchema {
        type_id: 0x23,
        name: "Lit".to_string(),
        fields: vec![FieldDecl::counted(
            "items".to_string(),
            ValueKind::U8,
            CountSpec::Literal(3),
        )],
    };
    assert!(schema.validate());
}

#[test]
fn empty_schema_validates() {
    let schema =
        FragmentSchema { type_id: 0x24, name: "Empty".to_string(), fields: vec![] };
    assert!(schema.validate());
}
