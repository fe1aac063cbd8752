use record_codec::decode::{decode, DecodeError, ShapeDetail};
use record_codec::schema::{build_table, RawField, RecordKind, RenameRule};
use record_codec::value::{ConversionError, FieldType};
use record_codec::wire::WireValue;

fn b(s: &str) -> Vec<u8> {
    s.as_bytes().to_vec()
}

fn raw(name: &str, optional: bool, ftype: FieldType) -> RawField {
    RawField { source_name: b(name), rename: None, skip: false, optional, ftype }
}

fn id_label_table() -> record_codec::schema::DescriptorTable {
    build_table(
        RecordKind::Named,
        RenameRule::Keep,
        &vec![raw("id", false, FieldType::Int), raw("label", true, FieldType::Text)],
    )
}

#[test]
fn missing_required_field_named() {
    let t = id_label_table();
    let wire = WireValue::Array(vec![WireValue::Bulk(b("label")), WireValue::Bulk(b("x"))]);
    assert_eq!(
        decode(&t, &wire),
        Err(DecodeError::MissingFieldError { field: b("id") })
    );
}

#[test]
fn missing_optional_field_defaults_to_absent() {
    let t = id_label_table();
    let wire = WireValue::Array(vec![WireValue::Bulk(b("id")), WireValue::Bulk(b("5"))]);
    let back = decode(&t, &wire).unwrap();
    assert_eq!(back.slots[1], None);
}

#[test]
fn sentinel_forms_decode_to_absent() {
    let t = id_label_table();
    for sentinel in [WireValue::Nil, WireValue::Bulk(b("null")), WireValue::Simple(b("null"))] {
        let wire = WireValue::Array(vec![
            WireValue::Bulk(b("id")),
            WireValue::Bulk(b("5")),
            WireValue::Bulk(b("label")),
            sentinel,
        ]);
        let back = decode(&t, &wire).unwrap();
        assert_eq!(back.slots[1], None);
    }
}

#[test]
fn required_field_takes_sentinel_text_verbatim() {
    // A required text field is not sentinel-checked: `null` stays text.
    let t = build_table(
        RecordKind::Named,
        RenameRule::Keep,
        &vec![raw("name", false, FieldType::Text)],
    );
    let wire = WireValue::Array(vec![WireValue::Bulk(b("name")), WireValue::Bulk(b("null"))]);
    let back = decode(&t, &wire).unwrap();
    assert_eq!(back.slots[0], Some(record_codec::value::FieldData::Text(b("null"))));
}

#[test]
fn odd_length_array_is_shape_error() {
    let t = id_label_table();
    let wire = WireValue::Array(vec![
        WireValue::Bulk(b("id")),
        WireValue::Bulk(b("5")),
        WireValue::Bulk(b("label")),
    ]);
    assert_eq!(
        decode(&t, &wire),
        Err(DecodeError::ShapeError(ShapeDetail::OddPairList { len: 3 }))
    );
}

#[test]
fn wrong_arity_is_shape_error_with_both_lengths() {
    let t = build_table(
        RecordKind::Positional,
        RenameRule::Keep,
        &vec![raw("0", false, FieldType::Int), raw("1", false, FieldType::Boolean)],
    );
    let one = WireValue::Array(vec![WireValue::Int(3)]);
    assert_eq!(
        decode(&t, &one),
        Err(DecodeError::ShapeError(ShapeDetail::WrongArity { expected: 2, actual: 1 }))
    );
    let three = WireValue::Array(vec![WireValue::Int(3), WireValue::Int(1), WireValue::Int(0)]);
    assert_eq!(
        decode(&t, &three),
        Err(DecodeError::ShapeError(ShapeDetail::WrongArity { expected: 2, actual: 3 }))
    );
}

#[test]
fn nil_record_is_its_own_error() {
    let named = id_label_table();
    assert_eq!(decode(&named, &WireValue::Nil), Err(DecodeError::NullRecordError));
    let positional = build_table(
        RecordKind::Positional,
        RenameRule::Keep,
        &vec![raw("0", false, FieldType::Int)],
    );
    assert_eq!(decode(&positional, &WireValue::Nil), Err(DecodeError::NullRecordError));
}

#[test]
fn non_record_shapes_are_rejected() {
    let t = id_label_table();
    assert_eq!(
        decode(&t, &WireValue::Int(5)),
        Err(DecodeError::ShapeError(ShapeDetail::NotRecord { expected: RecordKind::Named }))
    );
    assert_eq!(
        decode(&t, &WireValue::Bulk(b("zap"))),
        Err(DecodeError::ShapeError(ShapeDetail::NotRecord { expected: RecordKind::Named }))
    );
    let positional = build_table(
        RecordKind::Positional,
        RenameRule::Keep,
        &vec![raw("0", false, FieldType::Int)],
    );
    assert_eq!(
        decode(&positional, &WireValue::Pairs(vec![])),
        Err(DecodeError::ShapeError(ShapeDetail::NotRecord { expected: RecordKind::Positional }))
    );
}

#[test]
fn field_type_error_names_field_and_expectation() {
    let t = id_label_table();
    let wire = WireValue::Array(vec![WireValue::Bulk(b("id")), WireValue::Bulk(b("abc"))]);
    assert_eq!(
        decode(&t, &wire),
        Err(DecodeError::FieldTypeError {
            field: b("id"),
            cause: ConversionError { expected: FieldType::Int },
        })
    );
}

#[test]
fn integer_overflow_is_a_type_error() {
    let t = build_table(RecordKind::Named, RenameRule::Keep, &vec![raw("n", false, FieldType::Int)]);
    let wire = WireValue::Array(vec![
        WireValue::Bulk(b("n")),
        WireValue::Bulk(b("9223372036854775808")),
    ]);
    assert_eq!(
        decode(&t, &wire),
        Err(DecodeError::FieldTypeError {
            field: b("n"),
            cause: ConversionError { expected: FieldType::Int },
        })
    );
    let just_fits = WireValue::Array(vec![
        WireValue::Bulk(b("n")),
        WireValue::Bulk(b("-9223372036854775808")),
    ]);
    let back = decode(&t, &just_fits).unwrap();
    assert_eq!(back.slots[0], Some(record_codec::value::FieldData::Int(i64::MIN)));
}

#[test]
fn element_type_error_names_index() {
    let t = build_table(
        RecordKind::Positional,
        RenameRule::Keep,
        &vec![raw("0", false, FieldType::Int), raw("1", false, FieldType::Boolean)],
    );
    let wire = WireValue::Array(vec![WireValue::Int(3), WireValue::Bulk(b("maybe"))]);
    assert_eq!(
        decode(&t, &wire),
        Err(DecodeError::ElementTypeError {
            index: 1,
            cause: ConversionError { expected: FieldType::Boolean },
        })
    );
}

#[test]
fn unusable_key_is_shape_error() {
    let t = id_label_table();
    let wire = WireValue::Array(vec![WireValue::Nil, WireValue::Bulk(b("5"))]);
    assert_eq!(
        decode(&t, &wire),
        Err(DecodeError::ShapeError(ShapeDetail::KeyNotText { pair: 0 }))
    );
}

#[test]
fn boolean_conversions() {
    let t = build_table(
        RecordKind::Named,
        RenameRule::Keep,
        &vec![raw("f", false, FieldType::Boolean)],
    );
    let ok = |v: WireValue| {
        decode(&t, &WireValue::Array(vec![WireValue::Bulk(b("f")), v])).unwrap().slots[0].clone()
    };
    assert_eq!(ok(WireValue::Int(1)), Some(record_codec::value::FieldData::Boolean(true)));
    assert_eq!(ok(WireValue::Int(0)), Some(record_codec::value::FieldData::Boolean(false)));
    assert_eq!(ok(WireValue::Bulk(b("1"))), Some(record_codec::value::FieldData::Boolean(true)));
    assert_eq!(ok(WireValue::Simple(b("0"))), Some(record_codec::value::FieldData::Boolean(false)));
    let bad = decode(&t, &WireValue::Array(vec![WireValue::Bulk(b("f")), WireValue::Int(2)]));
    assert_eq!(
        bad,
        Err(DecodeError::FieldTypeError {
            field: b("f"),
            cause: ConversionError { expected: FieldType::Boolean },
        })
    );
}
