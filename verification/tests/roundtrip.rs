use record_codec::decode::decode;
use record_codec::encode::{encode_flat, encode_pairs, num_flat_args};
use record_codec::schema::{build_table, RawField, Record, RecordKind, RenameRule};
use record_codec::value::{FieldData, FieldType};
use record_codec::wire::WireValue;

fn b(s: &str) -> Vec<u8> {
    s.as_bytes().to_vec()
}

fn raw(name: &str, optional: bool, ftype: FieldType) -> RawField {
    RawField { source_name: b(name), rename: None, skip: false, optional, ftype }
}

fn id_label_table() -> record_codec::schema::DescriptorTable {
    build_table(
        RecordKind::Named,
        RenameRule::Keep,
        &vec![raw("id", false, FieldType::Int), raw("label", true, FieldType::Text)],
    )
}

#[test]
fn named_absent_optional_flat() {
    let t = id_label_table();
    let r = Record { slots: vec![Some(FieldData::Int(7)), None] };
    let args = encode_flat(&t, &r);
    assert_eq!(args, vec![b("id"), b("7"), b("label"), b("null")]);
    assert_eq!(num_flat_args(&t, &r), 4);
    let wire = WireValue::Array(vec![
        WireValue::Bulk(b("id")),
        WireValue::Bulk(b("7")),
        WireValue::Bulk(b("label")),
        WireValue::Bulk(b("null")),
    ]);
    let back = decode(&t, &wire).unwrap();
    assert_eq!(back.slots, vec![Some(FieldData::Int(7)), None]);
}

#[test]
fn named_present_optional_flat() {
    let t = id_label_table();
    let r = Record { slots: vec![Some(FieldData::Int(7)), Some(FieldData::Text(b("x")))] };
    let args = encode_flat(&t, &r);
    assert_eq!(args, vec![b("id"), b("7"), b("label"), b("x")]);
    assert_eq!(num_flat_args(&t, &r), 4);
    let wire = WireValue::Array(args.into_iter().map(WireValue::Bulk).collect());
    let back = decode(&t, &wire).unwrap();
    assert_eq!(back.slots, vec![Some(FieldData::Int(7)), Some(FieldData::Text(b("x")))]);
}

#[test]
fn named_round_trip_through_pairs() {
    let t = id_label_table();
    let r = Record { slots: vec![Some(FieldData::Int(-42)), None] };
    let pairs = encode_pairs(&t, &r);
    assert_eq!(pairs, vec![(b("id"), b("-42")), (b("label"), b("null"))]);
    let wire = WireValue::Pairs(
        pairs.into_iter().map(|(k, v)| (WireValue::Bulk(k), WireValue::Bulk(v))).collect(),
    );
    let back = decode(&t, &wire).unwrap();
    assert_eq!(back.slots, vec![Some(FieldData::Int(-42)), None]);
}

#[test]
fn positional_round_trip() {
    let t = build_table(
        RecordKind::Positional,
        RenameRule::Keep,
        &vec![raw("0", false, FieldType::Int), raw("1", false, FieldType::Boolean)],
    );
    let r = Record { slots: vec![Some(FieldData::Int(3)), Some(FieldData::Boolean(true))] };
    let args = encode_flat(&t, &r);
    assert_eq!(args, vec![b("3"), b("1")]);
    assert_eq!(num_flat_args(&t, &r), 2);
    let wire = WireValue::Array(vec![WireValue::Bulk(b("3")), WireValue::Bulk(b("1"))]);
    let back = decode(&t, &wire).unwrap();
    assert_eq!(back.slots, vec![Some(FieldData::Int(3)), Some(FieldData::Boolean(true))]);
    // The store may answer with native integers instead of bulk bytes.
    let wire2 = WireValue::Array(vec![WireValue::Int(3), WireValue::Int(1)]);
    let back2 = decode(&t, &wire2).unwrap();
    assert_eq!(back2.slots, vec![Some(FieldData::Int(3)), Some(FieldData::Boolean(true))]);
}

#[test]
fn unit_record_ignores_input() {
    let t = build_table(RecordKind::Unit, RenameRule::Keep, &vec![]);
    let r = Record { slots: vec![] };
    assert_eq!(encode_flat(&t, &r), Vec::<Vec<u8>>::new());
    assert_eq!(num_flat_args(&t, &r), 0);
    assert_eq!(decode(&t, &WireValue::Nil).unwrap().slots, vec![]);
    assert_eq!(decode(&t, &WireValue::Int(5)).unwrap().slots, vec![]);
}

#[test]
fn duplicate_key_last_wins() {
    let t = id_label_table();
    let wire = WireValue::Array(vec![
        WireValue::Bulk(b("id")),
        WireValue::Bulk(b("1")),
        WireValue::Bulk(b("id")),
        WireValue::Bulk(b("2")),
    ]);
    let back = decode(&t, &wire).unwrap();
    assert_eq!(back.slots, vec![Some(FieldData::Int(2)), None]);
}

#[test]
fn integer_extremes_round_trip() {
    let t = build_table(RecordKind::Named, RenameRule::Keep, &vec![raw("n", false, FieldType::Int)]);
    for n in [i64::MIN, -1, 0, 1, i64::MAX] {
        let r = Record { slots: vec![Some(FieldData::Int(n))] };
        let args = encode_flat(&t, &r);
        let wire = WireValue::Array(args.into_iter().map(WireValue::Bulk).collect());
        let back = decode(&t, &wire).unwrap();
        assert_eq!(back.slots, vec![Some(FieldData::Int(n))]);
    }
}

#[test]
fn words_round_trip_single_word() {
    let t = build_table(
        RecordKind::Named,
        RenameRule::Keep,
        &vec![raw("tags", false, FieldType::Words)],
    );
    let r = Record { slots: vec![Some(FieldData::Words(vec![b("alpha")]))] };
    let args = encode_flat(&t, &r);
    assert_eq!(args, vec![b("tags"), b("alpha")]);
    let wire = WireValue::Array(args.into_iter().map(WireValue::Bulk).collect());
    let back = decode(&t, &wire).unwrap();
    assert_eq!(back.slots, vec![Some(FieldData::Words(vec![b("alpha")]))]);
}

#[test]
fn words_decode_from_array_value() {
    let t = build_table(
        RecordKind::Named,
        RenameRule::Keep,
        &vec![raw("tags", false, FieldType::Words)],
    );
    let wire = WireValue::Array(vec![
        WireValue::Bulk(b("tags")),
        WireValue::Array(vec![WireValue::Bulk(b("a")), WireValue::Simple(b("b"))]),
    ]);
    let back = decode(&t, &wire).unwrap();
    assert_eq!(back.slots, vec![Some(FieldData::Words(vec![b("a"), b("b")]))]);
}

#[test]
fn decode_from_pairs_with_mixed_scalars() {
    let t = id_label_table();
    let wire = WireValue::Pairs(vec![
        (WireValue::Simple(b("id")), WireValue::Int(9)),
        (WireValue::Bulk(b("label")), WireValue::Simple(b("hey"))),
    ]);
    let back = decode(&t, &wire).unwrap();
    assert_eq!(back.slots, vec![Some(FieldData::Int(9)), Some(FieldData::Text(b("hey")))]);
}

#[test]
fn integer_key_finds_numeric_name() {
    // A wire integer key is converted to its decimal rendering.
    let t = build_table(RecordKind::Named, RenameRule::Keep, &vec![raw("7", false, FieldType::Int)]);
    let wire = WireValue::Array(vec![WireValue::Int(7), WireValue::Bulk(b("1"))]);
    let back = decode(&t, &wire).unwrap();
    assert_eq!(back.slots, vec![Some(FieldData::Int(1))]);
}
