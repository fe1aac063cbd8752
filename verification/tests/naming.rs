use record_codec::decode::decode;
use record_codec::encode::{encode_flat, encode_pairs, num_flat_args};
use record_codec::schema::{build_table, snake_to_camel, RawField, Record, RecordKind, RenameRule};
use record_codec::value::{FieldData, FieldType};
use record_codec::wire::WireValue;

fn b(s: &str) -> Vec<u8> {
    s.as_bytes().to_vec()
}

fn raw(name: &str, optional: bool, ftype: FieldType) -> RawField {
    RawField { source_name: b(name), rename: None, skip: false, optional, ftype }
}

#[test]
fn snake_to_camel_transform() {
    assert_eq!(snake_to_camel(&b("user_name")), b("userName"));
    assert_eq!(snake_to_camel(&b("a_b_c")), b("aBC"));
    assert_eq!(snake_to_camel(&b("already")), b("already"));
    assert_eq!(snake_to_camel(&b("")), b(""));
    // An underscore not followed by a lowercase letter stays.
    assert_eq!(snake_to_camel(&b("x__y")), b("x_Y"));
    assert_eq!(snake_to_camel(&b("trailing_")), b("trailing_"));
}

#[test]
fn type_level_rule_renames_every_field() {
    let t = build_table(
        RecordKind::Named,
        RenameRule::SnakeToCamel,
        &vec![raw("user_id", false, FieldType::Int), raw("display_name", true, FieldType::Text)],
    );
    assert_eq!(t.fields[0].name, b("userId"));
    assert_eq!(t.fields[1].name, b("displayName"));
}

#[test]
fn field_level_rename_wins_over_rule() {
    let mut f = raw("user_id", false, FieldType::Int);
    f.rename = Some(b("uid"));
    let t = build_table(RecordKind::Named, RenameRule::SnakeToCamel, &vec![f]);
    assert_eq!(t.fields[0].name, b("uid"));
}

#[test]
fn skip_removes_field_from_table() {
    let mut hidden = raw("secret_part", false, FieldType::Text);
    hidden.skip = true;
    let t = build_table(
        RecordKind::Named,
        RenameRule::Keep,
        &vec![raw("id", false, FieldType::Int), hidden, raw("label", true, FieldType::Text)],
    );
    assert_eq!(t.fields.len(), 2);
    assert_eq!(t.fields[0].name, b("id"));
    assert_eq!(t.fields[1].name, b("label"));
}

#[test]
fn renamed_table_round_trips() {
    let t = build_table(
        RecordKind::Named,
        RenameRule::SnakeToCamel,
        &vec![raw("user_id", false, FieldType::Int)],
    );
    let r = Record { slots: vec![Some(FieldData::Int(11))] };
    let args = encode_flat(&t, &r);
    assert_eq!(args, vec![b("userId"), b("11")]);
    let wire = WireValue::Array(args.into_iter().map(WireValue::Bulk).collect());
    assert_eq!(decode(&t, &wire).unwrap().slots, vec![Some(FieldData::Int(11))]);
}

#[test]
fn pairs_collapse_multi_argument_values() {
    let t = build_table(
        RecordKind::Named,
        RenameRule::Keep,
        &vec![raw("tags", false, FieldType::Words), raw("note", true, FieldType::Text)],
    );
    let r = Record {
        slots: vec![Some(FieldData::Words(vec![b("a"), b("bc"), b("d")])), None],
    };
    let pairs = encode_pairs(&t, &r);
    assert_eq!(pairs, vec![(b("tags"), b("a bc d")), (b("note"), b("null"))]);
    // The flat form keeps the three arguments separate, plus the names.
    let args = encode_flat(&t, &r);
    assert_eq!(args, vec![b("tags"), b("a"), b("bc"), b("d"), b("note"), b("null")]);
    assert_eq!(num_flat_args(&t, &r), 6);
}

#[test]
fn empty_word_list_flattens_to_no_arguments() {
    let t = build_table(
        RecordKind::Named,
        RenameRule::Keep,
        &vec![raw("tags", false, FieldType::Words)],
    );
    let r = Record { slots: vec![Some(FieldData::Words(vec![]))] };
    assert_eq!(encode_flat(&t, &r), vec![b("tags")]);
    assert_eq!(num_flat_args(&t, &r), 1);
    assert_eq!(encode_pairs(&t, &r), vec![(b("tags"), b(""))]);
}
