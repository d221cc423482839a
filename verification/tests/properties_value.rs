use bevy_ecs_tiled::properties::value::{
    named_field_json_value, unnamed_field_json_value, value_to_json, FloatValue, JsonValue, ReflectData,
    ReflectValue,
};

fn value(data: ReflectData) -> ReflectValue {
    ReflectValue { source: 0, data }
}

fn key(k: &str, v: JsonValue) -> (String, JsonValue) {
    (k.to_string(), v)
}

#[test]
fn scalars_to_json() {
    assert_eq!(value_to_json(&value(ReflectData::Bool(true))), JsonValue::Bool(true));
    assert_eq!(value_to_json(&value(ReflectData::Int(-3))), JsonValue::Int(-3));
    assert_eq!(value_to_json(&value(ReflectData::UInt(7))), JsonValue::UInt(7));
    assert_eq!(
        value_to_json(&value(ReflectData::Float(FloatValue::F32(1.5f32.to_bits())))),
        JsonValue::Float(FloatValue::F32(1.5f32.to_bits()))
    );
    assert_eq!(value_to_json(&value(ReflectData::Str("hi".to_string()))), JsonValue::Str("hi".to_string()));
    assert_eq!(value_to_json(&value(ReflectData::Other)), JsonValue::Null);
}

#[test]
fn colors_are_eight_hex_digits() {
    assert_eq!(value_to_json(&value(ReflectData::Color(0xff00_10ab))), JsonValue::Str("#ff0010ab".to_string()));
    assert_eq!(value_to_json(&value(ReflectData::Color(0x1f))), JsonValue::Str("#0000001f".to_string()));
}

#[test]
fn enums_give_their_variant_only_when_all_variants_are_units() {
    let unit = ReflectData::Enum { variant: "B".to_string(), unit_only: true, fields: vec![] };
    let other = ReflectData::Enum { variant: "B".to_string(), unit_only: false, fields: vec![] };
    assert_eq!(value_to_json(&value(unit)), JsonValue::Str("B".to_string()));
    assert_eq!(value_to_json(&value(other)), JsonValue::Null);
}

#[test]
fn struct_members_come_in_key_order() {
    let v = value(ReflectData::Struct(vec![
        ("zeta".to_string(), value(ReflectData::Int(1))),
        ("alpha".to_string(), value(ReflectData::Bool(false))),
        ("mid".to_string(), value(ReflectData::Other)),
    ]));
    assert_eq!(
        value_to_json(&v),
        JsonValue::Object(vec![
            key("alpha", JsonValue::Bool(false)),
            key("mid", JsonValue::Null),
            key("zeta", JsonValue::Int(1)),
        ])
    );
}

#[test]
fn tuple_members_are_keyed_by_position_as_text() {
    let items: Vec<ReflectValue> = (0..11).map(|i| value(ReflectData::UInt(i))).collect();
    let json = value_to_json(&value(ReflectData::Tuple(items)));
    match json {
        JsonValue::Object(members) => {
            let keys: Vec<&str> = members.iter().map(|(k, _)| k.as_str()).collect();
            assert_eq!(keys, vec!["0", "1", "10", "2", "3", "4", "5", "6", "7", "8", "9"]);
            assert_eq!(members[2].1, JsonValue::UInt(10));
        },
        other => panic!("unexpected {:?}", other),
    }
}

#[test]
fn field_values_of_a_default() {
    let d = value(ReflectData::Struct(vec![("a".to_string(), value(ReflectData::Int(4)))]));
    assert_eq!(named_field_json_value(Some(&d), "a"), JsonValue::Int(4));
    assert_eq!(named_field_json_value(Some(&d), "b"), JsonValue::Null);
    assert_eq!(named_field_json_value(None, "a"), JsonValue::Null);
    let t = value(ReflectData::Tuple(vec![value(ReflectData::Bool(true))]));
    assert_eq!(unnamed_field_json_value(Some(&t), 0), JsonValue::Bool(true));
    assert_eq!(unnamed_field_json_value(Some(&t), 1), JsonValue::Null);
    assert_eq!(unnamed_field_json_value(Some(&d), 0), JsonValue::Null);
}

#[test]
fn json_values_clone_equal() {
    let v = JsonValue::Array(vec![JsonValue::Object(vec![key("k", JsonValue::Str("v".to_string()))]), JsonValue::Null]);
    assert_eq!(v.clone(), v);
}
