use lanquetta::decode::{deserialize_message, ErrorKind};
use lanquetta::decode_buf::DecodeBuf;
use lanquetta::json::JsonValue;
use lanquetta::ty::{Enum, EnumValue, Message, MessageField, Scalar, Ty, TypeId, TypeMap};

fn to_serde(v: &JsonValue) -> serde_json::Value {
    match v {
        JsonValue::Null => serde_json::Value::Null,
        JsonValue::Bool(b) => serde_json::Value::Bool(*b),
        JsonValue::Number(n) => {
            if *n < 0 {
                serde_json::Value::from(*n as i64)
            } else {
                serde_json::Value::from(*n as u64)
            }
        }
        JsonValue::Float(bits) => serde_json::Value::from(f32::from_bits(*bits)),
        JsonValue::Double(bits) => serde_json::Value::from(f64::from_bits(*bits)),
        JsonValue::String(s) => serde_json::Value::String(s.clone()),
        JsonValue::Array(items) => serde_json::Value::Array(items.iter().map(to_serde).collect()),
        JsonValue::Object(entries) => serde_json::Value::Object(
            entries
                .iter()
                .map(|e| (e.key.clone(), to_serde(&e.value)))
                .collect(),
        ),
    }
}

fn field(name: &str, json_name: &str, ty: TypeId) -> MessageField {
    MessageField {
        name: name.to_owned(),
        json_name: json_name.to_owned(),
        is_group: false,
        ty,
    }
}

fn small_map() -> (TypeMap, TypeId) {
    let mut map = TypeMap::new();
    let color = map.add_with_name(
        ".test.Color".to_owned(),
        Ty::Enum(Enum {
            name: ".test.Color".to_owned(),
            values: vec![
                EnumValue { name: "RED".to_owned(), number: 0 },
                EnumValue { name: "BLUE".to_owned(), number: 2 },
            ],
        }),
    );
    let int64s = map.add(Ty::List(map.get_scalar(Scalar::Int64)));
    let colors = map.add(Ty::List(color));
    let message = Message::new(
        ".test.Small".to_owned(),
        vec![
            (1, field("a", "a", map.get_scalar(Scalar::Int32))),
            (2, field("b", "b", map.get_scalar(Scalar::String))),
            (3, field("c_list", "cList", int64s)),
            (4, field("color", "color", colors)),
            (5, field("data", "data", map.get_scalar(Scalar::Bytes))),
        ],
    );
    let id = map.add_with_name(".test.Small".to_owned(), Ty::Message(message));
    (map, id)
}

#[test]
fn decodes_scalars_lists_and_enums() {
    let (map, id) = small_map();
    let mut bytes = vec![];
    prost::encoding::int32::encode(1, &-3, &mut bytes);
    prost::encoding::string::encode(2, &"hi".to_owned(), &mut bytes);
    prost::encoding::int64::encode_packed(3, &[7, -8], &mut bytes);
    prost::encoding::int32::encode_packed(4, &[0, 1, 2], &mut bytes);
    prost::encoding::bytes::encode(5, &b"6".to_vec(), &mut bytes);
    let value = map.decode(id, &bytes).unwrap();
    let expected: serde_json::Value = serde_json::from_str(
        r#"{"a": -3, "b": "hi", "cList": ["7", "-8"], "color": ["RED", 1, "BLUE"], "data": "Ng=="}"#,
    )
    .unwrap();
    assert_eq!(to_serde(&value), expected);
}

#[test]
fn skips_unknown_fields() {
    let (map, id) = small_map();
    let mut bytes = vec![];
    prost::encoding::encode_key(100, prost::encoding::WireType::Varint, &mut bytes);
    prost::encoding::encode_varint(42, &mut bytes);
    let value = map.decode(id, &bytes).unwrap();
    assert_eq!(to_serde(&value), serde_json::Value::Object(Default::default()));
}

#[test]
fn a_message_sent_in_two_parts_is_the_parts_merged() {
    let mut map = TypeMap::new();
    let inner = map.add_with_name(
        ".test.Inner".to_owned(),
        Ty::Message(Message::new(
            ".test.Inner".to_owned(),
            vec![
                (1, field("x", "x", map.get_scalar(Scalar::Int32))),
                (2, field("y", "y", map.get_scalar(Scalar::String))),
            ],
        )),
    );
    let int64s = map.add(Ty::List(map.get_scalar(Scalar::Int64)));
    let outer = map.add_with_name(
        ".test.Outer".to_owned(),
        Ty::Message(Message::new(
            ".test.Outer".to_owned(),
            vec![
                (1, field("a", "a", map.get_scalar(Scalar::Int32))),
                (3, field("c_list", "cList", int64s)),
                (6, field("inner", "inner", inner)),
            ],
        )),
    );
    let mut first = vec![];
    prost::encoding::int32::encode(1, &1, &mut first);
    prost::encoding::int64::encode_packed(3, &[7], &mut first);
    let mut inner_first = vec![];
    prost::encoding::int32::encode(1, &5, &mut inner_first);
    prost::encoding::bytes::encode(6, &inner_first, &mut first);
    let mut second = vec![];
    prost::encoding::int32::encode(1, &2, &mut second);
    prost::encoding::int64::encode_packed(3, &[8], &mut second);
    let mut inner_second = vec![];
    prost::encoding::string::encode(2, &"z".to_owned(), &mut inner_second);
    prost::encoding::bytes::encode(6, &inner_second, &mut second);
    let mut both = first.clone();
    both.extend_from_slice(&second);
    let value = map.decode(outer, &both).unwrap();
    let expected: serde_json::Value =
        serde_json::from_str(r#"{"a": 2, "cList": ["7", "8"], "inner": {"x": 5, "y": "z"}}"#).unwrap();
    assert_eq!(to_serde(&value), expected);
    let first_only = map.decode(outer, &first).unwrap();
    let expected_first: serde_json::Value =
        serde_json::from_str(r#"{"a": 1, "cList": ["7"], "inner": {"x": 5}}"#).unwrap();
    assert_eq!(to_serde(&first_only), expected_first);
    let mut rest = DecodeBuf::new(second.clone());
    let continued = deserialize_message(&mut rest, first_only, &map, outer).unwrap();
    assert_eq!(to_serde(&continued), to_serde(&value));
}

fn nested_map() -> (TypeMap, TypeId) {
    let mut map = TypeMap::new();
    let inner = map.add_with_name(
        ".test.Leaf".to_owned(),
        Ty::Message(Message::new(".test.Leaf".to_owned(), vec![(1, field("x", "x", map.get_scalar(Scalar::Int32)))])),
    );
    let int32s = map.add(Ty::List(map.get_scalar(Scalar::Int32)));
    let outer = map.add_with_name(
        ".test.Tree".to_owned(),
        Ty::Message(Message::new(
            ".test.Tree".to_owned(),
            vec![(1, field("leaf", "leaf", inner)), (2, field("nums", "nums", int32s))],
        )),
    );
    (map, outer)
}

#[test]
fn a_truncated_nested_message_is_an_error() {
    let (map, outer) = nested_map();
    // field 1, length-delimited, length 5, but only one field of 2 bytes follows
    let bytes = vec![0x0a, 0x05, 0x08, 0x07];
    assert_eq!(map.decode(outer, &bytes).unwrap_err().kind, ErrorKind::Wire);
    let whole = vec![0x0a, 0x02, 0x08, 0x07];
    let value = map.decode(outer, &whole).unwrap();
    let expected: serde_json::Value = serde_json::from_str(r#"{"leaf": {"x": 7}}"#).unwrap();
    assert_eq!(to_serde(&value), expected);
}

#[test]
fn a_truncated_packed_run_is_an_error() {
    let (map, outer) = nested_map();
    let bytes = vec![0x12, 0x04, 0x01, 0x02];
    assert_eq!(map.decode(outer, &bytes).unwrap_err().kind, ErrorKind::Wire);
    let whole = vec![0x12, 0x02, 0x01, 0x02];
    let value = map.decode(outer, &whole).unwrap();
    let expected: serde_json::Value = serde_json::from_str(r#"{"nums": [1, 2]}"#).unwrap();
    assert_eq!(to_serde(&value), expected);
}

#[test]
fn a_type_added_under_a_name_is_found_by_it() {
    let mut map = TypeMap::new();
    let id = map.add_with_name(
        ".test.Named".to_owned(),
        Ty::Message(Message::new(".test.Named".to_owned(), vec![])),
    );
    assert_eq!(map.get_by_name(".test.Named").unwrap(), id);
    assert_eq!(map.try_get_by_name(".test.Named"), Some(id));
    let _list = map.add(Ty::List(id));
    assert_eq!(map.get_by_name(".test.Named").unwrap(), id);
    let err = map.get_by_name(".test.Missing").unwrap_err();
    assert_eq!(err.message(), "type .test.Missing not found");
}
