use lanquetta::decode::ErrorKind;
use lanquetta::json::JsonValue;
use lanquetta::ty::{Message, Ty, TypeMap};
use lanquetta::well_known::format_duration;
use prost::Message as _;
use prost_types::value::Kind;

fn to_serde(v: &JsonValue) -> serde_json::Value {
    match v {
        JsonValue::Null => serde_json::Value::Null,
        JsonValue::Bool(b) => serde_json::Value::Bool(*b),
        JsonValue::Number(n) => {
            if *n < 0 {
                serde_json::Value::from(*n as i64)
            } else {
                serde_json::Value::from(*n as u64)
            }
        }
        JsonValue::Float(bits) => serde_json::Value::from(f32::from_bits(*bits)),
        JsonValue::Double(bits) => serde_json::Value::from(f64::from_bits(*bits)),
        JsonValue::String(s) => serde_json::Value::String(s.clone()),
        JsonValue::Array(items) => serde_json::Value::Array(items.iter().map(to_serde).collect()),
        JsonValue::Object(entries) => serde_json::Value::Object(
            entries
                .iter()
                .map(|e| (e.key.clone(), to_serde(&e.value)))
                .collect(),
        ),
    }
}

fn decode(short: &str, bytes: &[u8]) -> Result<serde_json::Value, ErrorKind> {
    let mut map = TypeMap::new();
    let name = format!(".google.protobuf.{}", short);
    let id = map.add_with_name(name.clone(), Ty::Message(Message::new(name, vec![])));
    map.decode(id, bytes).map(|v| to_serde(&v)).map_err(|e| e.kind)
}

fn json(text: &str) -> serde_json::Value {
    serde_json::from_str(text).unwrap()
}

#[test]
fn timestamps_are_rfc3339_in_utc() {
    let t = prost_types::Timestamp { seconds: 1_600_000_000, nanos: 5 };
    assert_eq!(decode("Timestamp", &t.encode_to_vec()), Ok(json("\"2020-09-13T12:26:40.000000005Z\"")));
    let t = prost_types::Timestamp { seconds: 0, nanos: 0 };
    assert_eq!(decode("Timestamp", &t.encode_to_vec()), Ok(json("\"1970-01-01T00:00:00Z\"")));
    let t = prost_types::Timestamp { seconds: 1, nanos: 500_000_000 };
    assert_eq!(decode("Timestamp", &t.encode_to_vec()), Ok(json("\"1970-01-01T00:00:01.500Z\"")));
}

#[test]
fn negative_nanoseconds_are_an_invalid_timestamp() {
    let t = prost_types::Timestamp { seconds: 0, nanos: -1 };
    assert_eq!(decode("Timestamp", &t.encode_to_vec()), Err(ErrorKind::InvalidTimestamp));
    assert_eq!(ErrorKind::InvalidTimestamp.message(), "invalid timestamp");
}

#[test]
fn durations_are_seconds_with_nine_fraction_digits() {
    let d = prost_types::Duration { seconds: 1, nanos: 5 };
    assert_eq!(decode("Duration", &d.encode_to_vec()), Ok(json("\"1.000000005s\"")));
    let d = prost_types::Duration { seconds: 3, nanos: 0 };
    assert_eq!(decode("Duration", &d.encode_to_vec()), Ok(json("\"3s\"")));
    assert_eq!(format_duration(-1, -5), "-1.0000000-5s");
    assert_eq!(format_duration(0, 123_456_789), "0.123456789s");
    assert_eq!(format_duration(-42, 0), "-42s");
}

#[test]
fn field_masks_join_camel_case_paths() {
    let m = prost_types::FieldMask { paths: vec!["user.display_name".to_owned(), "foo_bar".to_owned()] };
    assert_eq!(decode("FieldMask", &m.encode_to_vec()), Ok(json("\"user.displayName,fooBar\"")));
    let m = prost_types::FieldMask { paths: vec![] };
    assert_eq!(decode("FieldMask", &m.encode_to_vec()), Ok(json("\"\"")));
}

fn value(kind: prost_types::value::Kind) -> prost_types::Value {
    prost_types::Value { kind: Some(kind) }
}

#[test]
fn structs_lists_and_values_become_plain_json() {
    let mut fields = std::collections::BTreeMap::new();
    fields.insert("a".to_owned(), value(Kind::NumberValue(1.5)));
    fields.insert(
        "b".to_owned(),
        value(Kind::ListValue(prost_types::ListValue {
            values: vec![value(Kind::BoolValue(true)), value(Kind::NullValue(0))],
        })),
    );
    fields.insert("c".to_owned(), value(Kind::StringValue("x".to_owned())));
    let s = prost_types::Struct { fields };
    assert_eq!(decode("Struct", &s.encode_to_vec()), Ok(json(r#"{"a": 1.5, "b": [true, null], "c": "x"}"#)));
    let l = prost_types::ListValue { values: vec![value(Kind::NumberValue(2.0))] };
    assert_eq!(decode("ListValue", &l.encode_to_vec()), Ok(json("[2.0]")));
    assert_eq!(decode("Value", &value(Kind::StringValue("y".to_owned())).encode_to_vec()), Ok(json("\"y\"")));
    assert_eq!(decode("Value", &[]), Ok(json("null")));
}

#[test]
fn empty_is_an_empty_object() {
    assert_eq!(decode("Empty", &[]), Ok(json("{}")));
}

#[test]
fn wrappers_hold_their_value() {
    let mut b = vec![];
    prost::encoding::int32::encode(1, &-7, &mut b);
    assert_eq!(decode("Int32Value", &b), Ok(json("-7")));
    let mut b = vec![];
    prost::encoding::int64::encode(1, &5, &mut b);
    assert_eq!(decode("Int64Value", &b), Ok(json("\"5\"")));
    assert_eq!(decode("UInt64Value", &[]), Ok(json("\"0\"")));
    assert_eq!(decode("Int32Value", &[]), Ok(json("0")));
    assert_eq!(decode("StringValue", &[]), Ok(json("\"\"")));
    let mut b = vec![];
    prost::encoding::string::encode(1, &"s".to_owned(), &mut b);
    assert_eq!(decode("StringValue", &b), Ok(json("\"s\"")));
    let mut b = vec![];
    prost::encoding::bytes::encode(1, &vec![1u8, 2, 3], &mut b);
    assert_eq!(decode("BytesValue", &b), Ok(json("\"AQID\"")));
    let mut b = vec![];
    prost::encoding::bool::encode(1, &true, &mut b);
    assert_eq!(decode("BoolValue", &b), Ok(json("true")));
    let mut b = vec![];
    prost::encoding::float::encode(1, &1.5, &mut b);
    assert_eq!(decode("FloatValue", &b), Ok(json("1.5")));
    let mut b = vec![];
    prost::encoding::double::encode(1, &f64::NAN, &mut b);
    assert_eq!(decode("DoubleValue", &b), Ok(json("\"NaN\"")));
    let mut b = vec![];
    prost::encoding::double::encode(1, &f64::NEG_INFINITY, &mut b);
    assert_eq!(decode("DoubleValue", &b), Ok(json("\"-Infinity\"")));
}

#[test]
fn the_last_wrapper_value_wins() {
    let mut b = vec![];
    prost::encoding::int32::encode(1, &1, &mut b);
    prost::encoding::int32::encode(1, &2, &mut b);
    assert_eq!(decode("Int32Value", &b), Ok(json("2")));
}

#[test]
fn wrapper_value_with_another_wire_type_is_refused() {
    let mut b = vec![];
    prost::encoding::fixed64::encode(1, &9, &mut b);
    assert_eq!(decode("Int32Value", &b), Err(ErrorKind::WireTypeMismatch));
    assert_eq!(ErrorKind::WireTypeMismatch.message(), "invalid wire type");
}
