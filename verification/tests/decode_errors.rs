use lanquetta::decode::ErrorKind;
use lanquetta::descriptor::{FieldDescriptor, FieldType, FileDescriptor, Label, MessageDescriptor};
use lanquetta::ty::{Message, MessageField, Scalar, Ty, TypeId, TypeMap};
use prost::encoding::{encode_key, encode_varint, WireType};

fn field(name: &str, json_name: &str, ty: TypeId) -> MessageField {
    MessageField { name: name.to_owned(), json_name: json_name.to_owned(), is_group: false, ty }
}

fn message(map: &mut TypeMap, name: &str, fields: Vec<(usize, MessageField)>) -> TypeId {
    map.add_with_name(name.to_owned(), Ty::Message(Message::new(name.to_owned(), fields)))
}

fn kind(map: &TypeMap, id: TypeId, bytes: &[u8]) -> ErrorKind {
    map.decode(id, bytes).unwrap_err().kind
}

#[test]
fn truncated_number_is_a_wire_error() {
    let mut map = TypeMap::new();
    let int32 = map.get_scalar(Scalar::Int32);
    let id = message(&mut map, ".t.A", vec![(1, field("a", "a", int32))]);
    let err = map.decode(id, &[0x08, 0xff]).unwrap_err();
    assert_eq!(err.kind, ErrorKind::Wire);
    assert!(err.source.is_some());
    assert_eq!(ErrorKind::Wire.message(), "failed to decode Protobuf message");
}

fn nested() -> (TypeMap, TypeId) {
    let mut map = TypeMap::new();
    let int32 = map.get_scalar(Scalar::Int32);
    let inner = message(&mut map, ".t.Inner", vec![(1, field("x", "x", int32))]);
    let outer = message(&mut map, ".t.Outer", vec![(1, field("inner", "inner", inner))]);
    (map, outer)
}

#[test]
fn nested_message_longer_than_its_parent_is_refused() {
    let (mut map, outer) = nested();
    let wrapper = message(&mut map, ".t.Wrapper", vec![(1, field("outer", "outer", outer))]);
    assert_eq!(kind(&map, wrapper, &[0x0a, 0x04, 0x0a, 0x0a, 0x08, 0x01]), ErrorKind::LimitTooLarge);
    assert_eq!(ErrorKind::LimitTooLarge.message(), "limit too large");
}

#[test]
fn nested_message_must_be_length_delimited() {
    let (map, outer) = nested();
    assert_eq!(kind(&map, outer, &[0x08, 0x01]), ErrorKind::InvalidWireTypeForMessage);
    assert_eq!(ErrorKind::InvalidWireTypeForMessage.message(), "invalid wire type for message");
}

#[test]
fn nested_messages_decode_within_their_length() {
    let (map, outer) = nested();
    let value = map.decode(outer, &[0x0a, 0x02, 0x08, 0x05]).unwrap();
    match value {
        lanquetta::json::JsonValue::Object(entries) => {
            assert_eq!(entries.len(), 1);
            assert_eq!(entries[0].key, "inner");
        }
        _ => panic!("expected an object"),
    }
}

#[test]
fn top_level_type_must_be_a_message() {
    let map = TypeMap::new();
    let int32 = map.get_scalar(Scalar::Int32);
    assert_eq!(kind(&map, int32, &[]), ErrorKind::TopLevelNotMessage);
    assert_eq!(ErrorKind::TopLevelNotMessage.message(), "expected top-level type to be a message");
}

fn map_of(key: Scalar) -> (TypeMap, TypeId) {
    let mut map = TypeMap::new();
    let k = map.get_scalar(key);
    let v = map.get_scalar(Scalar::Int32);
    let entry = message(&mut map, ".t.M.Entry", vec![(1, field("key", "key", k)), (2, field("value", "value", v))]);
    let m = map.add(Ty::Mapping(entry));
    let id = message(&mut map, ".t.M", vec![(1, field("m", "m", m))]);
    (map, id)
}

#[test]
fn map_entry_without_key_is_refused() {
    let (map, id) = map_of(Scalar::String);
    assert_eq!(kind(&map, id, &[0x0a, 0x00]), ErrorKind::MissingMapEntryField);
    assert_eq!(ErrorKind::MissingMapEntryField.message(), "no key found for map entry");
}

#[test]
fn map_entry_without_value_is_refused() {
    let (map, id) = map_of(Scalar::String);
    assert_eq!(kind(&map, id, &[0x0a, 0x03, 0x0a, 0x01, b'k']), ErrorKind::MissingMapEntryField);
}

#[test]
fn map_entry_with_a_float_key_is_refused() {
    let (map, id) = map_of(Scalar::Double);
    let mut entry = vec![];
    prost::encoding::double::encode(1, &1.5, &mut entry);
    prost::encoding::int32::encode(2, &1, &mut entry);
    let mut bytes = vec![];
    encode_key(1, WireType::LengthDelimited, &mut bytes);
    encode_varint(entry.len() as u64, &mut bytes);
    bytes.extend_from_slice(&entry);
    assert_eq!(kind(&map, id, &bytes), ErrorKind::InvalidMapEntry);
    assert_eq!(ErrorKind::InvalidMapEntry.message(), "invalid type for map entry");
}

#[test]
fn later_map_entries_replace_earlier_ones() {
    let (map, id) = map_of(Scalar::Bool);
    let mut bytes = vec![];
    for (k, v) in [(true, 1), (false, 2), (true, 3)] {
        let mut entry = vec![];
        prost::encoding::bool::encode(1, &k, &mut entry);
        prost::encoding::int32::encode(2, &v, &mut entry);
        encode_key(1, WireType::LengthDelimited, &mut bytes);
        encode_varint(entry.len() as u64, &mut bytes);
        bytes.extend_from_slice(&entry);
    }
    match map.decode(id, &bytes).unwrap() {
        lanquetta::json::JsonValue::Object(entries) => match &entries[0].value {
            lanquetta::json::JsonValue::Object(m) => {
                let pairs: Vec<(String, i128)> = m
                    .iter()
                    .map(|e| match e.value {
                        lanquetta::json::JsonValue::Number(n) => (e.key.clone(), n),
                        _ => panic!("expected a number"),
                    })
                    .collect();
                assert_eq!(pairs, vec![("true".to_owned(), 3), ("false".to_owned(), 2)]);
            }
            _ => panic!("expected an object"),
        },
        _ => panic!("expected an object"),
    }
}

#[test]
fn groups_are_not_decoded() {
    let mut map = TypeMap::new();
    let int32 = map.get_scalar(Scalar::Int32);
    let inner = message(&mut map, ".t.G", vec![(1, field("x", "x", int32))]);
    let group = map.add(Ty::Group(inner));
    let id = message(&mut map, ".t.H", vec![(1, field("g", "g", group))]);
    assert_eq!(kind(&map, id, &[0x0b, 0x0c]), ErrorKind::UnsupportedGroup);
    assert_eq!(ErrorKind::UnsupportedGroup.message(), "groups are not supported");
}

#[test]
fn fields_sharing_a_name_with_different_shapes_are_refused() {
    let mut map = TypeMap::new();
    let int32 = map.get_scalar(Scalar::Int32);
    let inner = message(&mut map, ".t.I", vec![]);
    let id = message(&mut map, ".t.J", vec![(1, field("a", "a", int32)), (2, field("a", "a", inner))]);
    assert_eq!(kind(&map, id, &[0x08, 0x01, 0x12, 0x00]), ErrorKind::UnexpectedShape);
    assert_eq!(ErrorKind::UnexpectedShape.message(), "unexpected value type");
}

#[test]
fn unknown_type_names_are_reported() {
    let map = TypeMap::new();
    let err = map.get_by_name(".nope.Missing").unwrap_err();
    assert_eq!(err.message(), "type .nope.Missing not found");
    assert!(map.try_get_by_name(".nope.Missing").is_none());
}

fn fd(name: &str, number: i32, label: Label, field_type: FieldType, type_path: &str) -> FieldDescriptor {
    FieldDescriptor {
        name: name.to_owned(),
        number,
        label,
        field_type,
        type_path: type_path.to_owned(),
        json_name: name.to_owned(),
    }
}

fn msg(name: &str, field: Vec<FieldDescriptor>, nested_type: Vec<MessageDescriptor>, map_entry: bool) -> MessageDescriptor {
    MessageDescriptor { name: name.to_owned(), field, nested_type, enum_type: vec![], map_entry }
}

fn add(messages: Vec<MessageDescriptor>) -> Result<TypeMap, String> {
    let mut map = TypeMap::new();
    let file = FileDescriptor { package: "p".to_owned(), message_type: messages, enum_type: vec![] };
    map.add_files(vec![file]).map(|_| map).map_err(|e| e.message)
}

#[test]
fn duplicate_type_names_are_refused() {
    let err = add(vec![msg("A", vec![], vec![], false), msg("A", vec![], vec![], false)]).unwrap_err();
    assert_eq!(err, "duplicate type definition .p.A");
}

#[test]
fn missing_field_types_are_refused() {
    let err = add(vec![msg("A", vec![fd("b", 1, Label::Optional, FieldType::Message, ".p.B")], vec![], false)]).unwrap_err();
    assert_eq!(err, "type .p.B not found");
}

#[test]
fn self_containing_messages_are_refused() {
    let err = add(vec![msg("A", vec![fd("a", 1, Label::Optional, FieldType::Message, ".p.A")], vec![], false)]).unwrap_err();
    assert_eq!(err, "infinite recursion detected while processing .p.A");
}

fn entry() -> MessageDescriptor {
    msg(
        "E",
        vec![
            fd("key", 1, Label::Optional, FieldType::String, ""),
            fd("value", 2, Label::Optional, FieldType::Int32, ""),
        ],
        vec![],
        true,
    )
}

#[test]
fn map_fields_must_be_repeated_messages() {
    let err = add(vec![msg("A", vec![fd("m", 1, Label::Optional, FieldType::Message, ".p.A.E")], vec![entry()], false)])
        .unwrap_err();
    assert_eq!(err, "map entry must be repeated");
    let err = add(vec![msg("A", vec![fd("m", 1, Label::Repeated, FieldType::Group, ".p.A.E")], vec![entry()], false)])
        .unwrap_err();
    assert_eq!(err, "map entry must be message");
    let map = add(vec![msg("A", vec![fd("m", 1, Label::Repeated, FieldType::Message, ".p.A.E")], vec![entry()], false)])
        .unwrap();
    assert!(map.get_by_name(".p.A").is_ok());
    assert!(map.get_by_name(".p.A.E").is_ok());
}
