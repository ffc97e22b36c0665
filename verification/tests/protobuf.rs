use lanquetta::descriptor::{
    EnumDescriptor, EnumValueDescriptor, FieldDescriptor, FieldType, FileDescriptor, Label, MessageDescriptor,
};
use lanquetta::json::JsonValue;
use lanquetta::ty::TypeMap;
use prost::encoding::{encode_key, encode_varint, WireType};

fn to_serde(v: &JsonValue) -> serde_json::Value {
    match v {
        JsonValue::Null => serde_json::Value::Null,
        JsonValue::Bool(b) => serde_json::Value::Bool(*b),
        JsonValue::Number(n) => {
            if *n < 0 {
                serde_json::Value::from(*n as i64)
            } else {
                serde_json::Value::from(*n as u64)
            }
        }
        JsonValue::Float(bits) => serde_json::Value::from(f32::from_bits(*bits)),
        JsonValue::Double(bits) => serde_json::Value::from(f64::from_bits(*bits)),
        JsonValue::String(s) => serde_json::Value::String(s.clone()),
        JsonValue::Array(items) => serde_json::Value::Array(items.iter().map(to_serde).collect()),
        JsonValue::Object(entries) => serde_json::Value::Object(
            entries
                .iter()
                .map(|e| (e.key.clone(), to_serde(&e.value)))
                .collect(),
        ),
    }
}

fn field(name: &str, json_name: &str, number: i32, label: Label, field_type: FieldType, type_path: &str) -> FieldDescriptor {
    FieldDescriptor {
        name: name.to_owned(),
        number,
        label,
        field_type,
        type_path: type_path.to_owned(),
        json_name: json_name.to_owned(),
    }
}

const SCALARS: [(&str, FieldType); 15] = [
    ("double", FieldType::Double),
    ("float", FieldType::Float),
    ("int32", FieldType::Int32),
    ("int64", FieldType::Int64),
    ("uint32", FieldType::Uint32),
    ("uint64", FieldType::Uint64),
    ("sint32", FieldType::Sint32),
    ("sint64", FieldType::Sint64),
    ("fixed32", FieldType::Fixed32),
    ("fixed64", FieldType::Fixed64),
    ("sfixed32", FieldType::Sfixed32),
    ("sfixed64", FieldType::Sfixed64),
    ("bool", FieldType::Bool),
    ("string", FieldType::String),
    ("bytes", FieldType::Bytes),
];

fn scalar_fields(label: Label) -> Vec<FieldDescriptor> {
    SCALARS
        .iter()
        .enumerate()
        .map(|(i, (name, ty))| field(name, name, i as i32 + 1, label, *ty, ""))
        .collect()
}

fn message(name: &str, fields: Vec<FieldDescriptor>, nested: Vec<MessageDescriptor>, map_entry: bool) -> MessageDescriptor {
    MessageDescriptor {
        name: name.to_owned(),
        field: fields,
        nested_type: nested,
        enum_type: vec![],
        map_entry,
    }
}

fn test_file() -> FileDescriptor {
    let string_map_entry = message(
        "StringMapEntry",
        vec![
            field("key", "key", 1, Label::Optional, FieldType::String, ""),
            field("value", "value", 2, Label::Optional, FieldType::Message, ".test.Scalars"),
        ],
        vec![],
        true,
    );
    let int_map_entry = message(
        "IntMapEntry",
        vec![
            field("key", "key", 1, Label::Optional, FieldType::Int32, ""),
            field("value", "value", 2, Label::Optional, FieldType::Message, ".test.Scalars"),
        ],
        vec![],
        true,
    );
    let complex = message(
        "ComplexType",
        vec![
            field("string_map", "stringMap", 1, Label::Repeated, FieldType::Message, ".test.ComplexType.StringMapEntry"),
            field("int_map", "intMap", 2, Label::Repeated, FieldType::Message, ".test.ComplexType.IntMapEntry"),
            field("nested", "nested", 3, Label::Optional, FieldType::Message, ".test.Scalars"),
            field("my_enum", "myEnum", 4, Label::Repeated, FieldType::Enum, ".test.MyEnum"),
        ],
        vec![string_map_entry, int_map_entry],
        false,
    );
    FileDescriptor {
        package: "test".to_owned(),
        message_type: vec![
            message("Scalars", scalar_fields(Label::Optional), vec![], false),
            message("ScalarArrays", scalar_fields(Label::Repeated), vec![], false),
            complex,
        ],
        enum_type: vec![EnumDescriptor {
            name: "MyEnum".to_owned(),
            value: vec![
                EnumValueDescriptor { name: "DEFAULT".to_owned(), number: 0 },
                EnumValueDescriptor { name: "FOO".to_owned(), number: 1 },
                EnumValueDescriptor { name: "BAR".to_owned(), number: 3 },
            ],
        }],
    }
}

fn type_map() -> TypeMap {
    let mut map = TypeMap::new();
    map.add_files(vec![test_file()]).unwrap();
    map
}

fn decode(name: &str, bytes: &[u8]) -> serde_json::Value {
    let map = type_map();
    let id = map.get_by_name(name).unwrap();
    to_serde(&map.decode(id, bytes).unwrap())
}

fn delimited(tag: u32, inner: &[u8], buf: &mut Vec<u8>) {
    encode_key(tag, WireType::LengthDelimited, buf);
    encode_varint(inner.len() as u64, buf);
    buf.extend_from_slice(inner);
}

#[test]
fn test_scalars() {
    let mut bytes = vec![];
    prost::encoding::double::encode(1, &1.1, &mut bytes);
    prost::encoding::float::encode(2, &2.2, &mut bytes);
    prost::encoding::int32::encode(3, &3, &mut bytes);
    prost::encoding::int64::encode(4, &4, &mut bytes);
    prost::encoding::uint32::encode(5, &5, &mut bytes);
    prost::encoding::uint64::encode(6, &6, &mut bytes);
    prost::encoding::sint32::encode(7, &7, &mut bytes);
    prost::encoding::sint64::encode(8, &8, &mut bytes);
    prost::encoding::fixed32::encode(9, &9, &mut bytes);
    prost::encoding::fixed64::encode(10, &10, &mut bytes);
    prost::encoding::sfixed32::encode(11, &11, &mut bytes);
    prost::encoding::sfixed64::encode(12, &12, &mut bytes);
    prost::encoding::bool::encode(13, &true, &mut bytes);
    prost::encoding::string::encode(14, &"5".to_owned(), &mut bytes);
    prost::encoding::bytes::encode(15, &b"6".to_vec(), &mut bytes);

    let actual = decode(".test.Scalars", &bytes);
    let mut expected: serde_json::Value = serde_json::from_str(
        r#"{
            "double": 1.1,
            "int32": 3,
            "int64": "4",
            "uint32": 5,
            "uint64": "6",
            "sint32": 7,
            "sint64": "8",
            "fixed32": 9,
            "fixed64": "10",
            "sfixed32": 11,
            "sfixed64": "12",
            "bool": true,
            "string": "5",
            "bytes": "Ng=="
        }"#,
    )
    .unwrap();
    expected["float"] = serde_json::Value::from(2.2f32);
    assert_eq!(actual, expected);
}

#[test]
fn test_extra_fields() {
    let mut bytes = vec![];
    encode_key(100, WireType::Varint, &mut bytes);
    encode_varint(42, &mut bytes);

    let actual = decode(".test.Scalars", &bytes);
    assert_eq!(actual, serde_json::Value::Object(Default::default()));
}

#[test]
fn test_scalar_arrays() {
    let mut bytes = vec![];
    prost::encoding::double::encode_packed(1, &[1.1, 2.2], &mut bytes);
    prost::encoding::float::encode_packed(2, &[3.3f32, 4.4f32], &mut bytes);
    prost::encoding::int32::encode_packed(3, &[5, -6], &mut bytes);
    prost::encoding::int64::encode_packed(4, &[7, -8], &mut bytes);
    prost::encoding::uint32::encode_packed(5, &[9, 10], &mut bytes);
    prost::encoding::uint64::encode_packed(6, &[11, 12], &mut bytes);
    prost::encoding::sint32::encode_packed(7, &[13, -14], &mut bytes);
    prost::encoding::sint64::encode_packed(8, &[15, -16], &mut bytes);
    prost::encoding::fixed32::encode_packed(9, &[17, 18], &mut bytes);
    prost::encoding::fixed64::encode_packed(10, &[19, 20], &mut bytes);
    prost::encoding::sfixed32::encode_packed(11, &[21, -22], &mut bytes);
    prost::encoding::sfixed64::encode_packed(12, &[23, 24], &mut bytes);
    prost::encoding::bool::encode_packed(13, &[true, false], &mut bytes);
    prost::encoding::string::encode_repeated(14, &["25".to_owned(), "26".to_owned()], &mut bytes);
    prost::encoding::bytes::encode_repeated(15, &[b"27".to_vec(), b"28".to_vec()], &mut bytes);

    let actual = decode(".test.ScalarArrays", &bytes);
    let mut expected: serde_json::Value = serde_json::from_str(
        r#"{
            "double": [1.1, 2.2],
            "int32": [5, -6],
            "int64": ["7", "-8"],
            "uint32": [9, 10],
            "uint64": ["11", "12"],
            "sint32": [13, -14],
            "sint64": ["15", "-16"],
            "fixed32": [17, 18],
            "fixed64": ["19", "20"],
            "sfixed32": [21, -22],
            "sfixed64": ["23", "24"],
            "bool": [true, false],
            "string": ["25", "26"],
            "bytes": ["Mjc=", "Mjg="]
        }"#,
    )
    .unwrap();
    expected["float"] = serde_json::Value::Array(vec![
        serde_json::Value::from(3.3f32),
        serde_json::Value::from(4.4f32),
    ]);
    assert_eq!(actual, expected);
}

#[test]
fn test_complex_type() {
    let scalars_1 = {
        let mut b = vec![];
        prost::encoding::double::encode(1, &1.1, &mut b);
        prost::encoding::float::encode(2, &2.2, &mut b);
        prost::encoding::int32::encode(3, &3, &mut b);
        b
    };
    let scalars_2 = {
        let mut b = vec![];
        prost::encoding::int64::encode(4, &4, &mut b);
        prost::encoding::uint32::encode(5, &5, &mut b);
        prost::encoding::uint64::encode(6, &6, &mut b);
        b
    };
    let scalars_3 = {
        let mut b = vec![];
        prost::encoding::sint32::encode(7, &7, &mut b);
        prost::encoding::sint64::encode(8, &8, &mut b);
        prost::encoding::fixed32::encode(9, &9, &mut b);
        b
    };
    let scalars_4 = {
        let mut b = vec![];
        prost::encoding::sint64::encode(8, &8, &mut b);
        prost::encoding::fixed32::encode(9, &9, &mut b);
        prost::encoding::fixed64::encode(10, &10, &mut b);
        b
    };
    let nested = {
        let mut b = vec![];
        prost::encoding::sfixed32::encode(11, &11, &mut b);
        prost::encoding::sfixed64::encode(12, &12, &mut b);
        prost::encoding::bool::encode(13, &true, &mut b);
        prost::encoding::string::encode(14, &"5".to_owned(), &mut b);
        prost::encoding::bytes::encode(15, &b"6".to_vec(), &mut b);
        b
    };

    let mut bytes = vec![];
    for (key, value) in [("1", &scalars_1), ("2", &scalars_2)] {
        let mut entry = vec![];
        prost::encoding::string::encode(1, &key.to_owned(), &mut entry);
        delimited(2, value, &mut entry);
        delimited(1, &entry, &mut bytes);
    }
    for (key, value) in [(3, &scalars_3), (4, &scalars_4)] {
        let mut entry = vec![];
        prost::encoding::int32::encode(1, &key, &mut entry);
        delimited(2, value, &mut entry);
        delimited(2, &entry, &mut bytes);
    }
    delimited(3, &nested, &mut bytes);
    prost::encoding::int32::encode_packed(4, &[0, 1, 2, 3], &mut bytes);

    let actual = decode(".test.ComplexType", &bytes);
    let mut expected: serde_json::Value = serde_json::from_str(
        r#"{
            "stringMap": {
                "1": {
                    "double": 1.1,
                    "int32": 3
                },
                "2": {
                    "int64": "4",
                    "uint32": 5,
                    "uint64": "6"
                }
            },
            "intMap": {
                "3": {
                    "sint32": 7,
                    "sint64": "8",
                    "fixed32": 9
                },
                "4": {
                    "sint64": "8",
                    "fixed32": 9,
                    "fixed64": "10"
                }
            },
            "nested": {
                "sfixed32": 11,
                "sfixed64": "12",
                "bool": true,
                "string": "5",
                "bytes": "Ng=="
            },
            "myEnum": ["DEFAULT", "FOO", 2, "BAR"]
        }"#,
    )
    .unwrap();
    expected["stringMap"]["1"]["float"] = serde_json::Value::from(2.2f32);
    assert_eq!(actual, expected);
}
