use serde_sqlite_jsonb::{
    from_slice, Deserializer, ElementType, Error, FloatRepr, Header, Shape, StreamDecoder, Value,
};
use std::collections::HashMap;
use std::io::Read;

fn text(s: &str) -> Value {
    Value::Str(s.to_string())
}

/// The number that a decoded floating-point value stands for.
fn number(value: Value) -> f64 {
    match value {
        Value::Float(FloatRepr::Json(t)) => serde_json::from_slice::<f64>(&t).unwrap(),
        Value::Float(FloatRepr::Json5(t)) => serde_json5::from_slice::<f64>(&t).unwrap(),
        Value::Float(FloatRepr::Single(bits)) => f32::from_bits(bits) as f64,
        Value::Float(FloatRepr::Double(bits)) => f64::from_bits(bits),
        other => panic!("not a floating-point value: {:?}", other),
    }
}

fn assert_header(bytes: &[u8], expected: Header) {
    let mut de = Deserializer::from_bytes(bytes);
    let header = de.read_header().unwrap();
    assert_eq!(header, expected);
}

#[test]
fn test_read_header() {
    assert_header(
        &[0b_0000_0000],
        Header {
            element_type: ElementType::Null,
            payload_size: 0,
        },
    );
    assert_header(
        &[0b_0000_0001],
        Header {
            element_type: ElementType::True,
            payload_size: 0,
        },
    );
    assert_header(
        &[0b_0000_0010],
        Header {
            element_type: ElementType::False,
            payload_size: 0,
        },
    );
    assert_header(
        &[0b_1100_0011, 0xFA],
        Header {
            element_type: ElementType::Int,
            payload_size: 0xFA,
        },
    );
    assert_header(
        b"\xf3\x00\x00\x00\x00\x00\x00\x00\x01",
        Header {
            element_type: ElementType::Int,
            payload_size: 1,
        },
    );
    assert_header(
        b"\xbb",
        Header {
            element_type: ElementType::Array,
            payload_size: 11,
        },
    );
}

fn assert_all_int_types_eq(encoded: &[u8], expected: i64) {
    // signed
    assert_eq!(
        from_slice(encoded, &Shape::I8).unwrap(),
        Value::Int(expected as i8 as i64),
        "parsing {encoded:?} as i8"
    );
    assert_eq!(from_slice(encoded, &Shape::I16).unwrap(), Value::Int(expected as i16 as i64));
    assert_eq!(from_slice(encoded, &Shape::I32).unwrap(), Value::Int(expected as i32 as i64));
    assert_eq!(from_slice(encoded, &Shape::I64).unwrap(), Value::Int(expected));
    // unsigned
    assert_eq!(from_slice(encoded, &Shape::U8).unwrap(), Value::UInt(expected as u8 as u64));
    assert_eq!(from_slice(encoded, &Shape::U16).unwrap(), Value::UInt(expected as u16 as u64));
    assert_eq!(from_slice(encoded, &Shape::U32).unwrap(), Value::UInt(expected as u32 as u64));
    assert_eq!(from_slice(encoded, &Shape::U64).unwrap(), Value::UInt(expected as u64));
}

#[test]
fn test_decoding_1() {
    // The header of an element need not be in its shortest form: the number
    // 1 can be written in five ways.
    assert_all_int_types_eq(b"\x13\x31", 1);
    assert_all_int_types_eq(b"\xc3\x01\x31", 1);
    assert_all_int_types_eq(b"\xd3\x00\x01\x31", 1);
    assert_all_int_types_eq(b"\xe3\x00\x00\x00\x01\x31", 1);
    assert_all_int_types_eq(b"\xf3\x00\x00\x00\x00\x00\x00\x00\x01\x31", 1);
    assert_all_int_types_eq(b"\xc3\x03127", 127);
}

#[test]
fn test_decoding_large_int() {
    assert_eq!(
        from_slice(b"\xc3\xf418446744073709551615", &Shape::U64).unwrap(),
        Value::UInt(18446744073709551615)
    );
    // large negative i64
    assert_eq!(
        from_slice(b"\xc3\xf5-9223372036854775808", &Shape::I64).unwrap(),
        Value::Int(-9223372036854775808)
    );
}

#[test]
fn test_decoding_large_float() {
    assert_eq!(
        number(from_slice(b"\xc5\x0c-0.123456789", &Shape::Float).unwrap()),
        -0.123456789
    );
}

#[test]
fn test_decoding_int_as_float() {
    assert_eq!(
        number(from_slice(b"\xc3\x0512345", &Shape::Float).unwrap()) as f32,
        12345.
    );
}

#[test]
fn test_null() {
    from_slice(b"\x00", &Shape::Unit).unwrap();
}

#[test]
fn test_option() {
    assert_eq!(
        from_slice(b"\x00", &Shape::Optional(Box::new(Shape::U64))).unwrap(),
        Value::Null
    );
    assert_eq!(
        from_slice(b"\x00", &Shape::Optional(Box::new(Shape::Array(Box::new(Shape::U8))))).unwrap(),
        Value::Null
    );
    assert_eq!(
        from_slice(b"\x2342", &Shape::Optional(Box::new(Shape::U8))).unwrap(),
        Value::UInt(42)
    );
}

#[test]
fn test_string_noescape() {
    assert_eq!(from_slice(b"\x57hello", &Shape::Str).unwrap(), text("hello"));
}

#[test]
fn test_string_json_escape() {
    assert_eq!(from_slice(b"\x28\\n", &Shape::Str).unwrap(), text("\n"));
}

#[test]
fn test_string_json5_escape() {
    assert_eq!(from_slice(b"\x49\\x0A", &Shape::Str).unwrap(), text("\n"));
}

#[test]
fn test_tuple() {
    assert_eq!(
        from_slice(
            b"\x6b\x131\x132\x18x",
            &Shape::Tuple(vec![Shape::U8, Shape::I64, Shape::Char])
        )
        .unwrap(),
        Value::Array(vec![Value::UInt(1), Value::Int(2), Value::Char('x')])
    );
}

#[test]
fn test_tuple_struct() {
    assert_eq!(
        from_slice(
            b"\x3b\x00\x01\x02",
            &Shape::Tuple(vec![
                Shape::Optional(Box::new(Shape::Str)),
                Shape::Bool,
                Shape::Bool
            ])
        )
        .unwrap(),
        Value::Array(vec![Value::Null, Value::Bool(true), Value::Bool(false)])
    );
}

#[test]
fn test_vec() {
    assert_eq!(
        from_slice(b"\x0b", &Shape::Array(Box::new(Shape::Unit))).unwrap(),
        Value::Array(vec![])
    );
    assert_eq!(
        from_slice(b"\x4b\x131\x132", &Shape::Array(Box::new(Shape::U8))).unwrap(),
        Value::Array(vec![Value::UInt(1), Value::UInt(2)])
    );
}

#[test]
fn test_vec_opts() {
    assert_eq!(
        from_slice(
            b"\xbb\x471234\x00\x475678",
            &Shape::Array(Box::new(Shape::Optional(Box::new(Shape::Str))))
        )
        .unwrap(),
        Value::Array(vec![text("1234"), Value::Null, text("5678")])
    );
}

/// Reads one value from a reader: as much as the header of its element
/// announces, and the reader must then be at its end.
fn from_reader<R: Read>(mut reader: R, shape: &Shape) -> Result<Value, Error> {
    let mut stream = StreamDecoder::new();
    loop {
        let wanted = stream.wanted();
        if wanted == 0 {
            break;
        }
        let mut chunk = vec![0u8; wanted.min(4096)];
        let read = reader.read(&mut chunk).unwrap();
        if read == 0 {
            break;
        }
        stream.push(&chunk[..read]);
    }
    let more = reader.read(&mut [0]).unwrap() != 0;
    stream.finish(shape, more)
}

#[test]
fn test_vec_with_reader() {
    assert_eq!(
        from_reader(&b"\x0b"[..], &Shape::Array(Box::new(Shape::Unit))).unwrap(),
        Value::Array(vec![])
    );
}

#[test]
fn reading_from_a_stream() {
    let long = "x".repeat(100_000);
    let mut encoded = b"\xea\x00\x01\x86\xa0".to_vec();
    encoded.extend_from_slice(long.as_bytes());
    assert_eq!(
        from_reader(&encoded[..], &Shape::Str).unwrap(),
        Value::Str(long)
    );
    encoded.push(0);
    assert!(matches!(
        from_reader(&encoded[..], &Shape::Str),
        Err(Error::TrailingCharacters)
    ));
    assert!(matches!(
        from_reader(&b""[..], &Shape::Str),
        Err(Error::Empty)
    ));
    assert!(matches!(
        from_reader(&b"\xd7\x00"[..], &Shape::Str),
        Err(Error::Io(_))
    ));
    assert!(matches!(
        from_reader(&b"\x57hell"[..], &Shape::Str),
        Err(Error::Io(_))
    ));
}

#[test]
fn what_a_stream_is_asked_for() {
    let mut stream = StreamDecoder::new();
    assert_eq!(stream.wanted(), 1);
    assert!(!stream.is_complete());
    stream.push(b"\xd7");
    assert_eq!(stream.wanted(), 2);
    stream.push(b"\x01");
    assert_eq!(stream.wanted(), 1);
    stream.push(b"\x00");
    assert_eq!(stream.wanted(), 256);
    stream.push(&[b'a'; 200]);
    assert_eq!(stream.wanted(), 56);
    assert!(!stream.is_complete());
    stream.push(&[b'a'; 56]);
    assert_eq!(stream.wanted(), 0);
    assert!(stream.is_complete());
    assert_eq!(stream.into_bytes().len(), 259);
}

#[test]
fn test_vec_of_vecs() {
    assert_eq!(
        from_slice(
            b"\xcb\x0a\x4b\x131\x132\x4b\x133\x134",
            &Shape::Array(Box::new(Shape::Array(Box::new(Shape::I16))))
        )
        .unwrap(),
        Value::Array(vec![
            Value::Array(vec![Value::Int(1), Value::Int(2)]),
            Value::Array(vec![Value::Int(3), Value::Int(4)])
        ])
    );
}

#[test]
fn test_hashmap() {
    let actual: HashMap<String, bool> = match from_slice(
        b"\x6c\x17a\x02\x17b\x01",
        &Shape::Object(Box::new(Shape::Str), Box::new(Shape::Bool)),
    )
    .unwrap()
    {
        Value::Object(entries) => entries
            .into_iter()
            .map(|entry| match entry {
                (Value::Str(k), Value::Bool(v)) => (k, v),
                other => panic!("not a string and a boolean: {:?}", other),
            })
            .collect(),
        other => panic!("not a map: {:?}", other),
    };
    let expected = [("a".into(), false), ("b".into(), true)]
        .into_iter()
        .collect();
    assert_eq!(actual, expected);
}

fn field(name: &str, shape: Shape) -> (String, Shape) {
    (name.to_string(), shape)
}

#[test]
fn test_struct() {
    let shape = Shape::Struct(vec![field("a", Shape::Bool), field("b", Shape::Bool)]);
    let actual = from_slice(b"\x6c\x17a\x02\x17b\x01", &shape).unwrap();
    let expected = Value::Object(vec![
        (text("a"), Value::Bool(false)),
        (text("b"), Value::Bool(true)),
    ]);
    assert_eq!(actual, expected);
}

#[test]
fn test_complex_struct() {
    let bytes = b"\xcc\x3a\x27id\x131\x47name\x87John Doe\xc7\x0dphone_numbers\xbb\x471234\x00\x475678\x47data\x6b\x131\x132\x133";
    let mut deser = Deserializer::from_bytes(bytes);
    let shape = Shape::Struct(vec![
        field("id", Shape::I32),
        field("name", Shape::Str),
        field(
            "phone_numbers",
            Shape::Array(Box::new(Shape::Optional(Box::new(Shape::Str)))),
        ),
        field("data", Shape::Array(Box::new(Shape::U8))),
    ]);
    let person = deser.deserialize_value(&shape).unwrap();
    assert_eq!(
        person,
        Value::Object(vec![
            (text("id"), Value::Int(1)),
            (text("name"), text("John Doe")),
            (
                text("phone_numbers"),
                Value::Array(vec![text("1234"), Value::Null, text("5678")])
            ),
            (
                text("data"),
                Value::Array(vec![Value::UInt(1), Value::UInt(2), Value::UInt(3)])
            ),
        ])
    );
}

#[test]
fn test_basic_enum() {
    let shape = Shape::Array(Box::new(Shape::Enum(vec![
        ("X".to_string(), None),
        ("Y".to_string(), None),
    ])));
    let actual = from_slice(b"\x4b\x18X\x18Y", &shape).unwrap();
    let expected = Value::Array(vec![Value::unit_variant("X"), Value::unit_variant("Y")]);
    assert_eq!(actual, expected);
}

#[test]
fn test_externally_tagged_enum() {
    let shape = Shape::Enum(vec![
        ("X".to_string(), Some(Shape::Str)),
        ("Y".to_string(), Some(Shape::Bool)),
    ]);
    // {"X": "Y"}
    let actual = from_slice(b"\x4c\x18X\x18Y", &shape).unwrap();
    let expected = Value::newtype_variant("X", text("Y"));
    assert_eq!(actual, expected);
}

#[test]
fn test_externally_tagged_enum_too_large() {
    let shape = Shape::Array(Box::new(Shape::Enum(vec![
        ("X".to_string(), Some(Shape::Char)),
        ("Y".to_string(), Some(Shape::Char)),
    ])));
    assert_eq!(
        from_slice(b"\x9b\x8c\x18X\x18Y\x18Y\x18A", &shape)
            .unwrap_err()
            .to_string(),
        Error::TrailingCharacters.to_string()
    );
}
