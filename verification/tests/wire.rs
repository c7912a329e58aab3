use serde_sqlite_jsonb::decimal::{push_decimal, push_digits};
use serde_sqlite_jsonb::endian::{push_be, push_le, read_be, read_le};
use serde_sqlite_jsonb::json::{
    is_number_text, json5_signed, json5_text, json5_unsigned, read_json5_i64, read_json5_u64,
    read_json_i64, read_json_u64,
};
use serde_sqlite_jsonb::{
    from_slice, header_len, is_jsonb, to_vec, to_vec_with_options, Deserializer, ElementType,
    EnumHead, EnumVariantSerializer, Error, FloatRepr, Found, Header, IoError, Json5Error,
    JsonError, JsonbWriter, Options, Serializer, Shape, Value,
};

fn text(s: &str) -> Value {
    Value::Str(s.to_string())
}

fn header(element_type: ElementType, payload_size: u64) -> Header {
    Header {
        element_type,
        payload_size,
    }
}

#[test]
fn minimal_header_lengths_at_the_thresholds() {
    let sizes: [u64; 9] = [
        0,
        11,
        12,
        255,
        256,
        65535,
        65536,
        0xFFFF_FFFF,
        0x1_0000_0000,
    ];
    let lengths: [usize; 9] = [1, 1, 2, 2, 3, 3, 5, 5, 9];
    for (size, length) in sizes.iter().zip(lengths.iter()) {
        let bytes = header(ElementType::TextRaw, *size).serialize_minimal();
        assert_eq!(bytes.len(), *length, "payload of {size} bytes");
        assert_eq!(header_len(bytes[0]), *length);
        let mut element = bytes.clone();
        element.push(0);
        assert_eq!(
            Deserializer::from_bytes(&element).read_header().unwrap(),
            header(ElementType::TextRaw, *size)
        );
    }
}

#[test]
fn minimal_header_bytes() {
    assert_eq!(header(ElementType::Null, 0).serialize_minimal(), b"\x00");
    assert_eq!(header(ElementType::Array, 11).serialize_minimal(), b"\xbb");
    assert_eq!(header(ElementType::Int, 12).serialize_minimal(), b"\xc3\x0c");
    assert_eq!(
        header(ElementType::Object, 0x1234).serialize_minimal(),
        b"\xdc\x12\x34"
    );
    assert_eq!(
        header(ElementType::TextRaw, 0x0123_4567).serialize_minimal(),
        b"\xea\x01\x23\x45\x67"
    );
    assert_eq!(
        header(ElementType::TextRaw, 0x01_0000_0000).serialize_minimal(),
        b"\xfa\x00\x00\x00\x01\x00\x00\x00\x00"
    );
}

#[test]
fn longest_header_form() {
    assert_eq!(
        header(ElementType::Int, 1).serialize(),
        *b"\xf3\x00\x00\x00\x00\x00\x00\x00\x01"
    );
    assert_eq!(
        header(ElementType::BinaryFloat, 0x0102_0304_0506_0708).serialize(),
        *b"\xff\x01\x02\x03\x04\x05\x06\x07\x08"
    );
}

#[test]
fn element_type_codes() {
    for code in 0..=255u8 {
        let element_type = ElementType::from(code);
        assert_eq!(u8::from(element_type), code & 0x0f);
    }
    assert_eq!(ElementType::from(0xFF), ElementType::BinaryFloat);
    assert_eq!(ElementType::from(0x1D), ElementType::Reserved13);
    assert_eq!(u8::from(ElementType::TextRaw), 10);
}

#[test]
fn every_header_form_reads_back() {
    let forms: [&[u8]; 5] = [
        b"\x57hello",
        b"\xc7\x05hello",
        b"\xd7\x00\x05hello",
        b"\xe7\x00\x00\x00\x05hello",
        b"\xf7\x00\x00\x00\x00\x00\x00\x00\x05hello",
    ];
    for form in forms {
        assert_eq!(from_slice(form, &Shape::Str).unwrap(), text("hello"));
        assert_eq!(is_jsonb(form).unwrap(), header(ElementType::Text, 5));
    }
}

#[test]
fn null_takes_one_byte() {
    let mut de = Deserializer::from_bytes(b"\x00\x01");
    de.deserialize_unit().unwrap();
    assert!(!de.at_end());
    assert_eq!(de.deserialize_bool().unwrap(), true);
    assert!(de.at_end());
}

#[test]
fn array_cut_short_is_read_as_far_as_it_is_there() {
    assert_eq!(
        from_slice(b"\xbb\x00\x01\x02", &Shape::Array(Box::new(Shape::Any))).unwrap(),
        Value::Array(vec![Value::Null, Value::Bool(true), Value::Bool(false)])
    );
}

fn person_shape() -> Shape {
    Shape::Struct(vec![
        ("id".to_string(), Shape::I32),
        ("name".to_string(), Shape::Str),
        (
            "phone_numbers".to_string(),
            Shape::Array(Box::new(Shape::Enum(vec![
                ("Internal".to_string(), Some(Shape::I32)),
                ("National".to_string(), Some(Shape::Str)),
                (
                    "International".to_string(),
                    Some(Shape::Struct(vec![
                        (
                            "country_code".to_string(),
                            Shape::Optional(Box::new(Shape::I32)),
                        ),
                        ("number".to_string(), Shape::Str),
                    ])),
                ),
                (
                    "Custom".to_string(),
                    Some(Shape::Tuple(vec![
                        Shape::Optional(Box::new(Shape::I32)),
                        Shape::Str,
                    ])),
                ),
                ("Unlisted".to_string(), None),
            ]))),
        ),
        ("is_champion".to_string(), Shape::Bool),
        ("data".to_string(), Shape::Array(Box::new(Shape::U8))),
    ])
}

fn person(id: i64, name: &str, phone_numbers: Vec<Value>, is_champion: bool, data: Vec<u8>) -> Value {
    Value::Object(vec![
        (text("id"), Value::Int(id)),
        (text("name"), text(name)),
        (text("phone_numbers"), Value::Array(phone_numbers)),
        (text("is_champion"), Value::Bool(is_champion)),
        (
            text("data"),
            Value::Array(data.into_iter().map(|b| Value::UInt(b as u64)).collect()),
        ),
    ])
}

fn people() -> Value {
    Value::Array(vec![
        person(
            1,
            "John Doe",
            vec![
                Value::struct_variant(
                    "International",
                    vec![
                        (text("country_code"), Value::Int(33)),
                        (text("number"), text("1234")),
                    ],
                ),
                Value::tuple_variant("Custom", vec![Value::Null, text("5678")]),
                Value::newtype_variant("Internal", Value::Int(-7)),
                Value::unit_variant("Unlisted"),
            ],
            true,
            vec![1, 2, 3],
        ),
        person(
            2,
            "Mister Smiley Baily \u{1F60A}",
            vec![],
            false,
            (0..u8::MAX).collect(),
        ),
    ])
}

#[test]
fn round_trip_of_a_document() {
    let shape = Shape::Array(Box::new(person_shape()));
    let encoded = to_vec(&people()).unwrap();
    assert_eq!(from_slice(&encoded, &shape).unwrap(), people());
    assert!(is_jsonb(&encoded).is_ok());
}

#[test]
fn round_trip_of_scalars() {
    let cases: Vec<(Value, Shape)> = vec![
        (Value::Null, Shape::Unit),
        (Value::Bool(true), Shape::Bool),
        (Value::Bool(false), Shape::Bool),
        (Value::Int(i8::MIN as i64), Shape::I8),
        (Value::Int(i16::MAX as i64), Shape::I16),
        (Value::Int(i32::MIN as i64), Shape::I32),
        (Value::Int(i64::MIN), Shape::I64),
        (Value::Int(i64::MAX), Shape::I64),
        (Value::Int(0), Shape::I64),
        (Value::UInt(u8::MAX as u64), Shape::U8),
        (Value::UInt(u16::MAX as u64), Shape::U16),
        (Value::UInt(u32::MAX as u64), Shape::U32),
        (Value::UInt(u64::MAX), Shape::U64),
        (Value::UInt(0), Shape::U64),
        (Value::Char('x'), Shape::Char),
        (Value::Char('\u{1F60A}'), Shape::Char),
        (text(""), Shape::Str),
        (text("a \"quoted\" \\ string\n"), Shape::Str),
        (Value::Float(FloatRepr::Json(b"3.14".to_vec())), Shape::Float),
        (Value::Float(FloatRepr::Json5(b"+.5".to_vec())), Shape::Float),
        (Value::Float(FloatRepr::Single(1.5f32.to_bits())), Shape::Float),
        (Value::Float(FloatRepr::Double((-2.5f64).to_bits())), Shape::Float),
        (Value::Null, Shape::Optional(Box::new(Shape::Str))),
        (text("x"), Shape::Optional(Box::new(Shape::Str))),
    ];
    for (value, shape) in cases {
        let encoded = to_vec(&value).unwrap();
        assert_eq!(from_slice(&encoded, &shape).unwrap(), value, "{encoded:?}");
    }
}

#[test]
fn round_trip_without_a_shape() {
    let value = Value::Array(vec![
        Value::Null,
        Value::Bool(true),
        Value::UInt(0),
        Value::UInt(300),
        Value::UInt(i64::MAX as u64),
        Value::Int(-1),
        Value::Int(i64::MIN),
        text("text"),
        Value::Float(FloatRepr::Json(b"1e3".to_vec())),
        Value::Float(FloatRepr::Double(0.25f64.to_bits())),
        Value::Object(vec![(text("k"), Value::Array(vec![]))]),
    ]);
    let encoded = to_vec(&value).unwrap();
    assert_eq!(from_slice(&encoded, &Shape::Any).unwrap(), value);
}

#[test]
fn floats_are_written_as_the_options_say() {
    let value = Value::Array(vec![
        Value::F32 {
            bits: 1.0f32.to_bits(),
            text: "1".to_string(),
        },
        Value::F64 {
            bits: (-2.5f64).to_bits(),
            text: "-2.5".to_string(),
        },
    ]);
    let as_text = to_vec(&value).unwrap();
    assert_eq!(as_text, b"\x7b\x151\x45-2.5");
    assert_eq!(
        from_slice(&as_text, &Shape::Array(Box::new(Shape::Float))).unwrap(),
        Value::Array(vec![
            Value::Float(FloatRepr::Json(b"1".to_vec())),
            Value::Float(FloatRepr::Json(b"-2.5".to_vec())),
        ])
    );
    let as_bits = to_vec_with_options(&value, Options { binary_float: true }).unwrap();
    assert_eq!(
        as_bits,
        b"\xcb\x0e\x4f\x00\x00\x80\x3f\x8f\x00\x00\x00\x00\x00\x00\x04\xc0"
    );
    assert_eq!(
        from_slice(&as_bits, &Shape::Array(Box::new(Shape::Float))).unwrap(),
        Value::Array(vec![
            Value::Float(FloatRepr::Single(1.0f32.to_bits())),
            Value::Float(FloatRepr::Double((-2.5f64).to_bits())),
        ])
    );
    assert!(!Options::default().binary_float);
}

#[test]
fn trailing_data_is_rejected() {
    let encoded = to_vec(&people()).unwrap();
    let shape = Shape::Array(Box::new(person_shape()));
    for extra in [0x00u8, 0x01, 0x13, 0xff] {
        let mut longer = encoded.clone();
        longer.push(extra);
        assert!(matches!(
            from_slice(&longer, &shape),
            Err(Error::TrailingCharacters)
        ));
    }
    assert!(matches!(
        from_slice(b"\x00\x00", &Shape::Unit),
        Err(Error::TrailingCharacters)
    ));
    assert!(matches!(
        from_slice(b"\x2b\x01\x02", &Shape::Tuple(vec![Shape::Bool])),
        Err(Error::TrailingCharacters)
    ));
}

#[test]
fn enum_shapes() {
    let shape = Shape::Enum(vec![
        ("A".to_string(), None),
        ("B".to_string(), Some(Shape::I32)),
        (
            "C".to_string(),
            Some(Shape::Tuple(vec![Shape::I32, Shape::I32])),
        ),
        (
            "D".to_string(),
            Some(Shape::Struct(vec![("x".to_string(), Shape::Bool)])),
        ),
    ]);
    let cases: Vec<(Value, &[u8])> = vec![
        (Value::unit_variant("A"), b"\x1aA"),
        (Value::newtype_variant("B", Value::Int(42)), b"\x5c\x1aB\x2342"),
        (
            Value::tuple_variant("C", vec![Value::Int(1), Value::Int(2)]),
            b"\x7c\x1aC\x4b\x131\x132",
        ),
        (
            Value::struct_variant("D", vec![(text("x"), Value::Bool(true))]),
            b"\x6c\x1aD\x3c\x1ax\x01",
        ),
    ];
    for (value, bytes) in cases {
        assert_eq!(to_vec(&value).unwrap(), bytes);
        assert_eq!(from_slice(bytes, &shape).unwrap(), value);
    }
    // An object that holds only the name stands for the variant without data.
    assert_eq!(
        from_slice(b"\x2c\x1aA", &shape).unwrap(),
        Value::unit_variant("A")
    );
}

fn message_of(result: Result<Value, Error>) -> String {
    match result {
        Err(Error::Message(m)) => m,
        other => panic!("not a message: {:?}", other),
    }
}

#[test]
fn errors_of_decoding() {
    assert!(matches!(from_slice(b"", &Shape::Unit), Err(Error::Empty)));
    assert!(matches!(from_slice(b"", &Shape::Any), Err(Error::Empty)));
    assert!(matches!(
        from_slice(b"\x00", &Shape::Bool),
        Err(Error::UnexpectedType(ElementType::Null))
    ));
    assert!(matches!(
        from_slice(b"\x01", &Shape::Unit),
        Err(Error::UnexpectedType(ElementType::True))
    ));
    assert!(matches!(
        from_slice(b"\x0d", &Shape::Any),
        Err(Error::UnexpectedType(ElementType::Reserved13))
    ));
    assert!(matches!(
        from_slice(b"\x0e", &Shape::Any),
        Err(Error::UnexpectedType(ElementType::Reserved14))
    ));
    assert!(matches!(
        from_slice(b"\x17a", &Shape::I8),
        Err(Error::UnexpectedType(ElementType::Text))
    ));
    assert!(matches!(
        from_slice(b"\x0b", &Shape::Enum(vec![])),
        Err(Error::UnexpectedType(ElementType::Array))
    ));
    // The input ends inside the header, or inside the payload.
    assert!(matches!(
        from_slice(b"\xd3\x00", &Shape::I8),
        Err(Error::Io(IoError::UnexpectedEof))
    ));
    assert!(matches!(
        from_slice(b"\x2342", &Shape::Str).map(|_| ()),
        Err(Error::UnexpectedType(ElementType::Int))
    ));
    assert!(matches!(
        from_slice(b"\x57hell", &Shape::Str),
        Err(Error::Io(IoError::UnexpectedEof))
    ));
    assert!(matches!(
        from_slice(b"\x234", &Shape::U8),
        Err(Error::Io(IoError::UnexpectedEof))
    ));
    assert!(matches!(
        from_slice(b"\x11", &Shape::Bool),
        Err(Error::Io(IoError::UnexpectedEof))
    ));
    assert!(matches!(
        from_slice(b"\x27\xff\xfe", &Shape::Str),
        Err(Error::Utf8(_))
    ));
    assert!(matches!(
        from_slice(b"\x23ab", &Shape::I32),
        Err(Error::JsonError(_))
    ));
    assert!(matches!(
        from_slice(b"\x33300", &Shape::U8),
        Err(Error::JsonError(_))
    ));
    assert!(matches!(
        from_slice(b"\x33-12", &Shape::U64),
        Err(Error::JsonError(_))
    ));
    assert!(matches!(
        from_slice(b"\x28\\q", &Shape::Str),
        Err(Error::JsonError(_))
    ));
    assert!(matches!(
        from_slice(b"\x24ab", &Shape::I32),
        Err(Error::Json5Error(_))
    ));
    assert!(matches!(
        from_slice(b"\x29\\u", &Shape::Str),
        Err(Error::Json5Error(_))
    ));
    assert_eq!(
        message_of(from_slice(b"\x27ab", &Shape::Char)),
        "invalid string length for char"
    );
    assert_eq!(
        message_of(from_slice(b"\x07", &Shape::Char)),
        "invalid string length for char"
    );
    assert_eq!(
        message_of(from_slice(b"\x2f\x00\x00", &Shape::Float)),
        "invalid binary float length"
    );
    assert_eq!(
        message_of(from_slice(
            b"\x1b\x01",
            &Shape::Tuple(vec![Shape::Bool, Shape::Bool])
        )),
        "invalid length"
    );
    let point = Shape::Struct(vec![
        ("x".to_string(), Shape::Bool),
        ("y".to_string(), Shape::Bool),
    ]);
    assert_eq!(
        message_of(from_slice(b"\x3c\x17x\x01", &point)),
        "missing field"
    );
    assert_eq!(
        message_of(from_slice(b"\x6c\x17y\x01\x17x\x01", &point)),
        "unexpected field"
    );
    let one = || Shape::Enum(vec![("A".to_string(), Some(Shape::Bool)), ("U".to_string(), None)]);
    assert_eq!(message_of(from_slice(b"\x17B", &one())), "unknown variant");
    assert_eq!(
        message_of(from_slice(b"\x3c\x17B\x01", &one())),
        "unknown variant"
    );
    assert_eq!(
        message_of(from_slice(b"\x17A", &one())),
        "invalid type: unit variant"
    );
    assert!(matches!(
        from_slice(b"\x3c\x17U\x01", &one()),
        Err(Error::TrailingCharacters)
    ));
    // A key without a value finds nothing left to read.
    assert!(matches!(
        from_slice(
            b"\x2c\x17a",
            &Shape::Object(Box::new(Shape::Str), Box::new(Shape::Bool))
        ),
        Err(Error::Empty)
    ));
}

#[test]
fn what_errors_say() {
    let cases: Vec<(Error, &str)> = vec![
        (Error::Message("in words".to_string()), "in words"),
        (
            Error::JsonError(JsonError {
                message: "expected value".to_string(),
            }),
            "json error",
        ),
        (
            Error::Json5Error(Json5Error {
                message: "expected value".to_string(),
            }),
            "json5 error",
        ),
        (
            Error::InvalidElementType(7),
            "7 is not a valid jsonb element type code",
        ),
        (
            Error::InvalidElementType(42),
            "42 is not a valid jsonb element type code",
        ),
        (
            Error::InvalidElementType(205),
            "205 is not a valid jsonb element type code",
        ),
        (
            Error::UnexpectedType(ElementType::TextRaw),
            "unexpected type: TextRaw",
        ),
        (
            Error::UnexpectedType(ElementType::BinaryFloat),
            "unexpected type: BinaryFloat",
        ),
        (Error::Io(IoError::UnexpectedEof), "io error"),
        (
            Error::TrailingCharacters,
            "trailing data after the end of the jsonb value",
        ),
        (Error::Empty, "empty jsonb value"),
    ];
    for (error, expected) in cases {
        assert_eq!(error.to_string(), expected);
    }
    let utf8 = String::from_utf8(vec![0xff]).unwrap_err();
    assert_eq!(Error::from(utf8).to_string(), "invalid utf8 in string");
    for element_type in [ElementType::Null, ElementType::Int5, ElementType::Reserved14] {
        assert_eq!(
            Error::UnexpectedType(element_type).to_string(),
            format!("unexpected type: {:?}", element_type)
        );
    }
}

#[test]
fn integers_in_json5() {
    // 0x1F
    assert_eq!(from_slice(b"\x440x1F", &Shape::I32).unwrap(), Value::Int(31));
    assert_eq!(from_slice(b"\x34+12", &Shape::U8).unwrap(), Value::UInt(12));
    // A number that the type cannot hold becomes the nearest that it can.
    assert_eq!(from_slice(b"\x34300", &Shape::U8).unwrap(), Value::UInt(255));
    assert_eq!(from_slice(b"\x34300", &Shape::I8).unwrap(), Value::Int(127));
    assert_eq!(from_slice(b"\x44-300", &Shape::I8).unwrap(), Value::Int(-128));
    assert_eq!(from_slice(b"\x24-5", &Shape::U16).unwrap(), Value::UInt(0));
    assert_eq!(from_slice(b"\x34300", &Shape::Any).unwrap(), Value::UInt(300));
    // A number may stand behind blanks and comments that are not ASCII.
    assert_eq!(from_slice(b"\x44\xc2\xa012", &Shape::I32).unwrap(), Value::Int(12));
    assert_eq!(from_slice(b"\x44\xc2\xa012", &Shape::Any).unwrap(), Value::UInt(12));
    assert_eq!(
        from_slice(b"\xc4\x0a/* \xc3\xa9 */ 7", &Shape::U8).unwrap(),
        Value::UInt(7)
    );
    // A string, an array or an object is no number.
    for shape in [Shape::I32, Shape::U32, Shape::Any] {
        assert!(matches!(
            from_slice(b"\x44\"\xc3\xa9\"", &shape),
            Err(Error::Json5Error(_))
        ));
        assert!(matches!(
            from_slice(b"\x54[\xc2\xa01]", &shape),
            Err(Error::Json5Error(_))
        ));
        assert!(matches!(
            from_slice(b"\x24\xff\xfe", &shape),
            Err(Error::Json5Error(_))
        ));
    }
    assert_eq!(
        from_slice(b"\x49\xc3\xa9\\n", &Shape::Str).unwrap(),
        text("\u{e9}\n")
    );
}

#[test]
fn steps_on_json5_elements() {
    let mut de = Deserializer::from_bytes(b"\x2412\x19a\x01");
    assert_eq!(de.deserialize_i8().unwrap(), 12);
    assert_eq!(de.deserialize_char().unwrap(), 'a');
    assert!(de.deserialize_bool().unwrap());
    assert!(de.at_end());
    let mut de = Deserializer::from_bytes(b"\x34300\x29ab\x19c\x00");
    assert!(matches!(de.deserialize_any().unwrap(), Found::U16(300)));
    assert!(matches!(de.deserialize_char(), Err(Error::Message(_))));
    assert_eq!(de.deserialize_identifier().unwrap(), "c");
    de.deserialize_unit().unwrap();
    assert!(de.at_end());
    let mut de = Deserializer::from_bytes(b"\x44-129\x34040\x19B\x29xy");
    assert_eq!(de.deserialize_i8().unwrap(), -128);
    assert!(matches!(de.deserialize_u16(), Err(Error::Json5Error(_))));
    assert!(matches!(de.deserialize_enum("E").unwrap(), EnumHead::Unit(name) if name == "B"));
    assert!(matches!(de.deserialize_any().unwrap(), Found::String(s) if s == "xy"));
    assert!(de.at_end());
    // What may not be a number is refused, whatever integer is asked for.
    assert!(matches!(
        Deserializer::from_bytes(b"\x34[\xc2\xa0").deserialize_u64(),
        Err(Error::Json5Error(_))
    ));
    assert!(matches!(
        Deserializer::from_bytes(b"\x34'\xc3\xa9").deserialize_i16(),
        Err(Error::Json5Error(_))
    ));
    assert!(matches!(
        Deserializer::from_bytes(b"\x34{\xc2\xa0").deserialize_any(),
        Err(Error::Json5Error(_))
    ));
}

#[test]
fn integers_without_a_type_asked_for() {
    let cases: Vec<(&[u8], Found)> = vec![
        (b"\x130", Found::U8(0)),
        (b"\x33255", Found::U8(255)),
        (b"\x33256", Found::U16(256)),
        (b"\x5365535", Found::U16(65535)),
        (b"\x5365536", Found::U32(65536)),
        (b"\xa34294967295", Found::U32(4294967295)),
        (b"\xa34294967296", Found::U64(4294967296)),
        (b"\x23-1", Found::I8(-1)),
        (b"\x43-128", Found::I8(-128)),
        (b"\x43-129", Found::I16(-129)),
        (b"\x63-32769", Found::I32(-32769)),
        (b"\xb3-2147483649", Found::I64(-2147483649)),
    ];
    for (bytes, expected) in cases {
        let mut de = Deserializer::from_bytes(bytes);
        let found = de.deserialize_any().unwrap();
        assert_eq!(format!("{:?}", found), format!("{:?}", expected));
        assert!(de.at_end());
    }
}

#[test]
fn regions_of_the_decoder() {
    // [[1, 2], true]
    let mut de = Deserializer::from_bytes(b"\x6b\x4b\x131\x132\x01");
    let outer = de.deserialize_seq().unwrap();
    let inner = de.deserialize_seq().unwrap();
    assert_eq!(de.deserialize_u8().unwrap(), 1);
    assert!(!de.at_end());
    assert_eq!(de.deserialize_i64().unwrap(), 2);
    assert!(de.at_end());
    assert!(matches!(de.deserialize_u8(), Err(Error::Empty)));
    de.leave_limit(inner);
    assert!(!de.at_end());
    assert_eq!(de.deserialize_bool().unwrap(), true);
    assert!(de.at_end());
    de.leave_limit(outer);
    assert!(de.at_end());
}

#[test]
fn optional_values_of_the_decoder() {
    let mut de = Deserializer::from_bytes(b"\x00\x2342");
    assert_eq!(de.deserialize_option().unwrap(), false);
    assert_eq!(de.deserialize_option().unwrap(), true);
    assert_eq!(de.deserialize_u8().unwrap(), 42);
    assert!(matches!(de.deserialize_option(), Err(Error::Empty)));
}

#[test]
fn enum_values_of_the_decoder() {
    let mut de = Deserializer::from_bytes(b"\x18X\x4c\x18X\x18Y\x6c\x18X\x18Y\x01");
    match de.deserialize_enum("E").unwrap() {
        EnumHead::Unit(name) => assert_eq!(name, "X"),
        other => panic!("not a bare name: {:?}", other),
    }
    match de.deserialize_enum("E").unwrap() {
        EnumHead::Data(outer) => {
            assert_eq!(de.deserialize_identifier().unwrap(), "X");
            assert_eq!(de.deserialize_char().unwrap(), 'Y');
            de.end_enum(outer).unwrap();
        }
        other => panic!("not an object: {:?}", other),
    }
    match de.deserialize_enum("E").unwrap() {
        EnumHead::Data(outer) => {
            assert_eq!(de.deserialize_identifier().unwrap(), "X");
            assert_eq!(de.deserialize_string().unwrap(), "Y");
            assert!(matches!(de.end_enum(outer), Err(Error::TrailingCharacters)));
        }
        other => panic!("not an object: {:?}", other),
    }
}

#[test]
fn elements_are_passed_over() {
    let mut de = Deserializer::from_bytes(b"\x4b\x131\x132\xc7\x0chello, world\x01");
    de.deserialize_ignored_any().unwrap();
    de.deserialize_ignored_any().unwrap();
    assert_eq!(de.deserialize_bool().unwrap(), true);
    assert!(matches!(de.deserialize_ignored_any(), Err(Error::Empty)));
}

#[test]
fn floats_of_the_decoder() {
    let mut de = Deserializer::from_bytes(
        b"\x453.14\x36.5e\x131\x4f\x00\x00\x80\x3f\x8f\x00\x00\x00\x00\x00\x00\x04\xc0",
    );
    assert_eq!(de.deserialize_f64().unwrap(), FloatRepr::Json(b"3.14".to_vec()));
    assert_eq!(de.deserialize_f32().unwrap(), FloatRepr::Json5(b".5e".to_vec()));
    assert_eq!(de.deserialize_f64().unwrap(), FloatRepr::Json(b"1".to_vec()));
    assert_eq!(de.deserialize_f32().unwrap(), FloatRepr::Single(0x3f80_0000));
    assert_eq!(
        de.deserialize_f64().unwrap(),
        FloatRepr::Double(0xc004_0000_0000_0000)
    );
    assert!(de.at_end());
}

#[test]
fn the_encoder_step_by_step() {
    let mut serializer = Serializer::from_options(Options::default());
    let array: JsonbWriter = serializer.serialize_seq(None).unwrap();
    serializer.serialize_i8(-8).unwrap();
    serializer.serialize_i16(-16).unwrap();
    serializer.serialize_i32(-32).unwrap();
    serializer.serialize_u16(16).unwrap();
    serializer.serialize_u32(32).unwrap();
    serializer.serialize_none().unwrap();
    serializer.serialize_unit_struct("Unit").unwrap();
    serializer.serialize_newtype_struct("Wrapper").unwrap();
    serializer.serialize_bytes(&[0, 10, 255]).unwrap();
    serializer.serialize_unit_variant("E", 0, "A").unwrap();
    let object: JsonbWriter = serializer.serialize_struct("S", 1).unwrap();
    object.serialize_key(&mut serializer, "k").unwrap();
    serializer.serialize_f64(0.5f64.to_bits(), "0.5").unwrap();
    assert!(object.is_open(&serializer));
    object.end(&mut serializer).unwrap();
    let variant: JsonbWriter = serializer.serialize_newtype_variant("E", 1, "B").unwrap();
    serializer.serialize_char('c').unwrap();
    variant.end(&mut serializer).unwrap();
    let tuple: EnumVariantSerializer = serializer.serialize_tuple_variant("E", 2, "C", 2).unwrap();
    serializer.serialize_bool(true).unwrap();
    serializer.serialize_bool(false).unwrap();
    assert!(tuple.is_open(&serializer));
    tuple.end(&mut serializer).unwrap();
    let fields: EnumVariantSerializer = serializer.serialize_struct_variant("E", 3, "D", 1).unwrap();
    fields.serialize_key(&mut serializer, "x").unwrap();
    serializer.serialize_unit().unwrap();
    fields.end(&mut serializer).unwrap();
    assert!(array.is_open(&serializer));
    array.end(&mut serializer).unwrap();
    let mut expected: Vec<u8> = Vec::new();
    expected.extend_from_slice(b"\xcb\x38");
    expected.extend_from_slice(b"\x23-8\x33-16\x33-32\x2316\x2332");
    expected.extend_from_slice(b"\x00\x00");
    expected.extend_from_slice(b"\x9b\x130\x2310\x33255");
    expected.extend_from_slice(b"\x1aA");
    expected.extend_from_slice(b"\x6c\x1ak\x350.5");
    expected.extend_from_slice(b"\x4c\x1aB\x1ac");
    expected.extend_from_slice(b"\x5c\x1aC\x2b\x01\x02");
    expected.extend_from_slice(b"\x6c\x1aD\x3c\x1ax\x00");
    assert_eq!(serializer.into_bytes(), expected);
}

#[test]
fn a_wrapping_struct_is_its_value() {
    let mut alone = Serializer::from_options(Options::default());
    alone.serialize_newtype_struct("Wrapper").unwrap();
    assert!(alone.into_bytes().is_empty());
    let mut serializer = Serializer::from_options(Options::default());
    serializer.serialize_newtype_struct("Wrapper").unwrap();
    serializer.serialize_u8(42).unwrap();
    let bytes: Vec<u8> = serializer.into_bytes();
    assert_eq!(bytes, [0x23, b'4', b'2']);
    let mut de = Deserializer::from_bytes(&bytes);
    de.deserialize_newtype_struct("Wrapper").unwrap();
    assert_eq!(de.deserialize_u8().unwrap(), 42);
    assert!(de.at_end());
    assert_eq!(to_vec(&Value::UInt(42)).unwrap(), bytes);
    assert_eq!(from_slice(&bytes, &Shape::U8).unwrap(), Value::UInt(42));
}

#[test]
fn writers_on_a_buffer() {
    let mut buffer: Vec<u8> = b"\x01".to_vec();
    let writer = JsonbWriter::new(&mut buffer, ElementType::Text);
    assert_eq!(buffer, b"\x01\x07\x07\x07\x07\x07\x07\x07\x07\x07");
    buffer.extend_from_slice(b"twelve bytes");
    writer.finalize(&mut buffer);
    assert_eq!(buffer, b"\x01\xc7\x0ctwelve bytes");
    let variant = EnumVariantSerializer::new(&mut buffer, "V", ElementType::Array);
    assert_eq!(
        buffer,
        b"\x01\xc7\x0ctwelve bytes\x0c\x0c\x0c\x0c\x0c\x0c\x0c\x0c\x0c\x1aV\x0b\x0b\x0b\x0b\x0b\x0b\x0b\x0b\x0b"
    );
    let mut serializer = Serializer::from_options(Options { binary_float: true });
    serializer.write_binary(ElementType::Null, &buffer).unwrap();
    serializer.write_header_nodata(ElementType::True);
    serializer.write_displayable(ElementType::Text, "t").unwrap();
    serializer.serialize_f32(1.0f32.to_bits(), "1").unwrap();
    let bytes = serializer.into_bytes();
    assert_eq!(&bytes[bytes.len() - 8..], b"\x01\x17t\x4f\x00\x00\x80\x3f");
    let _ = variant;
}

#[test]
fn long_payloads_move_up_against_their_headers() {
    for length in [11usize, 12, 255, 256, 65535, 65536, 70000] {
        let items: Vec<Value> = (0..length).map(|_| Value::Null).collect();
        let encoded = to_vec(&Value::Array(items)).unwrap();
        let header = is_jsonb(&encoded).unwrap();
        assert_eq!(header.element_type, ElementType::Array);
        assert_eq!(header.payload_size, length as u64);
        assert!(encoded[header_len(encoded[0])..].iter().all(|b| *b == 0));
    }
}

#[test]
fn a_blob_that_sqlite_wrote() {
    // jsonb('[{"t": "A"}, {"t": "B"}]')
    let blob = b"\xab\x4c\x17\x74\x17\x41\x4c\x17\x74\x17\x42";
    let expected = Value::Array(vec![
        Value::Object(vec![(text("t"), text("A"))]),
        Value::Object(vec![(text("t"), text("B"))]),
    ]);
    assert_eq!(from_slice(blob, &Shape::Any).unwrap(), expected);
    let tagged = Shape::Array(Box::new(Shape::Struct(vec![("t".to_string(), Shape::Str)])));
    assert_eq!(from_slice(blob, &tagged).unwrap(), expected);
    assert_eq!(is_jsonb(blob).unwrap(), header(ElementType::Array, 10));
}

#[test]
fn numbers_as_text_and_as_bytes() {
    let mut out: Vec<u8> = b">".to_vec();
    push_decimal(&mut out, -42);
    push_decimal(&mut out, 0);
    push_decimal(&mut out, i64::MIN);
    push_digits(&mut out, u64::MAX);
    assert_eq!(out, b">-420-922337203685477580818446744073709551615");
    let mut bytes: Vec<u8> = Vec::new();
    push_be(&mut bytes, 0x1234, 2);
    push_be(&mut bytes, 0x0102_0304_0506_0708, 8);
    push_be(&mut bytes, 0x1234, 1);
    push_le(&mut bytes, 0x1234, 2);
    push_le(&mut bytes, 0x3f80_0000, 4);
    push_le(&mut bytes, 7, 0);
    assert_eq!(
        bytes,
        b"\x12\x34\x01\x02\x03\x04\x05\x06\x07\x08\x34\x34\x12\x00\x00\x80\x3f"
    );
    assert_eq!(read_be(&bytes, 0, 2), 0x1234);
    assert_eq!(read_be(&bytes, 2, 8), 0x0102_0304_0506_0708);
    assert_eq!(read_be(&bytes, 2, 0), 0);
    assert_eq!(read_le(&bytes, 11, 2), 0x1234);
    assert_eq!(read_le(&bytes, 13, 4), 0x3f80_0000);
}

#[test]
fn quotes_around_a_payload() {
    assert_eq!(serde_sqlite_jsonb::de::read_with_quotes(b"a\\nb"), b"\"a\\nb\"");
    assert_eq!(serde_sqlite_jsonb::de::read_with_quotes(b""), b"\"\"");
}

#[test]
fn readers_of_one_element() {
    let mut de = Deserializer::from_bytes(b"\x33127\x34300\x18x\x69\\u0041\x2342");
    let first = de.read_header().unwrap();
    assert_eq!(first, header(ElementType::Int, 3));
    assert_eq!(de.read_integer(first).unwrap(), 127);
    let second = de.read_header().unwrap();
    assert_eq!(de.read_signed(second, -10, 10).unwrap(), 10);
    let third = de.read_header().unwrap();
    assert_eq!(de.read_string(third).unwrap(), "x");
    let fourth = de.read_header().unwrap();
    assert_eq!(de.read_json5_compatible_string(fourth).unwrap(), "A");
    let fifth = de.read_header().unwrap();
    assert!(matches!(
        de.read_unsigned(fifth, 41),
        Err(Error::JsonError(_))
    ));
    assert!(matches!(de.read_header(), Err(Error::Empty)));
}

#[test]
fn characters_in_utf8() {
    assert_eq!(to_vec(&Value::Char('a')).unwrap(), b"\x1aa");
    assert_eq!(to_vec(&Value::Char('\u{7f}')).unwrap(), b"\x1a\x7f");
    assert_eq!(to_vec(&Value::Char('\u{80}')).unwrap(), b"\x2a\xc2\x80");
    assert_eq!(to_vec(&Value::Char('\u{e9}')).unwrap(), b"\x2a\xc3\xa9");
    assert_eq!(to_vec(&Value::Char('\u{7ff}')).unwrap(), b"\x2a\xdf\xbf");
    assert_eq!(to_vec(&Value::Char('\u{800}')).unwrap(), b"\x3a\xe0\xa0\x80");
    assert_eq!(to_vec(&Value::Char('\u{20ac}')).unwrap(), b"\x3a\xe2\x82\xac");
    assert_eq!(to_vec(&Value::Char('\u{ffff}')).unwrap(), b"\x3a\xef\xbf\xbf");
    assert_eq!(to_vec(&Value::Char('\u{10000}')).unwrap(), b"\x4a\xf0\x90\x80\x80");
    assert_eq!(to_vec(&Value::Char('\u{1f60a}')).unwrap(), b"\x4a\xf0\x9f\x98\x8a");
    assert_eq!(to_vec(&Value::Char('\u{10ffff}')).unwrap(), b"\x4a\xf4\x8f\xbf\xbf");
    for c in ['a', '\u{e9}', '\u{20ac}', '\u{1f60a}'] {
        let mut expected = vec![0u8; 4];
        let encoded = c.encode_utf8(&mut expected).as_bytes().to_vec();
        assert_eq!(&to_vec(&Value::Char(c)).unwrap()[1..], &encoded[..]);
    }
}

#[test]
fn what_is_made_of_json5_readings() {
    assert_eq!(json5_signed(Ok(5), -10, 10).unwrap(), 5);
    assert_eq!(json5_signed(Ok(300), -128, 127).unwrap(), 127);
    assert_eq!(json5_signed(Ok(-300), -128, 127).unwrap(), -128);
    assert_eq!(json5_signed(Ok(i64::MIN), i64::MIN, i64::MAX).unwrap(), i64::MIN);
    assert_eq!(json5_unsigned(Ok(5), 10).unwrap(), 5);
    assert_eq!(json5_unsigned(Ok(300), 255).unwrap(), 255);
    assert_eq!(json5_unsigned(Ok(u64::MAX), u64::MAX).unwrap(), u64::MAX);
    assert_eq!(json5_text(Ok("read".to_string())).unwrap(), "read");
    let refusal = || Json5Error {
        message: "refused".to_string(),
    };
    assert!(matches!(
        json5_signed(Err(refusal()), -10, 10),
        Err(Error::Json5Error(_))
    ));
    assert!(matches!(
        json5_unsigned(Err(refusal()), 10),
        Err(Error::Json5Error(_))
    ));
    match json5_text(Err(refusal())) {
        Err(Error::Json5Error(e)) => assert_eq!(e.message, "refused"),
        other => panic!("not a refusal: {:?}", other),
    }
}

#[test]
fn texts_of_numbers() {
    assert!(is_number_text(b""));
    assert!(is_number_text(b"\""));
    assert!(is_number_text(b"0x1F \x7f"));
    assert!(is_number_text(b"12\x80"));
    assert!(is_number_text("\u{a0}12".as_bytes()));
    assert!(is_number_text("/* \u{e9} */ 12".as_bytes()));
    assert!(is_number_text("'a\u{e9}'".as_bytes()));
    assert!(is_number_text("[1, \u{a0}2]".as_bytes()));
    assert!(!is_number_text("\"\u{e9}\"".as_bytes()));
    assert!(!is_number_text("'\u{e9}'".as_bytes()));
    assert!(!is_number_text("[\u{a0}1]".as_bytes()));
    assert!(!is_number_text("{\u{a0}}".as_bytes()));
    assert!(!is_number_text("12 [\u{e9}".as_bytes()));
    assert_eq!(read_json5_i64(b"-0x10").ok(), None);
    assert_eq!(read_json5_i64(b"0x10").unwrap(), 16);
    assert_eq!(read_json5_i64(b"-16").unwrap(), -16);
    assert_eq!(read_json5_u64(b"+16").unwrap(), 16);
    assert_eq!(read_json5_u64(b".5e1").unwrap(), 5);
    assert_eq!(read_json5_i64("\u{a0}12".as_bytes()).unwrap(), 12);
    assert_eq!(read_json5_i64("/* \u{e9} */ -12".as_bytes()).unwrap(), -12);
    assert_eq!(read_json5_u64("// \u{e9}\n12".as_bytes()).unwrap(), 12);
    assert!(read_json5_i64(b"12\x80").is_err());
    assert!(read_json5_i64("'a\u{e9}'".as_bytes()).is_err());
    assert!(read_json5_i64("[1, \u{a0}2]".as_bytes()).is_err());
    assert!(read_json5_u64(b"\"\xc3\xa9\"").is_err());
    assert!(read_json5_u64("[\u{a0}1]".as_bytes()).is_err());
    assert_eq!(read_json_i64(b"-9223372036854775808").unwrap(), i64::MIN);
    assert_eq!(read_json_i64(b" 12 ").unwrap(), 12);
    assert_eq!(read_json_u64(b"18446744073709551615").unwrap(), u64::MAX);
    assert!(read_json_i64(b"012").is_err());
    assert!(read_json_i64(b"-0").is_err());
    assert!(read_json_i64(b"1.0").is_err());
    assert!(read_json_i64(b"9223372036854775808").is_err());
    assert!(read_json_u64(b"-1").is_err());
    assert!(read_json_u64(b"").is_err());
}

#[test]
fn what_the_refusals_of_numbers_say() {
    match read_json5_i64("[\u{a0}12]".as_bytes()) {
        Err(e) => assert_eq!(e.message, "a number holds characters that are not ASCII"),
        other => panic!("not a refusal: {:?}", other),
    }
    match read_json5_u64(b"\"\xc3\xa9\"") {
        Err(e) => assert_eq!(e.message, "a number holds characters that are not ASCII"),
        other => panic!("not a refusal: {:?}", other),
    }
    match from_slice(b"\x33300", &Shape::U8) {
        Err(Error::JsonError(e)) => assert_eq!(e.message, "number out of range"),
        other => panic!("not a refusal: {:?}", other),
    }
    match from_slice(b"\x43-129", &Shape::I8) {
        Err(Error::JsonError(e)) => assert_eq!(e.message, "number out of range"),
        other => panic!("not a refusal: {:?}", other),
    }
}
