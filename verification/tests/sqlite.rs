use rusqlite::Connection;
use serde_sqlite_jsonb::{
    from_slice, to_vec, Error, FloatRepr, Shape, StreamDecoder, Value,
};
use std::collections::HashMap;
use std::io::Read;

fn text(s: &str) -> Value {
    Value::Str(s.to_string())
}

fn field(name: &str, shape: Shape) -> (String, Shape) {
    (name.to_string(), shape)
}

fn optional(shape: Shape) -> Shape {
    Shape::Optional(Box::new(shape))
}

fn array_of(shape: Shape) -> Shape {
    Shape::Array(Box::new(shape))
}

/// The blob that SQLite makes of a query with one result.
fn blob(conn: &Connection, sql: &str) -> Vec<u8> {
    conn.query_row(sql, [], |row| row.get(0)).unwrap()
}

fn phone_number_shape() -> Shape {
    Shape::Enum(vec![
        ("Internal".to_string(), Some(Shape::I32)),
        ("National".to_string(), Some(Shape::Str)),
        (
            "International".to_string(),
            Some(Shape::Struct(vec![
                field("country_code", optional(Shape::I32)),
                field("number", Shape::Str),
            ])),
        ),
        (
            "Custom".to_string(),
            Some(Shape::Tuple(vec![optional(Shape::I32), Shape::Str])),
        ),
    ])
}

fn person_shape() -> Shape {
    Shape::Struct(vec![
        field("id", Shape::I32),
        field("name", Shape::Str),
        field("phone_numbers", array_of(phone_number_shape())),
        field("is_champion", Shape::Bool),
        field("data", array_of(Shape::U8)),
    ])
}

fn person(id: i64, name: &str, phone_numbers: Vec<Value>, is_champion: bool, data: Vec<u8>) -> Value {
    Value::Object(vec![
        (text("id"), Value::Int(id)),
        (text("name"), text(name)),
        (text("phone_numbers"), Value::Array(phone_numbers)),
        (text("is_champion"), Value::Bool(is_champion)),
        (
            text("data"),
            Value::Array(data.into_iter().map(|b| Value::UInt(b as u64)).collect()),
        ),
    ])
}

/// A shape of a drawing, tagged with its kind inside its own object.
#[derive(Debug, PartialEq)]
enum Figure {
    Circle { radius: f64 },
    Rectangle { width: f64, height: f64 },
    Square { size: f64 },
}

fn number(value: &Value) -> f64 {
    match value {
        Value::Float(FloatRepr::Json(t)) => serde_json::from_slice::<f64>(t).unwrap(),
        Value::Float(FloatRepr::Json5(t)) => serde_json5::from_slice::<f64>(t).unwrap(),
        Value::Float(FloatRepr::Single(bits)) => f32::from_bits(*bits) as f64,
        Value::Float(FloatRepr::Double(bits)) => f64::from_bits(*bits),
        Value::UInt(v) => *v as f64,
        Value::Int(v) => *v as f64,
        other => panic!("not a number: {:?}", other),
    }
}

fn figure(value: &Value) -> Figure {
    let entries: HashMap<String, &Value> = match value {
        Value::Object(entries) => entries
            .iter()
            .map(|(k, v)| match k {
                Value::Str(k) => (k.clone(), v),
                other => panic!("not a name: {:?}", other),
            })
            .collect(),
        other => panic!("not an object: {:?}", other),
    };
    match entries["type"] {
        Value::Str(kind) if kind == "Circle" => Figure::Circle {
            radius: number(entries["radius"]),
        },
        Value::Str(kind) if kind == "Rectangle" => Figure::Rectangle {
            width: number(entries["width"]),
            height: number(entries["height"]),
        },
        Value::Str(kind) if kind == "Square" => Figure::Square {
            size: number(entries["size"]),
        },
        other => panic!("not a kind of figure: {:?}", other),
    }
}

fn figures(value: &Value) -> Vec<Figure> {
    match value {
        Value::Array(items) => items.iter().map(figure).collect(),
        other => panic!("not an array: {:?}", other),
    }
}

/// The figures of a drawing: an object whose one field `shapes` holds them.
fn drawing(blob: &[u8]) -> Vec<Figure> {
    let shape = Shape::Struct(vec![field("shapes", array_of(Shape::Any))]);
    match from_slice(blob, &shape).unwrap() {
        Value::Object(entries) => figures(&entries[0].1),
        other => panic!("not an object: {:?}", other),
    }
}

/// Reads one value from a reader: as much as the header of its element
/// announces, and the reader must then be at its end.
fn from_reader<R: Read>(mut reader: R, shape: &Shape) -> Result<Value, Error> {
    let mut stream = StreamDecoder::new();
    loop {
        let wanted = stream.wanted();
        if wanted == 0 {
            break;
        }
        let mut chunk = vec![0u8; wanted.min(1 << 16)];
        let read = reader.read(&mut chunk).unwrap();
        if read == 0 {
            break;
        }
        stream.push(&chunk[..read]);
    }
    let more = reader.read(&mut [0]).unwrap() != 0;
    stream.finish(shape, more)
}

#[test]
fn test_fetch_json_object() {
    let conn = Connection::open_in_memory().unwrap();
    let blob = blob(
        &conn,
        r#"select jsonb('{
        "id": 1,
        "name": "John Doe",
        "phone_numbers": [{"National": "1234"}],
        "is_champion": true,
        "data": [1, 2, 3]
    }')"#,
    );
    assert_eq!(
        from_slice(&blob, &person_shape()).unwrap(),
        person(
            1,
            "John Doe",
            vec![Value::newtype_variant("National", text("1234"))],
            true,
            vec![1, 2, 3]
        )
    );
}

#[test]
fn test_large_object_as_blob() {
    let conn = Connection::open_in_memory().unwrap();
    // Store a large json string as a jsonb blob in a table
    conn.execute_batch(
        r#"
    create table bigdata (
        id integer primary key,
        data blob
    );
    insert into bigdata (id, data) values (
            42, -- the value of the integer primary key is the "rowid" in sqlite
            jsonb_object(
                'my long string', printf('%.*c', 10000000, 'x') -- 10Mb of 'x' characters
            )
    )"#,
    )
    .unwrap();
    let my_blob = conn
        .blob_open(rusqlite::MAIN_DB, "bigdata", "data", 42, true)
        .unwrap();
    let parsed = from_reader(
        my_blob,
        &Shape::Object(Box::new(Shape::Str), Box::new(Shape::Str)),
    )
    .unwrap();
    assert_eq!(
        parsed,
        Value::Object(vec![(
            text("my long string"),
            Value::Str("x".repeat(10_000_000))
        )])
    );
}

#[test]
fn test_roadtrip() {
    // A value is written here, turned into JSON text and back into JSONB by
    // SQLite, and read here again.
    let my_obj = || {
        Value::Array(vec![
            person(
                1,
                "John Doe",
                vec![
                    Value::struct_variant(
                        "International",
                        vec![
                            (text("country_code"), Value::Int(33)),
                            (text("number"), text("1234")),
                        ],
                    ),
                    Value::tuple_variant("Custom", vec![Value::Null, text("5678")]),
                ],
                true,
                vec![1, 2, 3],
            ),
            person(
                2,
                "Mister Smiley Baily \u{f0}\u{178}\u{2dc}\u{160}",
                vec![],
                false,
                (0..u8::MAX).collect(),
            ),
        ])
    };
    let shape = array_of(person_shape());
    let encoded = to_vec(&my_obj()).unwrap();
    assert_eq!(
        my_obj(),
        from_slice(&encoded, &shape).unwrap(),
        "we can decode what we encoded"
    );
    let conn = Connection::open_in_memory().unwrap();
    let went_through: Vec<u8> = conn
        .query_row("SELECT jsonb(json(?))", [&encoded], |row| row.get(0))
        .unwrap();
    let decoded = from_slice(&went_through, &shape).unwrap();
    assert_eq!(my_obj(), decoded, "went through sqlite and back");
}

#[test]
fn test_internally_tagged_enum() {
    let conn = Connection::open_in_memory().unwrap();
    let blob = blob(
        &conn,
        r#"select jsonb('{
            "shapes": [
                {"type": "Circle", "radius": 5.0},
                {"type": "Rectangle", "width": 10.0, "height": 20.0},
                {"type": "Square", "size": 15.0}
            ]
        }')"#,
    );
    assert_eq!(
        drawing(&blob),
        vec![
            Figure::Circle { radius: 5.0 },
            Figure::Rectangle {
                width: 10.0,
                height: 20.0
            },
            Figure::Square { size: 15.0 }
        ]
    );
}

#[test]
fn test_internally_tagged_enum_single_shape() {
    let conn = Connection::open_in_memory().unwrap();
    let blob = blob(
        &conn,
        r#"select jsonb('{
            "shapes": [
                {"type": "Circle", "radius": 5.0}
            ]
        }')"#,
    );
    assert_eq!(drawing(&blob), vec![Figure::Circle { radius: 5.0 },]);
}

#[test]
fn test_internally_tagged_enum_two_shapes() {
    let conn = Connection::open_in_memory().unwrap();
    let blob = blob(
        &conn,
        r#"select jsonb('{
            "shapes": [
                {"type": "Circle", "radius": 5.0},
                {"type": "Rectangle", "width": 10.0, "height": 20.0}
            ]
        }')"#,
    );
    assert_eq!(
        drawing(&blob),
        vec![
            Figure::Circle { radius: 5.0 },
            Figure::Rectangle {
                width: 10.0,
                height: 20.0
            },
        ]
    );
}

#[test]
fn test_shapes_array_directly() {
    let conn = Connection::open_in_memory().unwrap();
    let blob = blob(
        &conn,
        r#"select jsonb('[
            {"type": "Circle", "radius": 5.0},
            {"type": "Rectangle", "width": 10.0, "height": 20.0},
            {"type": "Square", "size": 15.0}
        ]')"#,
    );
    let shapes = figures(&from_slice(&blob, &array_of(Shape::Any)).unwrap());
    assert_eq!(
        shapes,
        vec![
            Figure::Circle { radius: 5.0 },
            Figure::Rectangle {
                width: 10.0,
                height: 20.0
            },
            Figure::Square { size: 15.0 }
        ]
    );
}

#[test]
fn test_simple_int_array() {
    let conn = Connection::open_in_memory().unwrap();
    let blob = blob(&conn, r#"select jsonb('[1, 2, 3]')"#);
    let values = from_slice(&blob, &array_of(Shape::I32)).unwrap();
    assert_eq!(
        values,
        Value::Array(vec![Value::Int(1), Value::Int(2), Value::Int(3)])
    );
}

#[test]
fn test_string_array() {
    let conn = Connection::open_in_memory().unwrap();
    let blob = blob(&conn, r#"select jsonb('["one", "two", "three"]')"#);
    let values = from_slice(&blob, &array_of(Shape::Str)).unwrap();
    assert_eq!(
        values,
        Value::Array(vec![text("one"), text("two"), text("three")])
    );
}

#[test]
fn test_object_array() {
    let conn = Connection::open_in_memory().unwrap();
    let blob = blob(
        &conn,
        r#"select jsonb('[
            {"x": 1, "y": 2},
            {"x": 3, "y": 4},
            {"x": 5, "y": 6}
        ]')"#,
    );
    let point_shape = Shape::Struct(vec![field("x", Shape::I32), field("y", Shape::I32)]);
    let point = |x: i64, y: i64| {
        Value::Object(vec![(text("x"), Value::Int(x)), (text("y"), Value::Int(y))])
    };
    let values = from_slice(&blob, &array_of(point_shape)).unwrap();
    assert_eq!(
        values,
        Value::Array(vec![point(1, 2), point(3, 4), point(5, 6)])
    );
}

#[test]
fn test_normal_enum_array() {
    let conn = Connection::open_in_memory().unwrap();
    let blob = blob(&conn, r#"select jsonb('["Red", "Green", "Blue"]')"#);
    let color_shape = Shape::Enum(vec![
        ("Red".to_string(), None),
        ("Green".to_string(), None),
        ("Blue".to_string(), None),
    ]);
    let values = from_slice(&blob, &array_of(color_shape)).unwrap();
    assert_eq!(
        values,
        Value::Array(vec![
            Value::unit_variant("Red"),
            Value::unit_variant("Green"),
            Value::unit_variant("Blue"),
        ])
    );
}

#[test]
fn test_externally_tagged_enum_array() {
    let conn = Connection::open_in_memory().unwrap();
    let blob = blob(
        &conn,
        r#"select jsonb('[
            {"Dog": {"name": "Fido"}},
            {"Cat": {"name": "Whiskers"}},
            {"Bird": {"species": "Parrot"}}
        ]')"#,
    );
    let named = |name: &str| Some(Shape::Struct(vec![field(name, Shape::Str)]));
    let animal_shape = Shape::Enum(vec![
        ("Dog".to_string(), named("name")),
        ("Cat".to_string(), named("name")),
        ("Bird".to_string(), named("species")),
    ]);
    let values = from_slice(&blob, &array_of(animal_shape)).unwrap();
    assert_eq!(
        values,
        Value::Array(vec![
            Value::struct_variant("Dog", vec![(text("name"), text("Fido"))]),
            Value::struct_variant("Cat", vec![(text("name"), text("Whiskers"))]),
            Value::struct_variant("Bird", vec![(text("species"), text("Parrot"))]),
        ])
    );
}

#[test]
fn test_print_test() {
    let conn = Connection::open_in_memory().unwrap();
    let blob = blob(&conn, r#"select jsonb('[{"t": "A"}, {"t": "B"}]')"#);
    assert_eq!(
        blob, b"\xab\x4c\x17\x74\x17\x41\x4c\x17\x74\x17\x42",
        "{:x?}",
        &blob
    );
}
