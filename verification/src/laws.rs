//! What holds of encoding and decoding together: an element is read back as
//! it was written, whichever form its header has; a value of a shape is
//! decoded from its encoding as it was encoded; and a buffer that holds more
//! than its one element is refused.

use crate::de::{
    bounded_payload_spec, number_payload_spec, read_header_spec, region_len, take_payload_spec,
    FloatView,
};
use crate::decimal::decimal;
use crate::endian::{
    le_bytes, lemma_be_bytes_len, lemma_le_bytes_len, lemma_le_round_trip, lemma_pow256_values,
};
use crate::error::ErrorView;
use crate::header::{
    element, extra_len, form_carries, header_form, is_one_element, lemma_every_form_reads_back,
    lemma_minimal_header_is_shortest, minimal_class, minimal_header, wire_header,
    wire_header_len, ElementType, Header,
};
use crate::json::{lemma_signed_reading_of_decimal, lemma_unsigned_reading_of_decimal};
use crate::ser::Options;
use crate::shape::{
    any_object, decode, decode_elements, decode_entries, decode_fields, decode_tuple,
    find_variant, from_slice_spec, lemma_find_variant_in_range, signed_bounds, unsigned_max, Shape,
};
use crate::value::{
    encode, encode_all, encode_entries, newtype_variant, struct_variant, tuple_variant,
    unit_variant, ValueView,
};
use vstd::prelude::*;
use vstd::utf8::{encode_utf8, encode_utf8_decode_utf8, encode_utf8_valid_utf8};

verus! {

/// An element is read back as it was written: from an element and whatever
/// follows it, the header that is read has the element's type and the length
/// of its payload, and the payload that is then taken is the one that was
/// written, with what follows left to read.
pub proof fn lemma_element_reads_back(element_type: ElementType, payload: Seq<u8>, rest: Seq<u8>)
    requires
        payload.len() <= u64::MAX,
    ensures
        ({
            let header = Header { element_type, payload_size: payload.len() as u64 };
            &&& read_header_spec(element(element_type, payload) + rest) == Ok::<
                (Header, Seq<u8>),
                ErrorView,
            >((header, payload + rest))
            &&& take_payload_spec(header, payload + rest) == Ok::<(Seq<u8>, Seq<u8>), ErrorView>(
                (payload, rest),
            )
            &&& bounded_payload_spec(header, payload + rest) == (payload, rest)
            &&& number_payload_spec(header, payload + rest) == Ok::<
                (Seq<u8>, Seq<u8>),
                ErrorView,
            >((payload, rest))
            &&& region_len(header, payload + rest) == payload.len()
        }),
{
    let size = payload.len() as u64;
    let class = minimal_class(size);
    let head = minimal_header(element_type, size);
    let bytes = element(element_type, payload) + rest;
    lemma_pow256_values();
    assert(form_carries(class, size));
    lemma_minimal_header_is_shortest(element_type, size, class);
    lemma_every_form_reads_back(element_type, size, class, payload + rest);
    assert(bytes =~= head + (payload + rest));
    assert(bytes.skip(head.len() as int) =~= payload + rest);
    assert((payload + rest).take(payload.len() as int) =~= payload);
    assert((payload + rest).skip(payload.len() as int) =~= rest);
}

/// The form in which `value` is written with `options`: a floating-point
/// number that is given by its bits and its text is written as the one that
/// the options pick.
pub open spec fn written_form(value: ValueView, options: Options) -> ValueView
    decreases value,
{
    match value {
        ValueView::F32 { bits, text } => ValueView::Float(
            if options.binary_float {
                FloatView::Single(bits)
            } else {
                FloatView::Json(encode_utf8(text))
            },
        ),
        ValueView::F64 { bits, text } => ValueView::Float(
            if options.binary_float {
                FloatView::Double(bits)
            } else {
                FloatView::Json(encode_utf8(text))
            },
        ),
        ValueView::Array(items) => ValueView::Array(
            Seq::new(
                items.len(),
                |i: int|
                    if 0 <= i < items.len() {
                        written_form(items[i], options)
                    } else {
                        ValueView::Null
                    },
            ),
        ),
        ValueView::Object(entries) => ValueView::Object(
            Seq::new(
                entries.len(),
                |i: int|
                    if 0 <= i < entries.len() {
                        (written_form(entries[i].0, options), written_form(entries[i].1, options))
                    } else {
                        (ValueView::Null, ValueView::Null)
                    },
            ),
        ),
        _ => value,
    }
}

/// Whether `value` is a value of shape `shape`, in the form in which
/// decoding yields it.
pub open spec fn conforms(value: ValueView, shape: Shape) -> bool
    decreases value, shape,
{
    match shape {
        Shape::Unit => value is Null,
        Shape::Bool => value is Bool,
        Shape::I8 | Shape::I16 | Shape::I32 | Shape::I64 => {
            &&& value matches ValueView::Int(v)
            &&& signed_bounds(shape)->Some_0.0 <= v <= signed_bounds(shape)->Some_0.1
        },
        Shape::U8 | Shape::U16 | Shape::U32 | Shape::U64 => {
            &&& value matches ValueView::UInt(v)
            &&& v <= unsigned_max(shape)->Some_0
        },
        Shape::Float => value is Float,
        Shape::Char => value is Char,
        Shape::Str => value is Str,
        Shape::Optional(inner) => value is Null || conforms(value, *inner),
        Shape::Array(item) => {
            &&& value matches ValueView::Array(items)
            &&& forall|i: int| 0 <= i < items.len() ==> conforms(#[trigger] items[i], *item)
        },
        Shape::Tuple(shapes) => {
            &&& value matches ValueView::Array(items)
            &&& items.len() == shapes@.len()
            &&& forall|i: int| 0 <= i < items.len() ==> conforms(#[trigger] items[i], shapes@[i])
        },
        Shape::Object(key, data) => {
            &&& value matches ValueView::Object(entries)
            &&& forall|i: int|
                0 <= i < entries.len() ==> conforms((#[trigger] entries[i]).0, *key) && conforms(
                    entries[i].1,
                    *data,
                )
        },
        Shape::Struct(fields) => {
            &&& value matches ValueView::Object(entries)
            &&& entries.len() == fields@.len()
            &&& forall|i: int|
                0 <= i < entries.len() ==> (#[trigger] entries[i]).0 == ValueView::Str(
                    fields@[i].0@,
                ) && conforms(entries[i].1, fields@[i].1)
        },
        Shape::Enum(variants) => match value {
            ValueView::Str(name) => {
                &&& find_variant(variants@, name) matches Some(i)
                &&& variants@[i].1 is None
            },
            ValueView::Object(entries) => {
                &&& entries.len() == 1
                &&& entries[0].0 matches ValueView::Str(name)
                &&& find_variant(variants@, name) matches Some(i)
                &&& variants@[i].1 matches Some(payload)
                &&& conforms(entries[0].1, payload)
            },
            _ => false,
        },
        Shape::Any => match value {
            ValueView::Null => true,
            ValueView::Bool(_) => true,
            ValueView::Int(v) => v < 0,
            ValueView::UInt(v) => v <= i64::MAX,
            ValueView::Float(_) => true,
            ValueView::Str(_) => true,
            ValueView::Array(items) => forall|i: int|
                0 <= i < items.len() ==> conforms(#[trigger] items[i], Shape::Any),
            ValueView::Object(entries) => forall|i: int|
                0 <= i < entries.len() ==> conforms((#[trigger] entries[i]).0, Shape::Any)
                    && conforms(entries[i].1, Shape::Any),
            _ => false,
        },
    }
}

/// The type of the element that `value` is written as.
pub open spec fn encoding_type(value: ValueView, options: Options) -> ElementType {
    match value {
        ValueView::Null => ElementType::Null,
        ValueView::Bool(b) => if b {
            ElementType::True
        } else {
            ElementType::False
        },
        ValueView::Int(_) => ElementType::Int,
        ValueView::UInt(_) => ElementType::Int,
        ValueView::F32 { .. } | ValueView::F64 { .. } => if options.binary_float {
            ElementType::BinaryFloat
        } else {
            ElementType::Float
        },
        ValueView::Float(FloatView::Json(_)) => ElementType::Float,
        ValueView::Float(FloatView::Json5(_)) => ElementType::Float5,
        ValueView::Float(_) => ElementType::BinaryFloat,
        ValueView::Char(_) => ElementType::TextRaw,
        ValueView::Str(_) => ElementType::TextRaw,
        ValueView::Array(_) => ElementType::Array,
        ValueView::Object(_) => ElementType::Object,
    }
}

/// The payload of the element that `value` is written as.
pub open spec fn encoding_payload(value: ValueView, options: Options) -> Seq<u8> {
    match value {
        ValueView::Null => Seq::empty(),
        ValueView::Bool(_) => Seq::empty(),
        ValueView::Int(v) => decimal(v as int),
        ValueView::UInt(v) => decimal(v as int),
        ValueView::F32 { bits, text } => if options.binary_float {
            le_bytes(bits as nat, 4)
        } else {
            encode_utf8(text)
        },
        ValueView::F64 { bits, text } => if options.binary_float {
            le_bytes(bits as nat, 8)
        } else {
            encode_utf8(text)
        },
        ValueView::Float(FloatView::Json(text)) => text,
        ValueView::Float(FloatView::Json5(text)) => text,
        ValueView::Float(FloatView::Single(bits)) => le_bytes(bits as nat, 4),
        ValueView::Float(FloatView::Double(bits)) => le_bytes(bits as nat, 8),
        ValueView::Char(c) => encode_utf8(seq![c]),
        ValueView::Str(s) => encode_utf8(s),
        ValueView::Array(items) => encode_all(items, options),
        ValueView::Object(entries) => encode_entries(entries, options),
    }
}

/// Every value is written as one element: a header for its type and the
/// length of its payload, and then the payload.
pub proof fn lemma_encoding_is_one_element(value: ValueView, options: Options)
    ensures
        encode(value, options) == element(
            encoding_type(value, options),
            encoding_payload(value, options),
        ),
        encoding_payload(value, options).len() < encode(value, options).len(),
        (encoding_type(value, options) == ElementType::Null) == (value is Null),
{
    let t = encoding_type(value, options);
    let p = encoding_payload(value, options);
    lemma_be_bytes_len((p.len() as u64) as nat, extra_len(minimal_class(p.len() as u64)) as nat);
}

/// A value of a scalar shape is read back as it was written, with what
/// follows it left to read.
#[verifier::rlimit(60)]
pub proof fn lemma_scalar_round_trip(
    value: ValueView,
    shape: Shape,
    options: Options,
    rest: Seq<u8>,
)
    requires
        conforms(value, shape),
        encode(value, options).len() <= u64::MAX,
        shape is Unit || shape is Bool || signed_bounds(shape) is Some || unsigned_max(shape)
            is Some || shape is Float || shape is Char || shape is Str,
    ensures
        decode(shape, encode(value, options) + rest) == Ok::<(ValueView, Seq<u8>), ErrorView>(
            (value, rest),
        ),
{
    let t = encoding_type(value, options);
    let p = encoding_payload(value, options);
    lemma_encoding_is_one_element(value, options);
    lemma_element_reads_back(t, p, rest);
    let bytes = encode(value, options) + rest;
    let header = Header { element_type: t, payload_size: p.len() as u64 };
    match value {
        ValueView::Int(v) => {
            lemma_signed_reading_of_decimal(v);
        },
        ValueView::UInt(v) => {
            lemma_unsigned_reading_of_decimal(v);
        },
        ValueView::Float(FloatView::Single(bits)) => {
            lemma_pow256_values();
            lemma_le_bytes_len(bits as nat, 4);
            lemma_le_round_trip(bits as nat, 4);
        },
        ValueView::Float(FloatView::Double(bits)) => {
            lemma_pow256_values();
            lemma_le_bytes_len(bits as nat, 8);
            lemma_le_round_trip(bits as nat, 8);
        },
        ValueView::Char(c) => {
            encode_utf8_valid_utf8(seq![c]);
            encode_utf8_decode_utf8(seq![c]);
        },
        ValueView::Str(s) => {
            encode_utf8_valid_utf8(s);
            encode_utf8_decode_utf8(s);
        },
        _ => {},
    }
}

/// The encodings of several values begin with the encoding of the first.
pub proof fn lemma_encode_all_front(items: Seq<ValueView>, options: Options)
    requires
        items.len() > 0,
    ensures
        encode_all(items, options) == encode(items[0], options) + encode_all(
            items.skip(1),
            options,
        ),
    decreases items.len(),
{
    let front = items.drop_last();
    if items.len() == 1 {
        assert(front =~= Seq::<ValueView>::empty());
        assert(items.skip(1) =~= Seq::<ValueView>::empty());
    } else {
        lemma_encode_all_front(front, options);
        assert(front.skip(1) =~= items.skip(1).drop_last());
        assert(front[0] == items[0]);
        assert(items.skip(1).last() == items.last());
    }
    assert(encode_all(items, options) =~= encode(items[0], options) + encode_all(
        items.skip(1),
        options,
    ));
}

/// The encodings of several entries begin with the encodings of the first
/// key and the first value.
pub proof fn lemma_encode_entries_front(entries: Seq<(ValueView, ValueView)>, options: Options)
    requires
        entries.len() > 0,
    ensures
        encode_entries(entries, options) == encode(entries[0].0, options) + encode(
            entries[0].1,
            options,
        ) + encode_entries(entries.skip(1), options),
    decreases entries.len(),
{
    let front = entries.drop_last();
    if entries.len() == 1 {
        assert(front =~= Seq::<(ValueView, ValueView)>::empty());
        assert(entries.skip(1) =~= Seq::<(ValueView, ValueView)>::empty());
    } else {
        lemma_encode_entries_front(front, options);
        assert(front.skip(1) =~= entries.skip(1).drop_last());
        assert(front[0] == entries[0]);
        assert(entries.skip(1).last() == entries.last());
    }
    assert(encode_entries(entries, options) =~= encode(entries[0].0, options) + encode(
        entries[0].1,
        options,
    ) + encode_entries(entries.skip(1), options));
}

/// Round-trip identity, with what follows left to read: a value of a shape
/// is read back from its encoding as it was written, whatever follows the
/// encoding.
#[verifier::rlimit(60)]
pub proof fn lemma_value_round_trip(
    value: ValueView,
    shape: Shape,
    options: Options,
    rest: Seq<u8>,
)
    requires
        conforms(value, shape),
        encode(value, options).len() <= u64::MAX,
    ensures
        decode(shape, encode(value, options) + rest) == Ok::<(ValueView, Seq<u8>), ErrorView>(
            (value, rest),
        ),
    decreases value, shape, 1nat,
{
    let t = encoding_type(value, options);
    let p = encoding_payload(value, options);
    let bytes = encode(value, options) + rest;
    lemma_encoding_is_one_element(value, options);
    lemma_element_reads_back(t, p, rest);
    match shape {
        Shape::Optional(inner) => {
            if value is Null {
            } else {
                lemma_value_round_trip(value, *inner, options, rest);
            }
        },
        Shape::Array(item) => {
            let items = value->Array_0;
            lemma_elements_round_trip(items, *item, options);
        },
        Shape::Tuple(shapes) => {
            let items = value->Array_0;
            lemma_tuple_round_trip(items, shapes@, options);
        },
        Shape::Object(key, data) => {
            let entries = value->Object_0;
            lemma_entries_round_trip(entries, shape, options);
        },
        Shape::Struct(fields) => {
            let entries = value->Object_0;
            lemma_fields_round_trip(entries, fields@, options);
        },
        Shape::Enum(variants) => {
            lemma_enum_round_trip(value, shape, options, rest);
        },
        Shape::Any => {
            lemma_any_round_trip(value, shape, options, rest);
        },
        _ => {
            lemma_scalar_round_trip(value, shape, options, rest);
        },
    }
}

/// The elements of an array are read back as they were written.
#[verifier::rlimit(60)]
proof fn lemma_elements_round_trip(items: Seq<ValueView>, item: Shape, options: Options)
    requires
        forall|i: int| 0 <= i < items.len() ==> conforms(#[trigger] items[i], item),
        encode_all(items, options).len() <= u64::MAX,
    ensures
        decode_elements(item, encode_all(items, options)) == Ok::<Seq<ValueView>, ErrorView>(
            items,
        ),
    decreases items, item, 2nat,
{
    if items.len() == 0 {
        assert(items =~= Seq::<ValueView>::empty());
    } else {
        let tail = items.skip(1);
        lemma_encode_all_front(items, options);
        lemma_encoding_is_one_element(items[0], options);
        lemma_value_round_trip(items[0], item, options, encode_all(tail, options));
        assert forall|i: int| 0 <= i < tail.len() implies conforms(#[trigger] tail[i], item) by {
            assert(tail[i] == items[i + 1]);
        }
        lemma_elements_round_trip(tail, item, options);
        assert(seq![items[0]] + tail =~= items);
    }
}

/// The elements of a tuple are read back as they were written.
#[verifier::rlimit(60)]
proof fn lemma_tuple_round_trip(items: Seq<ValueView>, shapes: Seq<Shape>, options: Options)
    requires
        items.len() == shapes.len(),
        forall|i: int| 0 <= i < items.len() ==> conforms(#[trigger] items[i], shapes[i]),
        encode_all(items, options).len() <= u64::MAX,
    ensures
        decode_tuple(shapes, encode_all(items, options)) == Ok::<Seq<ValueView>, ErrorView>(
            items,
        ),
    decreases items, shapes, 2nat,
{
    if items.len() == 0 {
        assert(items =~= Seq::<ValueView>::empty());
    } else {
        let tail = items.skip(1);
        lemma_encode_all_front(items, options);
        lemma_encoding_is_one_element(items[0], options);
        lemma_value_round_trip(items[0], shapes[0], options, encode_all(tail, options));
        assert forall|i: int| 0 <= i < tail.len() implies conforms(
            #[trigger] tail[i],
            shapes.skip(1)[i],
        ) by {
            assert(tail[i] == items[i + 1]);
        }
        lemma_tuple_round_trip(tail, shapes.skip(1), options);
        assert(seq![items[0]] + tail =~= items);
    }
}

/// The entries of a map are read back as they were written.
#[verifier::rlimit(60)]
proof fn lemma_entries_round_trip(
    entries: Seq<(ValueView, ValueView)>,
    shape: Shape,
    options: Options,
)
    requires
        shape is Object,
        forall|i: int|
            0 <= i < entries.len() ==> conforms((#[trigger] entries[i]).0, *shape->Object_0)
                && conforms(entries[i].1, *shape->Object_1),
        encode_entries(entries, options).len() <= u64::MAX,
    ensures
        decode_entries(shape, encode_entries(entries, options)) == Ok::<
            Seq<(ValueView, ValueView)>,
            ErrorView,
        >(entries),
    decreases entries, shape, 2nat,
{
    if entries.len() == 0 {
        assert(entries =~= Seq::<(ValueView, ValueView)>::empty());
    } else {
        let tail = entries.skip(1);
        let after = encode_entries(tail, options);
        let first = entries[0];
        lemma_encode_entries_front(entries, options);
        lemma_encoding_is_one_element(first.0, options);
        lemma_encoding_is_one_element(first.1, options);
        assert(encode_entries(entries, options) =~= encode(first.0, options) + (encode(
            first.1,
            options,
        ) + after));
        lemma_value_round_trip(first.0, *shape->Object_0, options, encode(first.1, options) + after);
        lemma_value_round_trip(first.1, *shape->Object_1, options, after);
        assert forall|i: int| 0 <= i < tail.len() implies conforms(
            (#[trigger] tail[i]).0,
            *shape->Object_0,
        ) && conforms(tail[i].1, *shape->Object_1) by {
            assert(tail[i] == entries[i + 1]);
        }
        lemma_entries_round_trip(tail, shape, options);
        assert(seq![first] + tail =~= entries);
    }
}

/// The fields of a struct are read back as they were written.
#[verifier::rlimit(60)]
proof fn lemma_fields_round_trip(
    entries: Seq<(ValueView, ValueView)>,
    fields: Seq<(String, Shape)>,
    options: Options,
)
    requires
        entries.len() == fields.len(),
        forall|i: int|
            0 <= i < entries.len() ==> (#[trigger] entries[i]).0 == ValueView::Str(fields[i].0@)
                && conforms(entries[i].1, fields[i].1),
        encode_entries(entries, options).len() <= u64::MAX,
    ensures
        decode_fields(fields, encode_entries(entries, options)) == Ok::<
            Seq<(ValueView, ValueView)>,
            ErrorView,
        >(entries),
    decreases entries, fields, 2nat,
{
    if entries.len() == 0 {
        assert(entries =~= Seq::<(ValueView, ValueView)>::empty());
    } else {
        let tail = entries.skip(1);
        let after = encode_entries(tail, options);
        let first = entries[0];
        lemma_encode_entries_front(entries, options);
        lemma_encoding_is_one_element(first.0, options);
        lemma_encoding_is_one_element(first.1, options);
        assert(encode_entries(entries, options) =~= encode(first.0, options) + (encode(
            first.1,
            options,
        ) + after));
        lemma_scalar_round_trip(first.0, Shape::Str, options, encode(first.1, options) + after);
        lemma_value_round_trip(first.1, fields[0].1, options, after);
        assert forall|i: int| 0 <= i < tail.len() implies (#[trigger] tail[i]).0
            == ValueView::Str(fields.skip(1)[i].0@) && conforms(tail[i].1, fields.skip(1)[i].1) by {
            assert(tail[i] == entries[i + 1]);
        }
        lemma_fields_round_trip(tail, fields.skip(1), options);
        assert(seq![first] + tail =~= entries);
    }
}

/// An enum value is read back as it was written.
#[verifier::rlimit(60)]
proof fn lemma_enum_round_trip(value: ValueView, shape: Shape, options: Options, rest: Seq<u8>)
    requires
        shape is Enum,
        conforms(value, shape),
        encode(value, options).len() <= u64::MAX,
    ensures
        decode(shape, encode(value, options) + rest) == Ok::<(ValueView, Seq<u8>), ErrorView>(
            (value, rest),
        ),
    decreases value, shape, 0nat,
{
    let t = encoding_type(value, options);
    let p = encoding_payload(value, options);
    let bytes = encode(value, options) + rest;
    let variants = shape->Enum_0@;
    lemma_encoding_is_one_element(value, options);
    lemma_element_reads_back(t, p, rest);
    match value {
        ValueView::Str(name) => {
            lemma_scalar_round_trip(value, Shape::Str, options, rest);
            assert(rest + Seq::<u8>::empty() =~= rest);
        },
        ValueView::Object(entries) => {
            let name = entries[0].0->Str_0;
            let data = entries[0].1;
            let i = find_variant(variants, name)->Some_0;
            let payload = variants[i].1->Some_0;
            lemma_encode_entries_front(entries, options);
            assert(entries.skip(1) =~= Seq::<(ValueView, ValueView)>::empty());
            assert(p =~= encode(entries[0].0, options) + encode(data, options));
            lemma_encoding_is_one_element(entries[0].0, options);
            lemma_encoding_is_one_element(data, options);
            lemma_scalar_round_trip(entries[0].0, Shape::Str, options, encode(data, options));
            lemma_find_variant_in_range(variants, name);
            lemma_value_round_trip(data, payload, options, Seq::empty());
            assert(encode(data, options) + Seq::<u8>::empty() =~= encode(data, options));
            assert(rest + Seq::<u8>::empty() =~= rest);
            assert(entries =~= seq![(ValueView::Str(name), data)]);
        },
        _ => {},
    }
}

/// A value that is read without a shape declared is read back as it was
/// written.
#[verifier::rlimit(60)]
proof fn lemma_any_round_trip(value: ValueView, shape: Shape, options: Options, rest: Seq<u8>)
    requires
        shape is Any,
        conforms(value, shape),
        encode(value, options).len() <= u64::MAX,
    ensures
        decode(shape, encode(value, options) + rest) == Ok::<(ValueView, Seq<u8>), ErrorView>(
            (value, rest),
        ),
    decreases value, shape, 0nat,
{
    let t = encoding_type(value, options);
    let p = encoding_payload(value, options);
    let bytes = encode(value, options) + rest;
    lemma_encoding_is_one_element(value, options);
    lemma_element_reads_back(t, p, rest);
    match value {
        ValueView::Array(items) => {
            lemma_elements_round_trip(items, Shape::Any, options);
        },
        ValueView::Object(entries) => {
            lemma_entries_round_trip(entries, any_object(), options);
        },
        ValueView::Int(v) => {
            lemma_signed_reading_of_decimal(v);
        },
        ValueView::UInt(v) => {
            lemma_signed_reading_of_decimal(v as i64);
        },
        ValueView::Float(FloatView::Single(bits)) => {
            lemma_pow256_values();
            lemma_le_bytes_len(bits as nat, 4);
            lemma_le_round_trip(bits as nat, 4);
        },
        ValueView::Float(FloatView::Double(bits)) => {
            lemma_pow256_values();
            lemma_le_bytes_len(bits as nat, 8);
            lemma_le_round_trip(bits as nat, 8);
        },
        ValueView::Str(s) => {
            encode_utf8_valid_utf8(s);
            encode_utf8_decode_utf8(s);
        },
        _ => {},
    }
}

/// The values of `items`, each in the form in which it is written.
pub open spec fn written_forms(items: Seq<ValueView>, options: Options) -> Seq<ValueView> {
    Seq::new(items.len(), |i: int| written_form(items[i], options))
}

/// The keys and values of `entries`, each in the form in which it is
/// written.
pub open spec fn written_entries(entries: Seq<(ValueView, ValueView)>, options: Options) -> Seq<
    (ValueView, ValueView),
> {
    Seq::new(
        entries.len(),
        |i: int| (written_form(entries[i].0, options), written_form(entries[i].1, options)),
    )
}

/// A value is written as its written form is: the two have the same
/// encoding.
pub proof fn lemma_encoding_of_written_form(value: ValueView, options: Options)
    ensures
        encode(value, options) == encode(written_form(value, options), options),
    decreases value, 1nat,
{
    match value {
        ValueView::Array(items) => {
            lemma_encoding_of_written_forms(items, options);
            assert(written_form(value, options)->Array_0 =~= written_forms(items, options));
        },
        ValueView::Object(entries) => {
            lemma_encoding_of_written_entries(entries, options);
            assert(written_form(value, options)->Object_0 =~= written_entries(entries, options));
        },
        _ => {},
    }
}

/// Several values are written as their written forms are.
proof fn lemma_encoding_of_written_forms(items: Seq<ValueView>, options: Options)
    ensures
        encode_all(items, options) == encode_all(written_forms(items, options), options),
    decreases items, 0nat,
{
    if items.len() > 0 {
        lemma_encoding_of_written_forms(items.drop_last(), options);
        lemma_encoding_of_written_form(items.last(), options);
        assert(written_forms(items, options).drop_last() =~= written_forms(
            items.drop_last(),
            options,
        ));
    }
}

/// Several entries are written as their written forms are.
proof fn lemma_encoding_of_written_entries(entries: Seq<(ValueView, ValueView)>, options: Options)
    ensures
        encode_entries(entries, options) == encode_entries(
            written_entries(entries, options),
            options,
        ),
    decreases entries, 0nat,
{
    if entries.len() > 0 {
        lemma_encoding_of_written_entries(entries.drop_last(), options);
        lemma_encoding_of_written_form(entries.last().0, options);
        lemma_encoding_of_written_form(entries.last().1, options);
        assert(written_entries(entries, options).drop_last() =~= written_entries(
            entries.drop_last(),
            options,
        ));
    }
}

/// Round-trip identity: a value of a shape is decoded from its encoding as
/// it was written. What is decoded is the written form of the value: the
/// value itself, but for a floating-point number that was given by its bits
/// and its text, of which the one that was written comes back.
pub proof fn lemma_round_trip(value: ValueView, shape: Shape, options: Options)
    requires
        conforms(written_form(value, options), shape),
        encode(value, options).len() <= u64::MAX,
    ensures
        from_slice_spec(shape, encode(value, options)) == Ok::<ValueView, ErrorView>(
            written_form(value, options),
        ),
{
    let written = written_form(value, options);
    lemma_encoding_of_written_form(value, options);
    lemma_value_round_trip(written, shape, options, Seq::empty());
    assert(encode(written, options) + Seq::<u8>::empty() =~= encode(written, options));
}

/// Round-trip identity for a value that holds no floating-point number
/// given in two forms: it is decoded from its encoding as it is.
pub proof fn lemma_round_trip_as_written(value: ValueView, shape: Shape, options: Options)
    requires
        conforms(value, shape),
        encode(value, options).len() <= u64::MAX,
    ensures
        from_slice_spec(shape, encode(value, options)) == Ok::<ValueView, ErrorView>(value),
{
    lemma_value_round_trip(value, shape, options, Seq::empty());
    assert(encode(value, options) + Seq::<u8>::empty() =~= encode(value, options));
}

/// All five header forms decode alike: a value is read the same from an
/// element whatever form that carries the length its header is written in.
pub proof fn lemma_header_forms_decode_alike(
    shape: Shape,
    element_type: ElementType,
    size: u64,
    class: int,
    tail: Seq<u8>,
)
    requires
        form_carries(class, size),
    ensures
        decode(shape, header_form(element_type, size, class) + tail) == decode(
            shape,
            minimal_header(element_type, size) + tail,
        ),
    decreases shape,
{
    let header = Header { element_type, payload_size: size };
    let written = header_form(element_type, size, class) + tail;
    let shortest = minimal_header(element_type, size) + tail;
    lemma_minimal_header_is_shortest(element_type, size, class);
    lemma_every_form_reads_back(element_type, size, class, tail);
    lemma_every_form_reads_back(element_type, size, minimal_class(size), tail);
    assert(written.skip(header_form(element_type, size, class).len() as int) =~= tail);
    assert(shortest.skip(minimal_header(element_type, size).len() as int) =~= tail);
    assert(read_header_spec(written) == Ok::<(Header, Seq<u8>), ErrorView>((header, tail)));
    assert(read_header_spec(shortest) == Ok::<(Header, Seq<u8>), ErrorView>((header, tail)));
    match shape {
        Shape::Optional(inner) => {
            lemma_header_forms_decode_alike(*inner, element_type, size, class, tail);
        },
        _ => {},
    }
}

/// What follows one complete element does not change how the element is
/// read: the same value is read, and what follows is left to read.
pub proof fn lemma_decode_before_more(shape: Shape, bytes: Seq<u8>, extra: Seq<u8>)
    requires
        is_one_element(bytes),
        decode(shape, bytes) is Ok,
    ensures
        decode(shape, bytes + extra) == Ok::<(ValueView, Seq<u8>), ErrorView>(
            (decode(shape, bytes)->Ok_0.0, decode(shape, bytes)->Ok_0.1 + extra),
        ),
    decreases shape,
{
    let longer = bytes + extra;
    let head = wire_header_len(bytes[0]);
    let header = wire_header(bytes);
    let rest = bytes.skip(head);
    let size = header.payload_size as int;
    assert(longer[0] == bytes[0]);
    assert(longer.subrange(1, head) =~= bytes.subrange(1, head));
    assert(wire_header(longer) == header);
    assert(longer.skip(head) =~= rest + extra);
    assert(rest.len() == size);
    assert(rest.take(size) =~= rest);
    assert(rest.skip(size) =~= Seq::<u8>::empty());
    assert((rest + extra).take(size) =~= rest);
    assert((rest + extra).skip(size) =~= extra);
    assert(Seq::<u8>::empty() + extra =~= extra);
    assert(read_header_spec(bytes) == Ok::<(Header, Seq<u8>), ErrorView>((header, rest)));
    assert(read_header_spec(longer) == Ok::<(Header, Seq<u8>), ErrorView>(
        (header, rest + extra),
    ));
    match shape {
        Shape::Optional(inner) => {
            if header.element_type != ElementType::Null {
                lemma_decode_before_more(*inner, bytes, extra);
            }
        },
        _ => {},
    }
}

/// Trailing-data rejection: where a buffer that is one complete element
/// decodes to a value, the same buffer with anything appended is refused
/// for its trailing data.
pub proof fn lemma_trailing_data_rejected(shape: Shape, bytes: Seq<u8>, extra: Seq<u8>)
    requires
        is_one_element(bytes),
        from_slice_spec(shape, bytes) is Ok,
        extra.len() > 0,
    ensures
        from_slice_spec(shape, bytes + extra) == Err::<ValueView, ErrorView>(
            ErrorView::TrailingCharacters,
        ),
{
    lemma_decode_before_more(shape, bytes, extra);
}

/// What is written for a value is one complete element.
pub proof fn lemma_encoding_is_complete(value: ValueView, options: Options)
    requires
        encode(value, options).len() <= u64::MAX,
    ensures
        is_one_element(encode(value, options)),
{
    let t = encoding_type(value, options);
    let p = encoding_payload(value, options);
    lemma_encoding_is_one_element(value, options);
    lemma_element_reads_back(t, p, Seq::empty());
    let size = p.len() as u64;
    lemma_pow256_values();
    lemma_minimal_header_is_shortest(t, size, minimal_class(size));
    lemma_every_form_reads_back(t, size, minimal_class(size), p);
    assert(encode(value, options) =~= minimal_header(t, size) + p);
}

/// The shapes of enum values on the wire: a variant without data is the
/// bare text of its name; a variant with one unnamed field is an object
/// whose one key is the name and whose one value is the field's own
/// encoding; a variant with several unnamed fields is such an object whose
/// value is an array of the fields; a variant with named fields is such an
/// object whose value is an object of the fields.
pub proof fn lemma_enum_shapes_on_the_wire(
    name: Seq<char>,
    field: ValueView,
    fields: Seq<ValueView>,
    named: Seq<(ValueView, ValueView)>,
    options: Options,
)
    ensures
        encode(unit_variant(name), options) == element(ElementType::TextRaw, encode_utf8(name)),
        encode(newtype_variant(name, field), options) == element(
            ElementType::Object,
            element(ElementType::TextRaw, encode_utf8(name)) + encode(field, options),
        ),
        encode(tuple_variant(name, fields), options) == element(
            ElementType::Object,
            element(ElementType::TextRaw, encode_utf8(name)) + element(
                ElementType::Array,
                encode_all(fields, options),
            ),
        ),
        encode(struct_variant(name, named), options) == element(
            ElementType::Object,
            element(ElementType::TextRaw, encode_utf8(name)) + element(
                ElementType::Object,
                encode_entries(named, options),
            ),
        ),
{
    let key = ValueView::Str(name);
    assert forall|data: ValueView| #[trigger]
        encode_entries(seq![(key, data)], options) == encode(key, options) + encode(
            data,
            options,
        ) by {
        let entries = seq![(key, data)];
        lemma_encode_entries_front(entries, options);
        assert(entries.skip(1) =~= Seq::<(ValueView, ValueView)>::empty());
        assert(encode_entries(entries, options) =~= encode(key, options) + encode(data, options));
    }
    assert(encode_entries(seq![(key, field)], options) == encode(key, options) + encode(
        field,
        options,
    ));
    assert(encode_entries(seq![(key, ValueView::Array(fields))], options) == encode(key, options)
        + encode(ValueView::Array(fields), options));
    assert(encode_entries(seq![(key, ValueView::Object(named))], options) == encode(
        key,
        options,
    ) + encode(ValueView::Object(named), options));
}

/// Enum values round-trip: declared as a variant of an enum, each of the
/// four kinds of variant is decoded from its encoding as it was written.
pub proof fn lemma_enum_round_trips(
    variants: Vec<(String, Option<Shape>)>,
    name: Seq<char>,
    data: ValueView,
    options: Options,
)
    requires
        find_variant(variants@, name) is Some,
    ensures
        ({
            let declared = variants@[find_variant(variants@, name)->Some_0].1;
            let shape = Shape::Enum(variants);
            &&& declared is None && encode(unit_variant(name), options).len() <= u64::MAX
                ==> from_slice_spec(shape, encode(unit_variant(name), options)) == Ok::<
                ValueView,
                ErrorView,
            >(unit_variant(name))
            &&& declared is Some && conforms(data, declared->Some_0) && encode(
                newtype_variant(name, data),
                options,
            ).len() <= u64::MAX ==> from_slice_spec(
                shape,
                encode(newtype_variant(name, data), options),
            ) == Ok::<ValueView, ErrorView>(newtype_variant(name, data))
        }),
{
    let declared = variants@[find_variant(variants@, name)->Some_0].1;
    let shape = Shape::Enum(variants);
    if declared is None && encode(unit_variant(name), options).len() <= u64::MAX {
        lemma_round_trip_as_written(unit_variant(name), shape, options);
    }
    if declared is Some && conforms(data, declared->Some_0) && encode(
        newtype_variant(name, data),
        options,
    ).len() <= u64::MAX {
        lemma_round_trip_as_written(newtype_variant(name, data), shape, options);
    }
}

} // verus!
