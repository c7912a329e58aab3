//! Values as a tree, written whole.
//!
//! A [`Value`] is what a traversal of structured data hands to the encoder,
//! held in one piece: [`to_vec`] writes it as the encoder would have written
//! it step by step. Writing follows the nesting of the value: as deep as
//! arrays and objects lie within each other, as deep go the calls.

use crate::de::{FloatRepr, FloatView};
use crate::decimal::decimal;
use crate::endian::{le_bytes, push_le};
use crate::error::Error;
use crate::header::{element, ElementType};
use crate::ser::{lemma_append_to_open, JsonbWriter, Options, Serializer};
use vstd::prelude::*;
use vstd::utf8::encode_utf8;

verus! {

/// A structured value.
#[derive(Debug, PartialEq, Eq)]
#[allow(inconsistent_fields)]
pub enum Value {
    /// The unit value, an absent optional value, a struct without fields.
    Null,
    Bool(bool),
    /// A signed integer.
    Int(i64),
    /// An unsigned integer.
    UInt(u64),
    /// A single-precision number, given by the bits of its IEEE 754 form and
    /// by its decimal text. Which of the two is written is up to the
    /// [`Options`].
    F32 { bits: u32, text: String },
    /// A double-precision number, given by the bits of its IEEE 754 form and
    /// by its decimal text. Which of the two is written is up to the
    /// [`Options`].
    F64 { bits: u64, text: String },
    /// A floating-point number in the form in which an element holds it.
    Float(FloatRepr),
    Char(char),
    Str(String),
    /// A sequence, a tuple, a struct of unnamed fields.
    Array(Vec<Value>),
    /// A map, or a struct of named fields: keys and values in order.
    Object(Vec<(Value, Value)>),
}

/// What a [`Value`] holds.
#[allow(inconsistent_fields)]
pub enum ValueView {
    Null,
    Bool(bool),
    Int(i64),
    UInt(u64),
    F32 { bits: u32, text: Seq<char> },
    F64 { bits: u64, text: Seq<char> },
    Float(FloatView),
    Char(char),
    Str(Seq<char>),
    Array(Seq<ValueView>),
    Object(Seq<(ValueView, ValueView)>),
}

/// What `value` holds.
pub open spec fn value_view(value: Value) -> ValueView
    decreases value,
{
    match value {
        Value::Null => ValueView::Null,
        Value::Bool(b) => ValueView::Bool(b),
        Value::Int(v) => ValueView::Int(v),
        Value::UInt(v) => ValueView::UInt(v),
        Value::F32 { bits, text } => ValueView::F32 { bits, text: text@ },
        Value::F64 { bits, text } => ValueView::F64 { bits, text: text@ },
        Value::Float(f) => ValueView::Float(f@),
        Value::Char(c) => ValueView::Char(c),
        Value::Str(s) => ValueView::Str(s@),
        Value::Array(items) => ValueView::Array(
            Seq::new(
                items@.len(),
                |i: int|
                    if 0 <= i < items@.len() {
                        value_view(items@[i])
                    } else {
                        ValueView::Null
                    },
            ),
        ),
        Value::Object(entries) => ValueView::Object(
            Seq::new(
                entries@.len(),
                |i: int|
                    if 0 <= i < entries@.len() {
                        (value_view(entries@[i].0), value_view(entries@[i].1))
                    } else {
                        (ValueView::Null, ValueView::Null)
                    },
            ),
        ),
    }
}

impl View for Value {
    type V = ValueView;

    open spec fn view(&self) -> ValueView {
        value_view(*self)
    }
}

/// The encoding of a floating-point number in the form `f`: its text in a
/// floating-point element of the kind of the text, or its bits, least
/// significant byte first, in a binary floating-point element.
pub open spec fn encode_float(f: FloatView) -> Seq<u8> {
    match f {
        FloatView::Json(text) => element(ElementType::Float, text),
        FloatView::Json5(text) => element(ElementType::Float5, text),
        FloatView::Single(bits) => element(ElementType::BinaryFloat, le_bytes(bits as nat, 4)),
        FloatView::Double(bits) => element(ElementType::BinaryFloat, le_bytes(bits as nat, 8)),
    }
}

/// The encoding of `value`: one element, and inside an array or an object
/// the encodings of what it holds, one behind the other.
pub open spec fn encode(value: ValueView, options: Options) -> Seq<u8>
    decreases value,
{
    match value {
        ValueView::Null => element(ElementType::Null, Seq::empty()),
        ValueView::Bool(b) => element(
            if b {
                ElementType::True
            } else {
                ElementType::False
            },
            Seq::empty(),
        ),
        ValueView::Int(v) => element(ElementType::Int, decimal(v as int)),
        ValueView::UInt(v) => element(ElementType::Int, decimal(v as int)),
        ValueView::F32 { bits, text } => if options.binary_float {
            element(ElementType::BinaryFloat, le_bytes(bits as nat, 4))
        } else {
            element(ElementType::Float, encode_utf8(text))
        },
        ValueView::F64 { bits, text } => if options.binary_float {
            element(ElementType::BinaryFloat, le_bytes(bits as nat, 8))
        } else {
            element(ElementType::Float, encode_utf8(text))
        },
        ValueView::Float(f) => encode_float(f),
        ValueView::Char(c) => element(ElementType::TextRaw, encode_utf8(seq![c])),
        ValueView::Str(s) => element(ElementType::TextRaw, encode_utf8(s)),
        ValueView::Array(items) => element(ElementType::Array, encode_all(items, options)),
        ValueView::Object(entries) => element(
            ElementType::Object,
            encode_entries(entries, options),
        ),
    }
}

/// The encodings of `items`, one behind the other.
pub open spec fn encode_all(items: Seq<ValueView>, options: Options) -> Seq<u8>
    decreases items,
{
    if items.len() == 0 {
        Seq::empty()
    } else {
        encode_all(items.drop_last(), options) + encode(items.last(), options)
    }
}

/// The encodings of the keys and values of `entries`, in turn.
pub open spec fn encode_entries(entries: Seq<(ValueView, ValueView)>, options: Options) -> Seq<
    u8,
>
    decreases entries,
{
    if entries.len() == 0 {
        Seq::empty()
    } else {
        encode_entries(entries.drop_last(), options) + encode(entries.last().0, options)
            + encode(entries.last().1, options)
    }
}

impl Serializer {
    /// Writes a floating-point number in the form `v`.
    pub fn serialize_float(&mut self, v: &FloatRepr) -> (result: Result<(), Error>)
        ensures
            result is Ok,
            final(self)@ == old(self)@ + encode_float(v@),
            final(self).options() == old(self).options(),
    {
        match v {
            FloatRepr::Json(text) => self.write_binary(ElementType::Float, text.as_slice()),
            FloatRepr::Json5(text) => self.write_binary(ElementType::Float5, text.as_slice()),
            FloatRepr::Single(bits) => {
                let mut bytes: Vec<u8> = Vec::new();
                push_le(&mut bytes, *bits as u64, 4);
                assert(bytes@ =~= le_bytes(*bits as nat, 4));
                self.write_binary(ElementType::BinaryFloat, bytes.as_slice())
            },
            FloatRepr::Double(bits) => {
                let mut bytes: Vec<u8> = Vec::new();
                push_le(&mut bytes, *bits, 8);
                assert(bytes@ =~= le_bytes(*bits as nat, 8));
                self.write_binary(ElementType::BinaryFloat, bytes.as_slice())
            },
        }
    }

    /// Writes `value`, and all that it holds.
    pub fn serialize_value(&mut self, value: &Value) -> (result: Result<(), Error>)
        ensures
            result is Ok,
            final(self)@ == old(self)@ + encode(value@, old(self).options()),
            final(self).options() == old(self).options(),
        decreases value,
    {
        match value {
            Value::Null => self.serialize_unit(),
            Value::Bool(b) => self.serialize_bool(*b),
            Value::Int(v) => self.serialize_i64(*v),
            Value::UInt(v) => self.serialize_u64(*v),
            Value::F32 { bits, text } => self.serialize_f32(*bits, text.as_str()),
            Value::F64 { bits, text } => self.serialize_f64(*bits, text.as_str()),
            Value::Float(f) => self.serialize_float(f),
            Value::Char(c) => self.serialize_char(*c),
            Value::Str(s) => self.serialize_str(s.as_str()),
            Value::Array(items) => {
                let ghost options = self.options();
                let ghost views = value@->Array_0;
                let writer: JsonbWriter = match self.serialize_seq(Some(items.len())) {
                    Ok(writer) => writer,
                    Err(e) => return Err(e),
                };
                let ghost opened = self@;
                let mut i: usize = 0;
                while i < items.len()
                    invariant
                        i <= items@.len(),
                        views.len() == items@.len(),
                        forall|k: int| 0 <= k < items@.len() ==> views[k] == items@[k]@,
                        *value is Array,
                        (*value)->Array_0 == *items,
                        self.options() == options,
                        self@ == opened + encode_all(views.take(i as int), options),
                    decreases items@.len() - i,
                {
                    assert(views.take(i + 1).drop_last() =~= views.take(i as int));
                    assert(decreases_to!(*items => items@[i as int]));
                    assert(decreases_to!(*value => *items));
                    assert(decreases_to!(*value => items@[i as int]));
                    let _ = self.serialize_value(&items[i]);
                    i = i + 1;
                }
                proof {
                    assert(views.take(i as int) =~= views);
                    lemma_append_to_open(writer, opened, encode_all(views, options));
                }
                let result = writer.end(self);
                assert(writer.before(opened) + element(
                    ElementType::Array,
                    Seq::empty() + encode_all(views, options),
                ) =~= old(self)@ + encode(value@, options));
                result
            },
            Value::Object(entries) => {
                let ghost options = self.options();
                let ghost views = value@->Object_0;
                let writer: JsonbWriter = match self.serialize_map(Some(entries.len())) {
                    Ok(writer) => writer,
                    Err(e) => return Err(e),
                };
                let ghost opened = self@;
                let mut i: usize = 0;
                while i < entries.len()
                    invariant
                        i <= entries@.len(),
                        views.len() == entries@.len(),
                        forall|k: int|
                            0 <= k < entries@.len() ==> views[k] == (
                                entries@[k].0@,
                                entries@[k].1@,
                            ),
                        *value is Object,
                        (*value)->Object_0 == *entries,
                        self.options() == options,
                        self@ == opened + encode_entries(views.take(i as int), options),
                    decreases entries@.len() - i,
                {
                    assert(views.take(i + 1).drop_last() =~= views.take(i as int));
                    assert(decreases_to!(*entries => entries@[i as int]));
                    assert(decreases_to!(*value => *entries));
                    assert(decreases_to!(*value => entries@[i as int].0));
                    assert(decreases_to!(*value => entries@[i as int].1));
                    let _ = self.serialize_value(&entries[i].0);
                    let _ = self.serialize_value(&entries[i].1);
                    i = i + 1;
                }
                proof {
                    assert(views.take(i as int) =~= views);
                    lemma_append_to_open(writer, opened, encode_entries(views, options));
                }
                let result = writer.end(self);
                assert(writer.before(opened) + element(
                    ElementType::Object,
                    Seq::empty() + encode_entries(views, options),
                ) =~= old(self)@ + encode(value@, options));
                result
            },
        }
    }
}

/// Encodes `value` with floating-point numbers as text.
pub fn to_vec(value: &Value) -> (result: Result<Vec<u8>, Error>)
    ensures
        result matches Ok(bytes) && bytes@ == encode(value@, Options { binary_float: false }),
{
    to_vec_with_options(value, Options { binary_float: false })
}

/// Encodes `value` with the choices that `options` make.
pub fn to_vec_with_options(value: &Value, options: Options) -> (result: Result<Vec<u8>, Error>)
    ensures
        result matches Ok(bytes) && bytes@ == encode(value@, options),
{
    let mut serializer = Serializer::from_options(options);
    let _ = serializer.serialize_value(value);
    let bytes: Vec<u8> = serializer.into_bytes();
    assert(bytes@ =~= encode(value@, options));
    Ok(bytes)
}

/// An enum variant without data: its name as a string.
pub open spec fn unit_variant(name: Seq<char>) -> ValueView {
    ValueView::Str(name)
}

/// An enum variant with one unnamed field: an object whose one key is the
/// variant's name and whose one value is the field.
pub open spec fn newtype_variant(name: Seq<char>, field: ValueView) -> ValueView {
    ValueView::Object(seq![(ValueView::Str(name), field)])
}

/// An enum variant with several unnamed fields: an object whose one key is
/// the variant's name and whose one value is the array of the fields.
pub open spec fn tuple_variant(name: Seq<char>, fields: Seq<ValueView>) -> ValueView {
    ValueView::Object(seq![(ValueView::Str(name), ValueView::Array(fields))])
}

/// An enum variant with named fields: an object whose one key is the
/// variant's name and whose one value is the object of the fields.
pub open spec fn struct_variant(name: Seq<char>, fields: Seq<(ValueView, ValueView)>) -> ValueView {
    ValueView::Object(seq![(ValueView::Str(name), ValueView::Object(fields))])
}

impl Value {
    /// An enum variant without data.
    pub fn unit_variant(name: &str) -> (value: Value)
        ensures
            value@ == unit_variant(name@),
    {
        Value::Str(name.to_owned())
    }

    /// An enum variant with one unnamed field.
    pub fn newtype_variant(name: &str, field: Value) -> (value: Value)
        ensures
            value@ == newtype_variant(name@, field@),
    {
        let mut entries: Vec<(Value, Value)> = Vec::new();
        entries.push((Value::Str(name.to_owned()), field));
        let value = Value::Object(entries);
        proof {
            reveal_with_fuel(value_view, 2);
            assert(value@->Object_0 =~= seq![(ValueView::Str(name@), field@)]);
        }
        value
    }

    /// An enum variant with several unnamed fields.
    pub fn tuple_variant(name: &str, fields: Vec<Value>) -> (value: Value)
        ensures
            value@ == tuple_variant(name@, Value::Array(fields)@->Array_0),
    {
        Value::newtype_variant(name, Value::Array(fields))
    }

    /// An enum variant with named fields, given as keys and values in
    /// order.
    pub fn struct_variant(name: &str, fields: Vec<(Value, Value)>) -> (value: Value)
        ensures
            value@ == struct_variant(name@, Value::Object(fields)@->Object_0),
    {
        Value::newtype_variant(name, Value::Object(fields))
    }
}

} // verus!
