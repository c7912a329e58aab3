//! Reading a value of a declared shape from its encoding.
//!
//! The encoding says what kind of element each value is, not what it is
//! meant to be: a null may be the unit value or an absent optional value, an
//! object a map or a struct or an enum variant with its data. The reader
//! declares the [`Shape`] that it expects, and [`from_slice`] reads a value of
//! that shape or says why the encoding holds none.
//!
//! What is read is said by [`decode`], a function of the shape and the
//! bytes. Where the encoding holds an integer or a string in JSON5 text,
//! what is read is for the JSON5 parser to say: [`decode`] says
//! `ErrorView::Json5Error` there, and [`from_slice`] owes nothing.
//!
//! Reading follows the nesting of the shape and of the encoding: as deep as
//! arrays and objects lie within each other, as deep go the calls.

use crate::de::{
    bounded_payload_spec, deserialize_any_with_header_spec, deserialize_bool_spec,
    deserialize_char_spec, deserialize_enum_spec, deserialize_float_spec,
    deserialize_option_spec, deserialize_seq_spec, deserialize_signed_spec,
    deserialize_string_spec, deserialize_unit_spec, deserialize_unsigned_spec,
    left_to_json5, read_header_spec, Deserializer, EnumHead, EnumHeadView, Found, FoundView,
};
use crate::error::{Error, ErrorView};
use crate::header::{ElementType, Header};
use crate::value::{value_view, Value, ValueView};
use vstd::prelude::*;

verus! {

/// The shape of a value that is to be read: what the reader declares to
/// expect.
#[derive(Debug)]
pub enum Shape {
    /// The unit value.
    Unit,
    Bool,
    I8,
    I16,
    I32,
    I64,
    U8,
    U16,
    U32,
    U64,
    /// A floating-point number of either precision.
    Float,
    Char,
    Str,
    /// A value of the given shape, or none.
    Optional(Box<Shape>),
    /// Any number of values of one shape.
    Array(Box<Shape>),
    /// One value of each of the given shapes, in order.
    Tuple(Vec<Shape>),
    /// Any number of keys of the first shape, each with a value of the
    /// second.
    Object(Box<Shape>, Box<Shape>),
    /// The named fields of a struct: an object whose keys are the names, in
    /// this order, each with a value of the shape beside its name. A key
    /// that is not the name that comes next is refused, and so is an object
    /// that ends early or goes on.
    Struct(Vec<(String, Shape)>),
    /// One of the named variants of an enum. A variant without data has no
    /// shape beside its name; the data of any other is one value: the
    /// field, a tuple of the fields, or a struct of them.
    Enum(Vec<(String, Option<Shape>)>),
    /// Whatever the encoding holds: nothing is declared beforehand. Null is
    /// read as null, a boolean as itself, an integer as an unsigned one
    /// unless it is negative, a floating-point number in the form in which
    /// it stands, text as a string, an array as an array of whatever it
    /// holds, and an object as the keys and values that it holds.
    Any,
}

/// The bounds of the signed integer shapes.
pub open spec fn signed_bounds(shape: Shape) -> Option<(int, int)> {
    match shape {
        Shape::I8 => Some((i8::MIN as int, i8::MAX as int)),
        Shape::I16 => Some((i16::MIN as int, i16::MAX as int)),
        Shape::I32 => Some((i32::MIN as int, i32::MAX as int)),
        Shape::I64 => Some((i64::MIN as int, i64::MAX as int)),
        _ => None,
    }
}

/// The upper bound of the unsigned integer shapes.
pub open spec fn unsigned_max(shape: Shape) -> Option<int> {
    match shape {
        Shape::U8 => Some(u8::MAX as int),
        Shape::U16 => Some(u16::MAX as int),
        Shape::U32 => Some(u32::MAX as int),
        Shape::U64 => Some(u64::MAX as int),
        _ => None,
    }
}

/// The text of the error for a tuple that has fewer elements than its shape
/// declares.
pub open spec fn invalid_length_message() -> Seq<char> {
    "invalid length"@
}

/// The text of the error for an object that ends before all the fields of
/// its struct have been read.
pub open spec fn missing_field_message() -> Seq<char> {
    "missing field"@
}

/// The text of the error for a key that is not the name of the field that
/// comes next.
pub open spec fn unexpected_field_message() -> Seq<char> {
    "unexpected field"@
}

/// The text of the error for a name that no variant of the enum has.
pub open spec fn unknown_variant_message() -> Seq<char> {
    "unknown variant"@
}

/// The text of the error for a bare name that belongs to a variant with
/// data.
pub open spec fn unit_variant_message() -> Seq<char> {
    "invalid type: unit variant"@
}

/// The place of the first of `variants` that is named `name`.
pub open spec fn find_variant(variants: Seq<(String, Option<Shape>)>, name: Seq<char>) -> Option<
    int,
>
    decreases variants.len(),
{
    if variants.len() == 0 {
        None
    } else if variants[0].0@ == name {
        Some(0)
    } else {
        match find_variant(variants.skip(1), name) {
            Some(i) => Some(i + 1),
            None => None,
        }
    }
}

/// A variant that is found is one of the variants.
pub proof fn lemma_find_variant_in_range(variants: Seq<(String, Option<Shape>)>, name: Seq<char>)
    ensures
        find_variant(variants, name) matches Some(i) ==> 0 <= i < variants.len()
            && variants[i].0@ == name,
    decreases variants.len(),
{
    if variants.len() > 0 && variants[0].0@ != name {
        lemma_find_variant_in_range(variants.skip(1), name);
    }
}

/// The shape of a map from anything to anything.
pub open spec fn any_object() -> Shape {
    Shape::Object(Box::new(Shape::Any), Box::new(Shape::Any))
}

/// The value of a scalar that was found without a type asked for: an
/// integer that is not negative as an unsigned one.
pub open spec fn found_value(found: FoundView) -> ValueView {
    match found {
        FoundView::Unit => ValueView::Null,
        FoundView::Bool(b) => ValueView::Bool(b),
        FoundView::Float(f) => ValueView::Float(f),
        FoundView::U8(v) => ValueView::UInt(v as u64),
        FoundView::I8(v) => ValueView::Int(v as i64),
        FoundView::U16(v) => ValueView::UInt(v as u64),
        FoundView::I16(v) => ValueView::Int(v as i64),
        FoundView::U32(v) => ValueView::UInt(v as u64),
        FoundView::I32(v) => ValueView::Int(v as i64),
        FoundView::U64(v) => ValueView::UInt(v),
        FoundView::I64(v) => ValueView::Int(v),
        FoundView::String(s) => ValueView::Str(s),
        FoundView::Array(_) => ValueView::Null,
        FoundView::Object(_) => ValueView::Null,
    }
}

/// Reading a value of shape `shape` from `bytes`: the value and the bytes
/// behind it.
pub open spec fn decode(shape: Shape, bytes: Seq<u8>) -> Result<(ValueView, Seq<u8>), ErrorView>
    decreases bytes.len(), shape, 0nat,
{
    match shape {
        Shape::Unit => match deserialize_unit_spec(bytes) {
            Ok((_, rest)) => Ok((ValueView::Null, rest)),
            Err(e) => Err(e),
        },
        Shape::Bool => match deserialize_bool_spec(bytes) {
            Ok((b, rest)) => Ok((ValueView::Bool(b), rest)),
            Err(e) => Err(e),
        },
        Shape::I8 | Shape::I16 | Shape::I32 | Shape::I64 => match deserialize_signed_spec(
            bytes,
            signed_bounds(shape)->Some_0.0,
            signed_bounds(shape)->Some_0.1,
        ) {
            Ok((v, rest)) => Ok((ValueView::Int(v), rest)),
            Err(e) => Err(e),
        },
        Shape::U8 | Shape::U16 | Shape::U32 | Shape::U64 => match deserialize_unsigned_spec(
            bytes,
            unsigned_max(shape)->Some_0,
        ) {
            Ok((v, rest)) => Ok((ValueView::UInt(v), rest)),
            Err(e) => Err(e),
        },
        Shape::Float => match deserialize_float_spec(bytes) {
            Ok((f, rest)) => Ok((ValueView::Float(f), rest)),
            Err(e) => Err(e),
        },
        Shape::Char => match deserialize_char_spec(bytes) {
            Ok((c, rest)) => Ok((ValueView::Char(c), rest)),
            Err(e) => Err(e),
        },
        Shape::Str => match deserialize_string_spec(bytes) {
            Ok((s, rest)) => Ok((ValueView::Str(s), rest)),
            Err(e) => Err(e),
        },
        Shape::Optional(inner) => match deserialize_option_spec(bytes) {
            Ok((present, rest)) => if present {
                decode(*inner, bytes)
            } else {
                Ok((ValueView::Null, rest))
            },
            Err(e) => Err(e),
        },
        Shape::Array(item) => match deserialize_seq_spec(bytes) {
            Ok((region, behind)) => match decode_elements(*item, region) {
                Ok(items) => Ok((ValueView::Array(items), behind)),
                Err(e) => Err(e),
            },
            Err(e) => Err(e),
        },
        Shape::Tuple(shapes) => match deserialize_seq_spec(bytes) {
            Ok((region, behind)) => match decode_tuple(shapes@, region) {
                Ok(items) => Ok((ValueView::Array(items), behind)),
                Err(e) => Err(e),
            },
            Err(e) => Err(e),
        },
        Shape::Object(key, value) => match deserialize_seq_spec(bytes) {
            Ok((region, behind)) => match decode_entries(shape, region) {
                Ok(entries) => Ok((ValueView::Object(entries), behind)),
                Err(e) => Err(e),
            },
            Err(e) => Err(e),
        },
        Shape::Struct(fields) => match deserialize_seq_spec(bytes) {
            Ok((region, behind)) => match decode_fields(fields@, region) {
                Ok(entries) => Ok((ValueView::Object(entries), behind)),
                Err(e) => Err(e),
            },
            Err(e) => Err(e),
        },
        Shape::Enum(variants) => match deserialize_enum_spec(bytes, Seq::empty()) {
            Ok((EnumHeadView::Unit(name), rest, _)) => match find_variant(variants@, name) {
                Some(i) => if variants@[i].1 is None {
                    Ok((ValueView::Str(name), rest))
                } else {
                    Err(ErrorView::Message(unit_variant_message()))
                },
                None => Err(ErrorView::Message(unknown_variant_message())),
            },
            Ok((EnumHeadView::Data(_), region, behind)) => match deserialize_string_spec(region) {
                Ok((name, data)) => match find_variant(variants@, name) {
                    Some(i) => match variants@[i].1 {
                        Some(payload) => if data.len() < bytes.len() {
                            match decode(payload, data) {
                                Ok((value, left)) => if left.len() == 0 {
                                    Ok(
                                        (
                                            ValueView::Object(
                                                seq![(ValueView::Str(name), value)],
                                            ),
                                            behind,
                                        ),
                                    )
                                } else {
                                    Err(ErrorView::TrailingCharacters)
                                },
                                Err(e) => Err(e),
                            }
                        } else {
                            // The header and the name come first: this does not occur.
                            Err(ErrorView::Empty)
                        },
                        None => if data.len() == 0 {
                            Ok((ValueView::Str(name), behind))
                        } else {
                            Err(ErrorView::TrailingCharacters)
                        },
                    },
                    None => Err(ErrorView::Message(unknown_variant_message())),
                },
                Err(e) => Err(e),
            },
            Err(e) => Err(e),
        },
        Shape::Any => match read_header_spec(bytes) {
            Ok((header, rest)) => if header.element_type == ElementType::Array {
                match decode_elements(Shape::Any, bounded_payload_spec(header, rest).0) {
                    Ok(items) => Ok(
                        (ValueView::Array(items), bounded_payload_spec(header, rest).1),
                    ),
                    Err(e) => Err(e),
                }
            } else if header.element_type == ElementType::Object {
                match decode_entries(any_object(), bounded_payload_spec(header, rest).0) {
                    Ok(entries) => Ok(
                        (ValueView::Object(entries), bounded_payload_spec(header, rest).1),
                    ),
                    Err(e) => Err(e),
                }
            } else {
                match deserialize_any_with_header_spec(header, rest, Seq::empty()) {
                    Ok((found, after, _)) => Ok((found_value(found), after)),
                    Err(e) => Err(e),
                }
            },
            Err(e) => Err(e),
        },
    }
}

/// Reading the fields of a struct from `bytes`, which must then be used up:
/// for each of `fields` in turn its name as the key, and then its value.
pub open spec fn decode_fields(fields: Seq<(String, Shape)>, bytes: Seq<u8>) -> Result<
    Seq<(ValueView, ValueView)>,
    ErrorView,
>
    decreases bytes.len(), fields, 1nat,
{
    if fields.len() == 0 {
        if bytes.len() == 0 {
            Ok(Seq::empty())
        } else {
            Err(ErrorView::TrailingCharacters)
        }
    } else if bytes.len() == 0 {
        Err(ErrorView::Message(missing_field_message()))
    } else {
        match deserialize_string_spec(bytes) {
            Ok((name, rest)) => if name != fields[0].0@ {
                Err(ErrorView::Message(unexpected_field_message()))
            } else if rest.len() < bytes.len() {
                match decode(fields[0].1, rest) {
                    Ok((value, after)) => if after.len() < bytes.len() {
                        match decode_fields(fields.skip(1), after) {
                            Ok(others) => Ok(seq![(ValueView::Str(name), value)] + others),
                            Err(e) => Err(e),
                        }
                    } else {
                        // A value takes at least its header: this does not occur.
                        Err(ErrorView::Empty)
                    },
                    Err(e) => Err(e),
                }
            } else {
                // A key takes at least its header: this does not occur.
                Err(ErrorView::Empty)
            },
            Err(e) => Err(e),
        }
    }
}

/// Reading values of shape `item` from `bytes` until nothing is left.
pub open spec fn decode_elements(item: Shape, bytes: Seq<u8>) -> Result<Seq<ValueView>, ErrorView>
    decreases bytes.len(), item, 1nat,
{
    if bytes.len() == 0 {
        Ok(Seq::empty())
    } else {
        match decode(item, bytes) {
            Ok((first, rest)) => if rest.len() < bytes.len() {
                match decode_elements(item, rest) {
                    Ok(others) => Ok(seq![first] + others),
                    Err(e) => Err(e),
                }
            } else {
                // A value takes at least its header: this does not occur.
                Err(ErrorView::Empty)
            },
            Err(e) => Err(e),
        }
    }
}

/// Reading one value of each of `shapes` from `bytes`, which must then be
/// used up.
pub open spec fn decode_tuple(shapes: Seq<Shape>, bytes: Seq<u8>) -> Result<
    Seq<ValueView>,
    ErrorView,
>
    decreases bytes.len(), shapes, 1nat,
{
    if shapes.len() == 0 {
        if bytes.len() == 0 {
            Ok(Seq::empty())
        } else {
            Err(ErrorView::TrailingCharacters)
        }
    } else if bytes.len() == 0 {
        Err(ErrorView::Message(invalid_length_message()))
    } else {
        match decode(shapes[0], bytes) {
            Ok((first, rest)) => if rest.len() < bytes.len() {
                match decode_tuple(shapes.skip(1), rest) {
                    Ok(others) => Ok(seq![first] + others),
                    Err(e) => Err(e),
                }
            } else {
                // A value takes at least its header: this does not occur.
                Err(ErrorView::Empty)
            },
            Err(e) => Err(e),
        }
    }
}

/// Reading the entries of a map of shape `shape` from `bytes` until nothing
/// is left: keys of the first shape of the map, each with a value of the
/// second. A key without a value finds nothing to read.
pub open spec fn decode_entries(shape: Shape, bytes: Seq<u8>) -> Result<
    Seq<(ValueView, ValueView)>,
    ErrorView,
>
    decreases bytes.len(), shape, 1nat,
{
    if bytes.len() == 0 {
        Ok(Seq::empty())
    } else if let Shape::Object(key, value) = shape {
        match decode(*key, bytes) {
            Ok((k, rest)) => if rest.len() < bytes.len() {
                match decode(*value, rest) {
                    Ok((v, after)) => if after.len() < rest.len() {
                        match decode_entries(shape, after) {
                            Ok(others) => Ok(seq![(k, v)] + others),
                            Err(e) => Err(e),
                        }
                    } else {
                        // A value takes at least its header: this does not occur.
                        Err(ErrorView::Empty)
                    },
                    Err(e) => Err(e),
                }
            } else {
                // A value takes at least its header: this does not occur.
                Err(ErrorView::Empty)
            },
            Err(e) => Err(e),
        }
    } else {
        Err(ErrorView::Empty)
    }
}

/// Decoding a buffer that is to hold one value of shape `shape` and nothing
/// else.
pub open spec fn from_slice_spec(shape: Shape, bytes: Seq<u8>) -> Result<ValueView, ErrorView> {
    match decode(shape, bytes) {
        Ok((value, rest)) => if rest.len() == 0 {
            Ok(value)
        } else {
            Err(ErrorView::TrailingCharacters)
        },
        Err(e) => Err(e),
    }
}

/// What came before, then what is still to come: the values read so far in
/// front of the outcome of reading the rest.
pub open spec fn prepend<T>(before: Seq<T>, rest: Result<Seq<T>, ErrorView>) -> Result<
    Seq<T>,
    ErrorView,
> {
    match rest {
        Ok(others) => Ok(before + others),
        Err(e) => Err(e),
    }
}

/// What was read before, and then one more, in front of the outcome of
/// reading the rest.
proof fn lemma_prepend_one<T>(before: Seq<T>, next: T, rest: Result<Seq<T>, ErrorView>)
    ensures
        prepend(before, prepend(seq![next], rest)) == prepend(before.push(next), rest),
{
    if let Ok(others) = rest {
        assert(before + (seq![next] + others) =~= before.push(next) + others);
    }
}

/// The value of a scalar that was found without a type asked for.
fn found_to_value(found: Found) -> (value: Value)
    ensures
        value@ == found_value(found@),
{
    match found {
        Found::Unit => Value::Null,
        Found::Bool(b) => Value::Bool(b),
        Found::Float(f) => Value::Float(f),
        Found::U8(v) => Value::UInt(v as u64),
        Found::I8(v) => Value::Int(v as i64),
        Found::U16(v) => Value::UInt(v as u64),
        Found::I16(v) => Value::Int(v as i64),
        Found::U32(v) => Value::UInt(v as u64),
        Found::I32(v) => Value::Int(v as i64),
        Found::U64(v) => Value::UInt(v),
        Found::I64(v) => Value::Int(v),
        Found::String(s) => Value::Str(s),
        Found::Array(_) => Value::Null,
        Found::Object(_) => Value::Null,
    }
}

/// An enum variant with data as a value: an object whose one key is the
/// variant's name.
fn variant_value(name: String, data: Value) -> (value: Value)
    ensures
        value@ == ValueView::Object(seq![(ValueView::Str(name@), data@)]),
{
    let mut entries: Vec<(Value, Value)> = Vec::new();
    entries.push((Value::Str(name), data));
    let value = Value::Object(entries);
    proof {
        reveal_with_fuel(value_view, 2);
        assert(value@->Object_0 =~= seq![(ValueView::Str(name@), data@)]);
    }
    value
}

/// Finds the first of `variants` that is named `name`.
fn find_variant_index(variants: &Vec<(String, Option<Shape>)>, name: &String) -> (found: Option<
    usize,
>)
    ensures
        match found {
            Some(i) => find_variant(variants@, name@) == Some(i as int) && i < variants@.len(),
            None => find_variant(variants@, name@) is None,
        },
{
    let mut i: usize = 0;
    proof {
        assert(variants@.skip(0) =~= variants@);
    }
    while i < variants.len()
        invariant
            i <= variants@.len(),
            find_variant(variants@, name@) == match find_variant(
                variants@.skip(i as int),
                name@,
            ) {
                Some(k) => Some(k + i),
                None => None,
            },
        decreases variants@.len() - i,
    {
        proof {
            let left = variants@.skip(i as int);
            assert(left[0] == variants@[i as int]);
            assert(left.skip(1) =~= variants@.skip(i + 1));
        }
        if variants[i].0 == *name {
            return Some(i);
        }
        i = i + 1;
    }
    None
}

/// A character as a value.
fn char_value(c: char) -> (value: Value)
    ensures
        value@ == ValueView::Char(c),
{
    Value::Char(c)
}

/// Whether reading a value ended as `expected` says: with that value and
/// with `rest` left to read, or with the same error. Nothing is asked where
/// `expected` leaves what is read to the JSON5 parser.
pub open spec fn agrees_value(
    result: Result<Value, Error>,
    rest: Seq<u8>,
    expected: Result<(ValueView, Seq<u8>), ErrorView>,
) -> bool {
    left_to_json5(expected) || match result {
        Ok(value) => expected == Ok::<(ValueView, Seq<u8>), ErrorView>((value@, rest)),
        Err(e) => expected == Err::<(ValueView, Seq<u8>), ErrorView>(e@),
    }
}

/// As [`agrees_value`], for the elements of an array.
pub open spec fn agrees_values(
    result: Result<Vec<Value>, Error>,
    expected: Result<Seq<ValueView>, ErrorView>,
) -> bool {
    left_to_json5(expected) || match result {
        Ok(items) => expected == Ok::<Seq<ValueView>, ErrorView>(Value::Array(items)@->Array_0),
        Err(e) => expected == Err::<Seq<ValueView>, ErrorView>(e@),
    }
}

/// As [`agrees_value`], for the entries of an object.
pub open spec fn agrees_entries(
    result: Result<Vec<(Value, Value)>, Error>,
    expected: Result<Seq<(ValueView, ValueView)>, ErrorView>,
) -> bool {
    left_to_json5(expected) || match result {
        Ok(entries) => expected == Ok::<Seq<(ValueView, ValueView)>, ErrorView>(
            Value::Object(entries)@->Object_0,
        ),
        Err(e) => expected == Err::<Seq<(ValueView, ValueView)>, ErrorView>(e@),
    }
}

impl<'a> Deserializer<'a> {
    /// Reads the elements of an array of shape `item` until the region is
    /// used up.
    fn deserialize_elements(&mut self, item: &Shape) -> (result: Result<Vec<Value>, Error>)
        ensures
            agrees_values(result, decode_elements(*item, old(self).remaining())),
            result is Ok ==> final(self).remaining().len() == 0,
            result is Ok ==> final(self).beyond() == old(self).beyond(),
        decreases old(self).remaining().len(), item, 2nat,
    {
        let mut items: Vec<Value> = Vec::new();
        let ghost mut views: Seq<ValueView> = Seq::empty();
        let ghost region = self.remaining();
        let ghost owed = decode_elements(*item, region);
        while !self.at_end()
            invariant
                self.remaining().len() <= old(self).remaining().len(),
                region == old(self).remaining(),
                owed == decode_elements(*item, region),
                self.beyond() == old(self).beyond(),
                views.len() == items@.len(),
                forall|k: int| 0 <= k < items@.len() ==> views[k] == items@[k]@,
                left_to_json5(owed) || owed == prepend(
                    views,
                    decode_elements(*item, self.remaining()),
                ),
            decreases self.remaining().len(),
        {
            let ghost before = self.remaining();
            match self.deserialize_value(item) {
                Ok(value) => {
                    proof {
                        let others = decode_elements(*item, self.remaining());
                        if !left_to_json5(owed) {
                            assert(decode_elements(*item, before) == prepend(seq![value@], others));
                            lemma_prepend_one(views, value@, others);
                        }
                        views = views.push(value@);
                    }
                    items.push(value);
                },
                Err(e) => {
                    assert(left_to_json5(owed) || decode_elements(*item, before) == Err::<
                        Seq<ValueView>,
                        ErrorView,
                    >(e@));
                    return Err(e);
                },
            }
        }
        proof {
            assert(views + Seq::<ValueView>::empty() =~= views);
            assert(Value::Array(items)@->Array_0 =~= views);
        }
        Ok(items)
    }

    /// Reads one element of each of `shapes`, after which the region must be
    /// used up.
    fn deserialize_tuple_elements(&mut self, shapes: &Vec<Shape>) -> (result: Result<
        Vec<Value>,
        Error,
    >)
        ensures
            agrees_values(result, decode_tuple(shapes@, old(self).remaining())),
            result is Ok ==> final(self).remaining().len() == 0,
            result is Ok ==> final(self).beyond() == old(self).beyond(),
        decreases old(self).remaining().len(), shapes, 2nat,
    {
        let mut items: Vec<Value> = Vec::new();
        let ghost mut views: Seq<ValueView> = Seq::empty();
        let ghost region = self.remaining();
        let ghost owed = decode_tuple(shapes@, region);
        let mut i: usize = 0;
        proof {
            assert(shapes@.skip(0) =~= shapes@);
            if let Ok(all) = owed {
                assert(views + all =~= all);
            }
        }
        while i < shapes.len()
            invariant
                i <= shapes@.len(),
                self.remaining().len() <= old(self).remaining().len(),
                region == old(self).remaining(),
                owed == decode_tuple(shapes@, region),
                self.beyond() == old(self).beyond(),
                views.len() == items@.len(),
                forall|k: int| 0 <= k < items@.len() ==> views[k] == items@[k]@,
                left_to_json5(owed) || owed == prepend(
                    views,
                    decode_tuple(shapes@.skip(i as int), self.remaining()),
                ),
            decreases shapes@.len() - i,
        {
            let ghost before = self.remaining();
            let ghost left = shapes@.skip(i as int);
            assert(left[0] == shapes@[i as int]);
            assert(left.skip(1) =~= shapes@.skip(i + 1));
            if self.at_end() {
                return Err(Error::Message("invalid length".to_owned()));
            }
            assert(decreases_to!(*shapes => shapes@[i as int]));
            match self.deserialize_value(&shapes[i]) {
                Ok(value) => {
                    proof {
                        let others = decode_tuple(shapes@.skip(i + 1), self.remaining());
                        if !left_to_json5(owed) {
                            assert(decode_tuple(left, before) == prepend(seq![value@], others));
                            lemma_prepend_one(views, value@, others);
                        }
                        views = views.push(value@);
                    }
                    items.push(value);
                },
                Err(e) => {
                    assert(left_to_json5(owed) || decode_tuple(left, before) == Err::<
                        Seq<ValueView>,
                        ErrorView,
                    >(e@));
                    return Err(e);
                },
            }
            i = i + 1;
        }
        assert(shapes@.skip(i as int).len() == 0);
        if !self.at_end() {
            return Err(Error::TrailingCharacters);
        }
        proof {
            assert(views + Seq::<ValueView>::empty() =~= views);
            assert(Value::Array(items)@->Array_0 =~= views);
        }
        Ok(items)
    }

    /// Reads the entries of a map of shape `shape` until the region is used
    /// up.
    fn deserialize_entries(&mut self, shape: &Shape) -> (result: Result<
        Vec<(Value, Value)>,
        Error,
    >)
        requires
            shape is Object,
        ensures
            agrees_entries(result, decode_entries(*shape, old(self).remaining())),
            result is Ok ==> final(self).remaining().len() == 0,
            result is Ok ==> final(self).beyond() == old(self).beyond(),
        decreases old(self).remaining().len(), shape, 2nat,
    {
        let mut entries: Vec<(Value, Value)> = Vec::new();
        let ghost mut views: Seq<(ValueView, ValueView)> = Seq::empty();
        let ghost region = self.remaining();
        let ghost owed = decode_entries(*shape, region);
        while !self.at_end()
            invariant
                shape is Object,
                self.remaining().len() <= old(self).remaining().len(),
                region == old(self).remaining(),
                owed == decode_entries(*shape, region),
                self.beyond() == old(self).beyond(),
                views.len() == entries@.len(),
                forall|k: int|
                    0 <= k < entries@.len() ==> views[k] == (entries@[k].0@, entries@[k].1@),
                left_to_json5(owed) || owed == prepend(
                    views,
                    decode_entries(*shape, self.remaining()),
                ),
            decreases self.remaining().len(),
        {
            let ghost before = self.remaining();
            let (key_shape, value_shape): (&Shape, &Shape) = match shape {
                Shape::Object(key, value) => (&**key, &**value),
                _ => (shape, shape),
            };
            let key: Value = match self.deserialize_value(key_shape) {
                Ok(key) => key,
                Err(e) => {
                    assert(left_to_json5(owed) || decode_entries(*shape, before) == Err::<
                        Seq<(ValueView, ValueView)>,
                        ErrorView,
                    >(e@));
                    return Err(e);
                },
            };
            let ghost between = self.remaining();
            let value: Value = match self.deserialize_value(value_shape) {
                Ok(value) => value,
                Err(e) => {
                    assert(left_to_json5(owed) || decode_entries(*shape, before) == Err::<
                        Seq<(ValueView, ValueView)>,
                        ErrorView,
                    >(e@));
                    return Err(e);
                },
            };
            proof {
                let others = decode_entries(*shape, self.remaining());
                if !left_to_json5(owed) {
                    assert(decode_entries(*shape, before) == prepend(
                        seq![(key@, value@)],
                        others,
                    ));
                    lemma_prepend_one(views, (key@, value@), others);
                }
                views = views.push((key@, value@));
            }
            entries.push((key, value));
        }
        proof {
            assert(views + Seq::<(ValueView, ValueView)>::empty() =~= views);
            assert(Value::Object(entries)@->Object_0 =~= views);
        }
        Ok(entries)
    }

    /// Reads the fields of a struct, after which the region must be used
    /// up.
    fn deserialize_fields(&mut self, fields: &Vec<(String, Shape)>) -> (result: Result<
        Vec<(Value, Value)>,
        Error,
    >)
        ensures
            agrees_entries(result, decode_fields(fields@, old(self).remaining())),
            result is Ok ==> final(self).remaining().len() == 0,
            result is Ok ==> final(self).beyond() == old(self).beyond(),
        decreases old(self).remaining().len(), fields, 2nat,
    {
        let mut entries: Vec<(Value, Value)> = Vec::new();
        let ghost mut views: Seq<(ValueView, ValueView)> = Seq::empty();
        let ghost region = self.remaining();
        let ghost owed = decode_fields(fields@, region);
        let mut i: usize = 0;
        proof {
            assert(fields@.skip(0) =~= fields@);
            if let Ok(all) = owed {
                assert(views + all =~= all);
            }
        }
        while i < fields.len()
            invariant
                i <= fields@.len(),
                self.remaining().len() <= old(self).remaining().len(),
                region == old(self).remaining(),
                owed == decode_fields(fields@, region),
                self.beyond() == old(self).beyond(),
                views.len() == entries@.len(),
                forall|k: int|
                    0 <= k < entries@.len() ==> views[k] == (entries@[k].0@, entries@[k].1@),
                left_to_json5(owed) || owed == prepend(
                    views,
                    decode_fields(fields@.skip(i as int), self.remaining()),
                ),
            decreases fields@.len() - i,
        {
            let ghost before = self.remaining();
            let ghost left = fields@.skip(i as int);
            assert(left[0] == fields@[i as int]);
            assert(left.skip(1) =~= fields@.skip(i + 1));
            if self.at_end() {
                return Err(Error::Message("missing field".to_owned()));
            }
            let name: String = match self.deserialize_string() {
                Ok(name) => name,
                Err(e) => {
                    assert(left_to_json5(owed) || decode_fields(left, before) == Err::<
                        Seq<(ValueView, ValueView)>,
                        ErrorView,
                    >(e@));
                    return Err(e);
                },
            };
            if !(name == fields[i].0) {
                assert(left_to_json5(owed) || decode_fields(left, before) == Err::<
                    Seq<(ValueView, ValueView)>,
                    ErrorView,
                >(ErrorView::Message(unexpected_field_message())));
                return Err(Error::Message("unexpected field".to_owned()));
            }
            assert(decreases_to!(*fields => fields@[i as int]));
            assert(decreases_to!(fields@[i as int] => fields@[i as int].1));
            let key: Value = Value::Str(name);
            let value: Value = match self.deserialize_value(&fields[i].1) {
                Ok(value) => value,
                Err(e) => {
                    assert(left_to_json5(owed) || decode_fields(left, before) == Err::<
                        Seq<(ValueView, ValueView)>,
                        ErrorView,
                    >(e@));
                    return Err(e);
                },
            };
            proof {
                let others = decode_fields(fields@.skip(i + 1), self.remaining());
                if !left_to_json5(owed) {
                    assert(decode_fields(left, before) == prepend(seq![(key@, value@)], others));
                    lemma_prepend_one(views, (key@, value@), others);
                }
                views = views.push((key@, value@));
            }
            entries.push((key, value));
            i = i + 1;
        }
        assert(fields@.skip(i as int).len() == 0);
        if !self.at_end() {
            return Err(Error::TrailingCharacters);
        }
        proof {
            assert(views + Seq::<(ValueView, ValueView)>::empty() =~= views);
            assert(Value::Object(entries)@->Object_0 =~= views);
        }
        Ok(entries)
    }

    /// Reads an array of values of one shape.
    fn deserialize_array_value(&mut self, shape: &Shape) -> (result: Result<Value, Error>)
        requires
            shape is Array,
        ensures
            agrees_value(result, final(self).remaining(), decode(*shape, old(self).remaining())),
            result is Ok ==> final(self).remaining().len() < old(self).remaining().len(),
            result is Ok ==> final(self).beyond() == old(self).beyond(),
        decreases old(self).remaining().len(), shape, 0nat,
    {
        let item: &Shape = match shape {
            Shape::Array(item) => &**item,
            _ => shape,
        };
        let outer: usize = self.deserialize_seq()?;
        let ghost behind = deserialize_seq_spec(old(self).remaining())->Ok_0.1;
        let items: Vec<Value> = self.deserialize_elements(item)?;
        let ghost beyond = self.beyond();
        self.leave_limit(outer);
        proof {
            assert(beyond == behind + old(self).beyond());
            assert(beyond.take(beyond.len() - outer) =~= behind);
            assert(beyond.skip(beyond.len() - outer) =~= old(self).beyond());
            assert(self.remaining() =~= behind);
        }
        Ok(Value::Array(items))
    }

    /// Reads a tuple: an array of one value of each shape.
    fn deserialize_tuple_value(&mut self, shape: &Shape) -> (result: Result<Value, Error>)
        requires
            shape is Tuple,
        ensures
            agrees_value(result, final(self).remaining(), decode(*shape, old(self).remaining())),
            result is Ok ==> final(self).remaining().len() < old(self).remaining().len(),
            result is Ok ==> final(self).beyond() == old(self).beyond(),
        decreases old(self).remaining().len(), shape, 0nat,
    {
        match shape {
            Shape::Tuple(shapes) => {
                let outer: usize = self.deserialize_tuple(shapes.len())?;
                let ghost behind = deserialize_seq_spec(old(self).remaining())->Ok_0.1;
                let items: Vec<Value> = self.deserialize_tuple_elements(shapes)?;
                let ghost beyond = self.beyond();
                self.leave_limit(outer);
                proof {
                    assert(beyond == behind + old(self).beyond());
                    assert(beyond.take(beyond.len() - outer) =~= behind);
                    assert(beyond.skip(beyond.len() - outer) =~= old(self).beyond());
                    assert(self.remaining() =~= behind);
                }
                Ok(Value::Array(items))
            },
            _ => Err(Error::Empty),
        }
    }

    /// Reads a map.
    fn deserialize_object_value(&mut self, shape: &Shape) -> (result: Result<Value, Error>)
        requires
            shape is Object,
        ensures
            agrees_value(result, final(self).remaining(), decode(*shape, old(self).remaining())),
            result is Ok ==> final(self).remaining().len() < old(self).remaining().len(),
            result is Ok ==> final(self).beyond() == old(self).beyond(),
        decreases old(self).remaining().len(), shape, 0nat,
    {
        let outer: usize = self.deserialize_map()?;
        let ghost behind = deserialize_seq_spec(old(self).remaining())->Ok_0.1;
        let entries: Vec<(Value, Value)> = self.deserialize_entries(shape)?;
        let ghost beyond = self.beyond();
        self.leave_limit(outer);
        proof {
            assert(beyond == behind + old(self).beyond());
            assert(beyond.take(beyond.len() - outer) =~= behind);
            assert(beyond.skip(beyond.len() - outer) =~= old(self).beyond());
            assert(self.remaining() =~= behind);
        }
        Ok(Value::Object(entries))
    }

    /// Reads a struct of named fields.
    fn deserialize_struct_value(&mut self, shape: &Shape) -> (result: Result<Value, Error>)
        requires
            shape is Struct,
        ensures
            agrees_value(result, final(self).remaining(), decode(*shape, old(self).remaining())),
            result is Ok ==> final(self).remaining().len() < old(self).remaining().len(),
            result is Ok ==> final(self).beyond() == old(self).beyond(),
        decreases old(self).remaining().len(), shape, 0nat,
    {
        match shape {
            Shape::Struct(fields) => {
                let outer: usize = self.deserialize_struct("")?;
                let ghost behind = deserialize_seq_spec(old(self).remaining())->Ok_0.1;
                let entries: Vec<(Value, Value)> = self.deserialize_fields(fields)?;
                let ghost beyond = self.beyond();
                self.leave_limit(outer);
                proof {
                    assert(beyond == behind + old(self).beyond());
                    assert(beyond.take(beyond.len() - outer) =~= behind);
                    assert(beyond.skip(beyond.len() - outer) =~= old(self).beyond());
                    assert(self.remaining() =~= behind);
                }
                Ok(Value::Object(entries))
            },
            _ => Err(Error::Empty),
        }
    }

    /// Reads an enum value: the bare name of a variant without data, or an
    /// object whose one key is the name of a variant and whose one value is
    /// the data of the variant.
    fn deserialize_enum_value(&mut self, shape: &Shape) -> (result: Result<Value, Error>)
        requires
            shape is Enum,
        ensures
            agrees_value(result, final(self).remaining(), decode(*shape, old(self).remaining())),
            result is Ok ==> final(self).remaining().len() < old(self).remaining().len(),
            result is Ok ==> final(self).beyond() == old(self).beyond(),
        decreases old(self).remaining().len(), shape, 0nat,
    {
        match shape {
            Shape::Enum(variants) => {
                let ghost spec_head = deserialize_enum_spec(old(self).remaining(), Seq::empty());
                match self.deserialize_enum("")? {
                    EnumHead::Unit(name) => {
                        match find_variant_index(variants, &name) {
                            Some(i) => {
                                if variants[i].1.is_none() {
                                    Ok(Value::Str(name))
                                } else {
                                    Err(Error::Message("invalid type: unit variant".to_owned()))
                                }
                            },
                            None => Err(Error::Message("unknown variant".to_owned())),
                        }
                    },
                    EnumHead::Data(outer) => {
                        let ghost region = self.remaining();
                        let ghost beyond = self.beyond();
                        let ghost behind = spec_head->Ok_0.2;
                        proof {
                            assert(spec_head->Ok_0.1 == region);
                            assert(beyond =~= behind + old(self).beyond());
                        }
                        let name: String = self.deserialize_string()?;
                        match find_variant_index(variants, &name) {
                            Some(i) => {
                                match &variants[i].1 {
                                    Some(payload) => {
                                        assert(decreases_to!(*variants => variants@[i as int]));
                                        let data: Value = self.deserialize_value(payload)?;
                                        self.end_enum(outer)?;
                                        proof {
                                            assert(beyond.take(beyond.len() - outer) =~= behind);
                                            assert(beyond.skip(beyond.len() - outer) =~= old(
                                                self,
                                            ).beyond());
                                        }
                                        Ok(variant_value(name, data))
                                    },
                                    None => {
                                        self.end_enum(outer)?;
                                        proof {
                                            assert(beyond.take(beyond.len() - outer) =~= behind);
                                            assert(beyond.skip(beyond.len() - outer) =~= old(
                                                self,
                                            ).beyond());
                                        }
                                        Ok(Value::Str(name))
                                    },
                                }
                            },
                            None => Err(Error::Message("unknown variant".to_owned())),
                        }
                    },
                }
            },
            _ => Err(Error::Empty),
        }
    }

    /// Reads whatever comes next.
    fn deserialize_any_value(&mut self, shape: &Shape) -> (result: Result<Value, Error>)
        requires
            shape is Any,
        ensures
            agrees_value(result, final(self).remaining(), decode(*shape, old(self).remaining())),
            result is Ok ==> final(self).remaining().len() < old(self).remaining().len(),
            result is Ok ==> final(self).beyond() == old(self).beyond(),
        decreases old(self).remaining().len(), shape, 0nat,
    {
        let header: Header = self.read_header()?;
        let ghost rest = self.remaining();
        let ghost behind = bounded_payload_spec(header, rest).1;
        match header.element_type {
            ElementType::Array => {
                let outer: usize = self.reader_with_limit(header);
                let items: Vec<Value> = self.deserialize_elements(&Shape::Any)?;
                let ghost beyond = self.beyond();
                self.leave_limit(outer);
                proof {
                    assert(beyond == behind + old(self).beyond());
                    assert(beyond.take(beyond.len() - outer) =~= behind);
                    assert(beyond.skip(beyond.len() - outer) =~= old(self).beyond());
                    assert(self.remaining() =~= behind);
                }
                Ok(Value::Array(items))
            },
            ElementType::Object => {
                let outer: usize = self.reader_with_limit(header);
                let any_map = Shape::Object(Box::new(Shape::Any), Box::new(Shape::Any));
                let entries: Vec<(Value, Value)> = self.deserialize_entries(&any_map)?;
                let ghost beyond = self.beyond();
                self.leave_limit(outer);
                proof {
                    assert(beyond == behind + old(self).beyond());
                    assert(beyond.take(beyond.len() - outer) =~= behind);
                    assert(beyond.skip(beyond.len() - outer) =~= old(self).beyond());
                    assert(self.remaining() =~= behind);
                }
                Ok(Value::Object(entries))
            },
            _ => {
                let found: Found = self.deserialize_any_with_header(header)?;
                Ok(found_to_value(found))
            },
        }
    }

    /// Reads a value of shape `shape`, and all that it holds.
    pub fn deserialize_value(&mut self, shape: &Shape) -> (result: Result<Value, Error>)
        ensures
            agrees_value(result, final(self).remaining(), decode(*shape, old(self).remaining())),
            result is Ok ==> final(self).remaining().len() < old(self).remaining().len(),
            result is Ok ==> final(self).beyond() == old(self).beyond(),
        decreases old(self).remaining().len(), shape, 1nat,
    {
        match shape {
            Shape::Unit => {
                self.deserialize_unit()?;
                Ok(Value::Null)
            },
            Shape::Bool => Ok(Value::Bool(self.deserialize_bool()?)),
            Shape::I8 => Ok(Value::Int(self.deserialize_i8()? as i64)),
            Shape::I16 => Ok(Value::Int(self.deserialize_i16()? as i64)),
            Shape::I32 => Ok(Value::Int(self.deserialize_i32()? as i64)),
            Shape::I64 => Ok(Value::Int(self.deserialize_i64()?)),
            Shape::U8 => Ok(Value::UInt(self.deserialize_u8()? as u64)),
            Shape::U16 => Ok(Value::UInt(self.deserialize_u16()? as u64)),
            Shape::U32 => Ok(Value::UInt(self.deserialize_u32()? as u64)),
            Shape::U64 => Ok(Value::UInt(self.deserialize_u64()?)),
            Shape::Float => Ok(Value::Float(self.deserialize_f64()?)),
            Shape::Char => Ok(char_value(self.deserialize_char()?)),
            Shape::Str => Ok(Value::Str(self.deserialize_string()?)),
            Shape::Optional(inner) => {
                if self.deserialize_option()? {
                    self.deserialize_value(inner)
                } else {
                    Ok(Value::Null)
                }
            },
            Shape::Array(_) => self.deserialize_array_value(shape),
            Shape::Tuple(_) => self.deserialize_tuple_value(shape),
            Shape::Object(_, _) => self.deserialize_object_value(shape),
            Shape::Struct(_) => self.deserialize_struct_value(shape),
            Shape::Enum(_) => self.deserialize_enum_value(shape),
            Shape::Any => self.deserialize_any_value(shape),
        }
    }
}

/// Decodes `s`, which is to hold one value of shape `shape` and nothing
/// else. The result is the one that [`from_slice_spec`] gives, but where an
/// integer or a string stands in JSON5 text: there it is what the JSON5
/// parser makes of the text.
pub fn from_slice(s: &[u8], shape: &Shape) -> (result: Result<Value, Error>)
    ensures
        left_to_json5(from_slice_spec(*shape, s@)) || match result {
            Ok(value) => from_slice_spec(*shape, s@) == Ok::<ValueView, ErrorView>(value@),
            Err(e) => from_slice_spec(*shape, s@) == Err::<ValueView, ErrorView>(e@),
        },
{
    let mut deserializer = Deserializer::from_bytes(s);
    let value: Value = deserializer.deserialize_value(shape)?;
    if deserializer.at_end() {
        Ok(value)
    } else {
        Err(Error::TrailingCharacters)
    }
}

} // verus!
