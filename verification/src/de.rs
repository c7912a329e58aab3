//! The decoder. It reads one element at a time from a byte slice: a header,
//! and then the payload in the way that the element type asks for. Inside an
//! array or an object it reads within a region that ends where the payload
//! of the array or object ends.
//!
//! What a step of reading owes is said by a function of the bytes, such as
//! [`read_header_spec`]. Where an integer or a string stands in JSON5 text,
//! what is read is for the JSON5 parser to say, and a function of the bytes
//! cannot say it: it says `ErrorView::Json5Error` there, and a step whose
//! specification says so owes nothing but what its own contract adds.

use crate::endian::{le_value, lemma_le_value_bound, lemma_pow256_values, read_be, read_le};
use crate::error::{Error, ErrorView, IoError, JsonError};
use crate::header::{wire_header, wire_header_len, ElementType, Header};
use crate::json::{
    json5_signed, json5_text, json5_unsigned, json_string, may_be_number, parse_json5_string,
    parse_json_string, read_json5_i64, read_json5_u64, read_json_i64, read_json_u64,
    signed_reading, string_from_utf8, unsigned_reading,
};
use vstd::prelude::*;
use vstd::slice::{slice_subrange, slice_to_vec};
use vstd::utf8::{decode_utf8, valid_utf8};

verus! {

/// Reading a header from `bytes`: the header and the bytes behind it. There
/// is nothing to read where `bytes` is empty, and the input ends too early
/// where the header is cut short.
pub open spec fn read_header_spec(bytes: Seq<u8>) -> Result<(Header, Seq<u8>), ErrorView> {
    if bytes.len() == 0 {
        Err(ErrorView::Empty)
    } else if bytes.len() < wire_header_len(bytes[0]) {
        Err(ErrorView::Io(IoError::UnexpectedEof))
    } else {
        Ok((wire_header(bytes), bytes.skip(wire_header_len(bytes[0]))))
    }
}

/// Taking the payload of `header` from `bytes`: the payload and the bytes
/// behind it. The input ends too early where fewer bytes are left than the
/// header announces.
pub open spec fn take_payload_spec(header: Header, bytes: Seq<u8>) -> Result<
    (Seq<u8>, Seq<u8>),
    ErrorView,
> {
    if header.payload_size > bytes.len() {
        Err(ErrorView::Io(IoError::UnexpectedEof))
    } else {
        Ok((bytes.take(header.payload_size as int), bytes.skip(header.payload_size as int)))
    }
}

/// The number of bytes of the region that the payload of `header` makes in
/// `bytes`: as many as the header announces, or all that are left where
/// they are fewer.
pub open spec fn region_len(header: Header, bytes: Seq<u8>) -> int {
    if header.payload_size <= bytes.len() {
        header.payload_size as int
    } else {
        bytes.len() as int
    }
}

/// Taking the payload of `header` from `bytes` as far as it is there: as
/// many bytes as the header announces, or all that are left where they are
/// fewer, and the bytes behind them.
pub open spec fn bounded_payload_spec(header: Header, bytes: Seq<u8>) -> (Seq<u8>, Seq<u8>) {
    (bytes.take(region_len(header, bytes)), bytes.skip(region_len(header, bytes)))
}

/// Taking the text of a number from the payload of `header`: a payload of up
/// to eight bytes must be there in full, a longer one is taken as far as it
/// is there.
pub open spec fn number_payload_spec(header: Header, bytes: Seq<u8>) -> Result<
    (Seq<u8>, Seq<u8>),
    ErrorView,
> {
    if header.payload_size <= 8 {
        take_payload_spec(header, bytes)
    } else {
        Ok(bounded_payload_spec(header, bytes))
    }
}

/// Whether `expected` leaves what is read to the JSON5 parser.
pub open spec fn left_to_json5<T>(expected: Result<T, ErrorView>) -> bool {
    expected == Err::<T, ErrorView>(ErrorView::Json5Error)
}

/// Whether a decoding step ended as `expected` says: with the same value and
/// with `rest` left to read, or with the same error. Nothing is asked where
/// `expected` leaves what is read to the JSON5 parser.
pub open spec fn agrees<T>(
    result: Result<T, Error>,
    rest: Seq<u8>,
    expected: Result<(T, Seq<u8>), ErrorView>,
) -> bool {
    left_to_json5(expected) || match result {
        Ok(v) => expected == Ok::<(T, Seq<u8>), ErrorView>((v, rest)),
        Err(e) => expected == Err::<(T, Seq<u8>), ErrorView>(e@),
    }
}

/// As [`agrees`], for a step that yields a string.
pub open spec fn agrees_string(
    result: Result<String, Error>,
    rest: Seq<u8>,
    expected: Result<(Seq<char>, Seq<u8>), ErrorView>,
) -> bool {
    left_to_json5(expected) || match result {
        Ok(s) => expected == Ok::<(Seq<char>, Seq<u8>), ErrorView>((s@, rest)),
        Err(e) => expected == Err::<(Seq<char>, Seq<u8>), ErrorView>(e@),
    }
}

/// A decoder over a byte slice. It reads within a region of the slice, at
/// first the whole of it.
#[derive(Debug)]
pub struct Deserializer<'a> {
    input: &'a [u8],
    pos: usize,
    end: usize,
}

impl<'a> Deserializer<'a> {
    #[verifier::type_invariant]
    spec fn well_formed(self) -> bool {
        self.pos <= self.end <= self.input@.len()
    }

    /// The bytes of the current region that have not been read yet.
    pub closed spec fn remaining(&self) -> Seq<u8> {
        self.input@.subrange(self.pos as int, self.end as int)
    }

    /// The bytes of the input that lie behind the current region.
    pub closed spec fn beyond(&self) -> Seq<u8> {
        self.input@.subrange(self.end as int, self.input@.len() as int)
    }

    /// A decoder that has all of `input` to read.
    pub fn from_bytes(input: &'a [u8]) -> (deserializer: Deserializer<'a>)
        ensures
            deserializer.remaining() == input@,
            deserializer.beyond() == Seq::<u8>::empty(),
    {
        let end: usize = input.len();
        assert(input@.subrange(0, end as int) =~= input@);
        assert(input@.subrange(end as int, end as int) =~= Seq::<u8>::empty());
        Deserializer { input, pos: 0, end }
    }

    /// Whether the current region has been read to its end.
    pub fn at_end(&self) -> (at_end: bool)
        ensures
            at_end == (self.remaining().len() == 0),
    {
        proof {
            use_type_invariant(self);
        }
        self.pos == self.end
    }

    /// Reads the header of the next element.
    pub fn read_header(&mut self) -> (result: Result<Header, Error>)
        ensures
            agrees(result, final(self).remaining(), read_header_spec(old(self).remaining())),
            result is Ok ==> final(self).beyond() == old(self).beyond(),
            result is Err ==> *final(self) == *old(self),
    {
        proof {
            use_type_invariant(&*self);
        }
        if self.pos == self.end {
            return Err(Error::Empty);
        }
        let first_byte: u8 = self.input[self.pos];
        let upper_four_bits: u8 = first_byte >> 4;
        assert(upper_four_bits == first_byte / 16) by (bit_vector)
            requires
                upper_four_bits == first_byte >> 4,
        ;
        // The upper four bits say how long the header is, and for a short
        // payload they are its length themselves.
        let bytes_to_read: usize = if upper_four_bits <= 11 {
            0
        } else if upper_four_bits == 12 {
            1
        } else if upper_four_bits == 13 {
            2
        } else if upper_four_bits == 14 {
            4
        } else {
            8
        };
        if self.end - self.pos < 1 + bytes_to_read {
            return Err(Error::Io(IoError::UnexpectedEof));
        }
        let payload_size: u64 = if bytes_to_read == 0 {
            upper_four_bits as u64
        } else {
            read_be(self.input, self.pos + 1, bytes_to_read)
        };
        let ghost rem = self.remaining();
        proof {
            assert(rem[0] == first_byte);
            assert(rem.subrange(1, 1 + bytes_to_read) =~= self.input@.subrange(
                self.pos + 1,
                self.pos + 1 + bytes_to_read,
            ));
        }
        self.pos = self.pos + 1 + bytes_to_read;
        proof {
            assert(self.remaining() =~= rem.skip(wire_header_len(rem[0])));
        }
        Ok(Header { element_type: ElementType::from(first_byte), payload_size })
    }

    /// Takes the payload of `header`: the bytes that follow, as many as the
    /// header announces.
    fn take_payload(&mut self, header: Header) -> (result: Result<&'a [u8], Error>)
        ensures
            match result {
                Ok(payload) => take_payload_spec(header, old(self).remaining()) == Ok::<
                    (Seq<u8>, Seq<u8>),
                    ErrorView,
                >((payload@, final(self).remaining())),
                Err(e) => take_payload_spec(header, old(self).remaining()) == Err::<
                    (Seq<u8>, Seq<u8>),
                    ErrorView,
                >(e@),
            },
            result is Ok ==> final(self).beyond() == old(self).beyond(),
    {
        proof {
            use_type_invariant(&*self);
        }
        let left: usize = self.end - self.pos;
        if header.payload_size > left as u64 {
            return Err(Error::Io(IoError::UnexpectedEof));
        }
        let size: usize = header.payload_size as usize;
        let payload: &'a [u8] = slice_subrange(self.input, self.pos, self.pos + size);
        let ghost rem = self.remaining();
        self.pos = self.pos + size;
        proof {
            assert(payload@ =~= rem.take(size as int));
            assert(self.remaining() =~= rem.skip(size as int));
        }
        Ok(payload)
    }

    /// Takes the payload of `header` as far as it is there.
    fn take_bounded(&mut self, header: Header) -> (payload: &'a [u8])
        ensures
            bounded_payload_spec(header, old(self).remaining()) == (
                payload@,
                final(self).remaining(),
            ),
            final(self).beyond() == old(self).beyond(),
    {
        proof {
            use_type_invariant(&*self);
        }
        let left: usize = self.end - self.pos;
        let size: usize = if header.payload_size <= left as u64 {
            header.payload_size as usize
        } else {
            left
        };
        let payload: &'a [u8] = slice_subrange(self.input, self.pos, self.pos + size);
        let ghost rem = self.remaining();
        self.pos = self.pos + size;
        proof {
            assert(payload@ =~= rem.take(size as int));
            assert(self.remaining() =~= rem.skip(size as int));
        }
        payload
    }

    /// Takes the text of a number from the payload of `header`. A short
    /// payload is taken whole; a long one is taken as far as it is there.
    fn take_number(&mut self, header: Header) -> (result: Result<&'a [u8], Error>)
        ensures
            match result {
                Ok(payload) => number_payload_spec(header, old(self).remaining()) == Ok::<
                    (Seq<u8>, Seq<u8>),
                    ErrorView,
                >((payload@, final(self).remaining())),
                Err(e) => number_payload_spec(header, old(self).remaining()) == Err::<
                    (Seq<u8>, Seq<u8>),
                    ErrorView,
                >(e@),
            },
            result is Ok ==> final(self).beyond() == old(self).beyond(),
    {
        if header.payload_size <= 8 {
            self.take_payload(header)
        } else {
            Ok(self.take_bounded(header))
        }
    }
}

/// Passing over the payload of `header`: its element type and the bytes
/// behind the payload.
pub open spec fn drop_payload_spec(header: Header, bytes: Seq<u8>) -> Result<
    (ElementType, Seq<u8>),
    ErrorView,
> {
    match take_payload_spec(header, bytes) {
        Ok((_, rest)) => Ok((header.element_type, rest)),
        Err(e) => Err(e),
    }
}

/// Reading a boolean from the element of `header`: the payload is passed
/// over, and the element type says which boolean it is.
pub open spec fn read_bool_spec(header: Header, bytes: Seq<u8>) -> Result<
    (bool, Seq<u8>),
    ErrorView,
> {
    match take_payload_spec(header, bytes) {
        Ok((_, rest)) => if header.element_type == ElementType::True {
            Ok((true, rest))
        } else if header.element_type == ElementType::False {
            Ok((false, rest))
        } else {
            Err(ErrorView::UnexpectedType(header.element_type))
        },
        Err(e) => Err(e),
    }
}

/// Reading a null from the element of `header`: the payload is passed over,
/// and the element type must be `Null`.
pub open spec fn read_null_spec(header: Header, bytes: Seq<u8>) -> Result<
    ((), Seq<u8>),
    ErrorView,
> {
    match take_payload_spec(header, bytes) {
        Ok((_, rest)) => if header.element_type == ElementType::Null {
            Ok(((), rest))
        } else {
            Err(ErrorView::UnexpectedType(header.element_type))
        },
        Err(e) => Err(e),
    }
}

/// Reading the payload of `header` as plain UTF-8 text.
pub open spec fn read_payload_string_spec(header: Header, bytes: Seq<u8>) -> Result<
    (Seq<char>, Seq<u8>),
    ErrorView,
> {
    match take_payload_spec(header, bytes) {
        Ok((payload, rest)) => if valid_utf8(payload) {
            Ok((decode_utf8(payload), rest))
        } else {
            Err(ErrorView::Utf8)
        },
        Err(e) => Err(e),
    }
}

/// A payload between two double quotes: the string literal that the payload
/// is the body of.
pub open spec fn quoted(payload: Seq<u8>) -> Seq<u8> {
    seq![34u8] + payload + seq![34u8]
}

/// Reading the payload of `header` as the body of a JSON string literal.
pub open spec fn read_json_compatible_string_spec(header: Header, bytes: Seq<u8>) -> Result<
    (Seq<char>, Seq<u8>),
    ErrorView,
> {
    let (payload, rest) = bounded_payload_spec(header, bytes);
    match json_string(quoted(payload)) {
        Some(text) => Ok((text, rest)),
        None => Err(ErrorView::JsonError),
    }
}

/// Reading a string from the element of `header`: plain text and raw text as
/// they stand, text with JSON escapes through the JSON parser. Text with
/// JSON5 escapes is left to the JSON5 parser.
pub open spec fn read_string_spec(header: Header, bytes: Seq<u8>) -> Result<
    (Seq<char>, Seq<u8>),
    ErrorView,
> {
    match header.element_type {
        ElementType::Text | ElementType::TextRaw => read_payload_string_spec(header, bytes),
        ElementType::TextJ => read_json_compatible_string_spec(header, bytes),
        ElementType::Text5 => Err(ErrorView::Json5Error),
        t => Err(ErrorView::UnexpectedType(t)),
    }
}

/// Reading a signed integer between `min` and `max` from the element of
/// `header`. The payload of a canonical integer element is read by the JSON
/// parser, and a number outside the bounds is refused. The payload of a
/// JSON5 integer element is left to the JSON5 parser.
pub open spec fn read_signed_spec(header: Header, bytes: Seq<u8>, min: int, max: int) -> Result<
    (i64, Seq<u8>),
    ErrorView,
> {
    match header.element_type {
        ElementType::Int => match number_payload_spec(header, bytes) {
            Ok((payload, rest)) => match signed_reading(payload) {
                Some(v) => if min <= v <= max {
                    Ok((v, rest))
                } else {
                    Err(ErrorView::JsonError)
                },
                None => Err(ErrorView::JsonError),
            },
            Err(e) => Err(e),
        },
        ElementType::Int5 => Err(ErrorView::Json5Error),
        t => Err(ErrorView::UnexpectedType(t)),
    }
}

/// Reading an unsigned integer of at most `max` from the element of
/// `header`, in the way of [`read_signed_spec`].
pub open spec fn read_unsigned_spec(header: Header, bytes: Seq<u8>, max: int) -> Result<
    (u64, Seq<u8>),
    ErrorView,
> {
    match header.element_type {
        ElementType::Int => match number_payload_spec(header, bytes) {
            Ok((payload, rest)) => match unsigned_reading(payload) {
                Some(v) => if v <= max {
                    Ok((v, rest))
                } else {
                    Err(ErrorView::JsonError)
                },
                None => Err(ErrorView::JsonError),
            },
            Err(e) => Err(e),
        },
        ElementType::Int5 => Err(ErrorView::Json5Error),
        t => Err(ErrorView::UnexpectedType(t)),
    }
}

/// The text of the error for a binary floating-point element whose payload
/// is neither four nor eight bytes long.
pub open spec fn binary_float_length_message() -> Seq<char> {
    "invalid binary float length"@
}

/// The text of the error for a string that is not exactly one character.
pub open spec fn char_length_message() -> Seq<char> {
    "invalid string length for char"@
}

/// A floating-point number as an element holds it. The number itself is not
/// computed here: it is either the text to hand to a parser, or the bits of
/// its IEEE 754 form.
#[derive(Debug, PartialEq, Eq)]
pub enum FloatRepr {
    /// The text of a number in JSON.
    Json(Vec<u8>),
    /// The text of a number in JSON5.
    Json5(Vec<u8>),
    /// The bits of a single-precision number.
    Single(u32),
    /// The bits of a double-precision number.
    Double(u64),
}

/// What a [`FloatRepr`] holds.
pub enum FloatView {
    Json(Seq<u8>),
    Json5(Seq<u8>),
    Single(u32),
    Double(u64),
}

impl View for FloatRepr {
    type V = FloatView;

    open spec fn view(&self) -> FloatView {
        match self {
            FloatRepr::Json(text) => FloatView::Json(text@),
            FloatRepr::Json5(text) => FloatView::Json5(text@),
            FloatRepr::Single(bits) => FloatView::Single(*bits),
            FloatRepr::Double(bits) => FloatView::Double(*bits),
        }
    }
}

/// Reading a floating-point number from the element of `header`: from an
/// integer or floating-point element its text, from a binary floating-point
/// element of four or eight bytes its bits.
pub open spec fn read_float_spec(header: Header, bytes: Seq<u8>) -> Result<
    (FloatView, Seq<u8>),
    ErrorView,
> {
    match header.element_type {
        ElementType::Int | ElementType::Float => match number_payload_spec(header, bytes) {
            Ok((payload, rest)) => Ok((FloatView::Json(payload), rest)),
            Err(e) => Err(e),
        },
        ElementType::Int5 | ElementType::Float5 => {
            let (payload, rest) = bounded_payload_spec(header, bytes);
            Ok((FloatView::Json5(payload), rest))
        },
        ElementType::BinaryFloat => if header.payload_size == 4 {
            match take_payload_spec(header, bytes) {
                Ok((payload, rest)) => Ok((FloatView::Single(le_value(payload) as u32), rest)),
                Err(e) => Err(e),
            }
        } else if header.payload_size == 8 {
            match take_payload_spec(header, bytes) {
                Ok((payload, rest)) => Ok((FloatView::Double(le_value(payload) as u64), rest)),
                Err(e) => Err(e),
            }
        } else {
            Err(ErrorView::Message(binary_float_length_message()))
        },
        t => Err(ErrorView::UnexpectedType(t)),
    }
}

/// Whether a step that yields a floating-point number ended as `expected`
/// says.
pub open spec fn agrees_float(
    result: Result<FloatRepr, Error>,
    rest: Seq<u8>,
    expected: Result<(FloatView, Seq<u8>), ErrorView>,
) -> bool {
    match result {
        Ok(v) => expected == Ok::<(FloatView, Seq<u8>), ErrorView>((v@, rest)),
        Err(e) => expected == Err::<(FloatView, Seq<u8>), ErrorView>(e@),
    }
}

/// What holds of a step that hands the payload of `header` to the JSON5
/// parser, whatever the parser makes of it: where a value comes back the
/// payload has been taken, as far as it was there, and where none comes back
/// the parser has refused.
pub open spec fn json5_outcome<T>(
    result: Result<T, Error>,
    header: Header,
    before: Seq<u8>,
    after: Seq<u8>,
) -> bool {
    match result {
        Ok(_) => after == bounded_payload_spec(header, before).1,
        Err(e) => e@ == ErrorView::Json5Error,
    }
}

/// What holds of a step that hands the payload of `header` to the JSON5
/// parser to read an integer, whatever the parser makes of it: what
/// [`json5_outcome`] says, and a payload that may not be a number is
/// refused.
pub open spec fn json5_number_outcome<T>(
    result: Result<T, Error>,
    header: Header,
    before: Seq<u8>,
    after: Seq<u8>,
) -> bool {
    &&& json5_outcome(result, header, before, after)
    &&& !may_be_number(bounded_payload_spec(header, before).0) ==> result is Err
}

/// What holds of a step that reads a header from `before` and an integer
/// from its element, where that is an integer in JSON5.
pub open spec fn json5_number_step<T>(result: Result<T, Error>, before: Seq<u8>, after: Seq<u8>) -> bool {
    match read_header_spec(before) {
        Ok((header, rest)) => header.element_type == ElementType::Int5 ==> json5_number_outcome(
            result,
            header,
            rest,
            after,
        ),
        Err(_) => true,
    }
}

/// What holds of a step that reads a header from `before` and a string from
/// its element, where that is a string in JSON5.
pub open spec fn json5_text_step<T>(result: Result<T, Error>, before: Seq<u8>, after: Seq<u8>) -> bool {
    match read_header_spec(before) {
        Ok((header, rest)) => header.element_type == ElementType::Text5 ==> json5_outcome(
            result,
            header,
            rest,
            after,
        ),
        Err(_) => true,
    }
}

/// What holds of a step that reads a header from `before` and a character
/// from its element, where that is a string in JSON5: where a character
/// comes back the payload has been taken, as far as it was there, and where
/// none comes back the parser has refused, or its string was not of one
/// character.
pub open spec fn json5_char_step(result: Result<char, Error>, before: Seq<u8>, after: Seq<u8>) -> bool {
    match read_header_spec(before) {
        Ok((header, rest)) => header.element_type == ElementType::Text5 ==> match result {
            Ok(_) => after == bounded_payload_spec(header, rest).1,
            Err(e) => e@ == ErrorView::Json5Error || e@ == ErrorView::Message(
                char_length_message(),
            ),
        },
        Err(_) => true,
    }
}

/// What the refusal of a number that is out of range says.
pub open spec fn out_of_range_message() -> Seq<char> {
    "number out of range"@
}

/// The refusal of a number that the JSON parser read and that the integer
/// type asked for cannot hold.
fn out_of_range() -> (refusal: JsonError)
    ensures
        refusal.message@ == out_of_range_message(),
{
    JsonError { message: "number out of range".to_owned() }
}

/// Puts `payload` between two double quotes.
pub fn read_with_quotes(payload: &[u8]) -> (text: Vec<u8>)
    ensures
        text@ == quoted(payload@),
{
    let mut text: Vec<u8> = Vec::new();
    text.push(34u8);
    text.extend_from_slice(payload);
    text.push(34u8);
    assert(text@ =~= quoted(payload@));
    text
}

impl<'a> Deserializer<'a> {
    /// Reads the payload of `header` as plain UTF-8 text.
    pub fn read_payload_string(&mut self, header: Header) -> (result: Result<String, Error>)
        ensures
            agrees_string(
                result,
                final(self).remaining(),
                read_payload_string_spec(header, old(self).remaining()),
            ),
            result is Ok ==> final(self).beyond() == old(self).beyond(),
            result is Ok ==> final(self).remaining().len() <= old(self).remaining().len(),
    {
        let payload: &[u8] = self.take_payload(header)?;
        match string_from_utf8(slice_to_vec(payload)) {
            Ok(text) => Ok(text),
            Err(e) => Err(Error::Utf8(e)),
        }
    }

    /// Passes over the payload of `header`.
    pub fn drop_payload(&mut self, header: Header) -> (result: Result<ElementType, Error>)
        ensures
            agrees(
                result,
                final(self).remaining(),
                drop_payload_spec(header, old(self).remaining()),
            ),
            result is Ok ==> final(self).beyond() == old(self).beyond(),
            result is Ok ==> final(self).remaining().len() <= old(self).remaining().len(),
    {
        let _ = self.take_payload(header)?;
        Ok(header.element_type)
    }

    /// Reads a boolean from the element of `header`.
    pub fn read_bool(&mut self, header: Header) -> (result: Result<bool, Error>)
        ensures
            agrees(result, final(self).remaining(), read_bool_spec(header, old(self).remaining())),
            result is Ok ==> final(self).beyond() == old(self).beyond(),
            result is Ok ==> final(self).remaining().len() <= old(self).remaining().len(),
    {
        self.drop_payload(header)?;
        match header.element_type {
            ElementType::True => Ok(true),
            ElementType::False => Ok(false),
            t => Err(Error::UnexpectedType(t)),
        }
    }

    /// Reads a null from the element of `header`.
    pub fn read_null(&mut self, header: Header) -> (result: Result<(), Error>)
        ensures
            agrees(result, final(self).remaining(), read_null_spec(header, old(self).remaining())),
            result is Ok ==> final(self).beyond() == old(self).beyond(),
            result is Ok ==> final(self).remaining().len() <= old(self).remaining().len(),
    {
        self.drop_payload(header)?;
        match header.element_type {
            ElementType::Null => Ok(()),
            t => Err(Error::UnexpectedType(t)),
        }
    }

    /// Narrows the region to the payload of `header`: what is read from now
    /// on ends where the payload ends, or where the region ended before if
    /// that comes first. The result is what [`Self::leave_limit`] takes to
    /// widen the region again: the number of bytes that lay behind the
    /// region until now.
    pub fn reader_with_limit(&mut self, header: Header) -> (outer: usize)
        ensures
            final(self).remaining() == old(self).remaining().take(
                region_len(header, old(self).remaining()),
            ),
            final(self).beyond() == old(self).remaining().skip(
                region_len(header, old(self).remaining()),
            ) + old(self).beyond(),
            outer == old(self).beyond().len(),
    {
        proof {
            use_type_invariant(&*self);
        }
        let outer: usize = self.input.len() - self.end;
        let left: usize = self.end - self.pos;
        let ghost rem = self.remaining();
        let ghost beyond = self.beyond();
        if header.payload_size <= left as u64 {
            self.end = self.pos + header.payload_size as usize;
        }
        proof {
            let n = region_len(header, rem);
            assert(self.remaining() =~= rem.take(n));
            assert(self.beyond() =~= rem.skip(n) + beyond);
        }
        outer
    }

    /// Widens the region again, after [`Self::reader_with_limit`] gave
    /// `outer`: the region then ends where `outer` bytes of the input lie
    /// behind it. Where more than `outer` bytes do not lie behind the
    /// region as it is, nothing changes.
    pub fn leave_limit(&mut self, outer: usize)
        ensures
            outer <= old(self).beyond().len() ==> {
                &&& final(self).remaining() == old(self).remaining() + old(self).beyond().take(
                    old(self).beyond().len() - outer,
                )
                &&& final(self).beyond() == old(self).beyond().skip(
                    old(self).beyond().len() - outer,
                )
            },
            outer > old(self).beyond().len() ==> *final(self) == *old(self),
    {
        proof {
            use_type_invariant(&*self);
        }
        let behind: usize = self.input.len() - self.end;
        if outer <= behind {
            let ghost rem = self.remaining();
            let ghost beyond = self.beyond();
            self.end = self.input.len() - outer;
            proof {
                assert(self.remaining() =~= rem + beyond.take(beyond.len() - outer));
                assert(self.beyond() =~= beyond.skip(beyond.len() - outer));
            }
        }
    }

    /// Reads the payload of `header` as the body of a JSON string literal.
    pub fn read_json_compatible_string(&mut self, header: Header) -> (result: Result<
        String,
        Error,
    >)
        ensures
            agrees_string(
                result,
                final(self).remaining(),
                read_json_compatible_string_spec(header, old(self).remaining()),
            ),
            result is Ok ==> final(self).beyond() == old(self).beyond(),
            result is Ok ==> final(self).remaining().len() <= old(self).remaining().len(),
    {
        let payload: &[u8] = self.take_bounded(header);
        let text: Vec<u8> = read_with_quotes(payload);
        match parse_json_string(text.as_slice()) {
            Ok(s) => Ok(s),
            Err(e) => Err(Error::JsonError(e)),
        }
    }

    /// Reads the payload of `header` as the body of a JSON5 string literal:
    /// the payload is taken as far as it is there, and the string is what
    /// the JSON5 parser makes of it between two double quotes.
    pub fn read_json5_compatible_string(&mut self, header: Header) -> (result: Result<
        String,
        Error,
    >)
        ensures
            json5_outcome(result, header, old(self).remaining(), final(self).remaining()),
            result is Ok ==> final(self).beyond() == old(self).beyond(),
            result is Ok ==> final(self).remaining().len() <= old(self).remaining().len(),
    {
        let payload: &[u8] = self.take_bounded(header);
        let text: Vec<u8> = read_with_quotes(payload);
        json5_text(parse_json5_string(text.as_slice()))
    }

    /// Reads a string from the element of `header`.
    pub fn read_string(&mut self, header: Header) -> (result: Result<String, Error>)
        ensures
            agrees_string(
                result,
                final(self).remaining(),
                read_string_spec(header, old(self).remaining()),
            ),
            header.element_type == ElementType::Text5 ==> json5_outcome(
                result,
                header,
                old(self).remaining(),
                final(self).remaining(),
            ),
            result is Ok ==> final(self).beyond() == old(self).beyond(),
            result is Ok ==> final(self).remaining().len() <= old(self).remaining().len(),
    {
        match header.element_type {
            ElementType::Text | ElementType::TextRaw => self.read_payload_string(header),
            ElementType::TextJ => self.read_json_compatible_string(header),
            ElementType::Text5 => self.read_json5_compatible_string(header),
            t => Err(Error::UnexpectedType(t)),
        }
    }

    /// Reads a signed integer between `min` and `max` from the element of
    /// `header`.
    pub fn read_signed(&mut self, header: Header, min: i64, max: i64) -> (result: Result<
        i64,
        Error,
    >)
        requires
            min <= max,
        ensures
            agrees(
                result,
                final(self).remaining(),
                read_signed_spec(header, old(self).remaining(), min as int, max as int),
            ),
            header.element_type == ElementType::Int5 ==> json5_number_outcome(
                result,
                header,
                old(self).remaining(),
                final(self).remaining(),
            ),
            result matches Ok(v) ==> min <= v <= max,
            result is Ok ==> final(self).beyond() == old(self).beyond(),
            result is Ok ==> final(self).remaining().len() <= old(self).remaining().len(),
    {
        match header.element_type {
            ElementType::Int => {
                let payload: &[u8] = self.take_number(header)?;
                match read_json_i64(payload) {
                    Ok(v) => if min <= v && v <= max {
                        Ok(v)
                    } else {
                        Err(Error::JsonError(out_of_range()))
                    },
                    Err(e) => Err(Error::JsonError(e)),
                }
            },
            ElementType::Int5 => {
                let payload: &[u8] = self.take_bounded(header);
                json5_signed(read_json5_i64(payload), min, max)
            },
            t => Err(Error::UnexpectedType(t)),
        }
    }

    /// Reads an unsigned integer of at most `max` from the element of
    /// `header`.
    pub fn read_unsigned(&mut self, header: Header, max: u64) -> (result: Result<u64, Error>)
        ensures
            agrees(
                result,
                final(self).remaining(),
                read_unsigned_spec(header, old(self).remaining(), max as int),
            ),
            header.element_type == ElementType::Int5 ==> json5_number_outcome(
                result,
                header,
                old(self).remaining(),
                final(self).remaining(),
            ),
            result matches Ok(v) ==> v <= max,
            result is Ok ==> final(self).beyond() == old(self).beyond(),
            result is Ok ==> final(self).remaining().len() <= old(self).remaining().len(),
    {
        match header.element_type {
            ElementType::Int => {
                let payload: &[u8] = self.take_number(header)?;
                match read_json_u64(payload) {
                    Ok(v) => if v <= max {
                        Ok(v)
                    } else {
                        Err(Error::JsonError(out_of_range()))
                    },
                    Err(e) => Err(Error::JsonError(e)),
                }
            },
            ElementType::Int5 => {
                let payload: &[u8] = self.take_bounded(header);
                json5_unsigned(read_json5_u64(payload), max)
            },
            t => Err(Error::UnexpectedType(t)),
        }
    }

    /// Reads a signed 64-bit integer from the element of `header`.
    pub fn read_integer(&mut self, header: Header) -> (result: Result<i64, Error>)
        ensures
            agrees(
                result,
                final(self).remaining(),
                read_signed_spec(
                    header,
                    old(self).remaining(),
                    i64::MIN as int,
                    i64::MAX as int,
                ),
            ),
            header.element_type == ElementType::Int5 ==> json5_number_outcome(
                result,
                header,
                old(self).remaining(),
                final(self).remaining(),
            ),
            result is Ok ==> final(self).beyond() == old(self).beyond(),
            result is Ok ==> final(self).remaining().len() <= old(self).remaining().len(),
    {
        self.read_signed(header, i64::MIN, i64::MAX)
    }

    /// Reads a floating-point number from the element of `header`.
    pub fn read_float(&mut self, header: Header) -> (result: Result<FloatRepr, Error>)
        ensures
            agrees_float(
                result,
                final(self).remaining(),
                read_float_spec(header, old(self).remaining()),
            ),
            result is Ok ==> final(self).beyond() == old(self).beyond(),
            result is Ok ==> final(self).remaining().len() <= old(self).remaining().len(),
    {
        match header.element_type {
            ElementType::Int | ElementType::Float => {
                let payload: &[u8] = self.take_number(header)?;
                Ok(FloatRepr::Json(slice_to_vec(payload)))
            },
            ElementType::Int5 | ElementType::Float5 => {
                let payload: &[u8] = self.take_bounded(header);
                Ok(FloatRepr::Json5(slice_to_vec(payload)))
            },
            ElementType::BinaryFloat => {
                if header.payload_size == 4 {
                    let payload: &[u8] = self.take_payload(header)?;
                    proof {
                        lemma_le_value_bound(payload@);
                        lemma_pow256_values();
                        assert(payload@.subrange(0, 4) =~= payload@);
                    }
                    let bits: u64 = read_le(payload, 0, 4);
                    Ok(FloatRepr::Single(bits as u32))
                } else if header.payload_size == 8 {
                    let payload: &[u8] = self.take_payload(header)?;
                    proof {
                        assert(payload@.subrange(0, 8) =~= payload@);
                    }
                    let bits: u64 = read_le(payload, 0, 8);
                    Ok(FloatRepr::Double(bits))
                } else {
                    Err(Error::Message("invalid binary float length".to_owned()))
                }
            },
            t => Err(Error::UnexpectedType(t)),
        }
    }
}

/// What an element is found to hold when nothing is asked of it beforehand.
/// An integer comes in the narrowest type that holds it, an unsigned one
/// where it is not negative. Of an array or an object only the beginning
/// has been read: the region is then the payload, and the number is what
/// [`Deserializer::leave_limit`] takes once the elements have been read.
#[derive(Debug)]
pub enum Found {
    Unit,
    Bool(bool),
    Float(FloatRepr),
    U8(u8),
    I8(i8),
    U16(u16),
    I16(i16),
    U32(u32),
    I32(i32),
    U64(u64),
    I64(i64),
    Array(usize),
    Object(usize),
    String(String),
}

/// What a [`Found`] holds.
pub enum FoundView {
    Unit,
    Bool(bool),
    Float(FloatView),
    U8(u8),
    I8(i8),
    U16(u16),
    I16(i16),
    U32(u32),
    I32(i32),
    U64(u64),
    I64(i64),
    Array(usize),
    Object(usize),
    String(Seq<char>),
}

impl View for Found {
    type V = FoundView;

    open spec fn view(&self) -> FoundView {
        match self {
            Found::Unit => FoundView::Unit,
            Found::Bool(b) => FoundView::Bool(*b),
            Found::Float(f) => FoundView::Float(f@),
            Found::U8(v) => FoundView::U8(*v),
            Found::I8(v) => FoundView::I8(*v),
            Found::U16(v) => FoundView::U16(*v),
            Found::I16(v) => FoundView::I16(*v),
            Found::U32(v) => FoundView::U32(*v),
            Found::I32(v) => FoundView::I32(*v),
            Found::U64(v) => FoundView::U64(*v),
            Found::I64(v) => FoundView::I64(*v),
            Found::Array(outer) => FoundView::Array(*outer),
            Found::Object(outer) => FoundView::Object(*outer),
            Found::String(s) => FoundView::String(s@),
        }
    }
}

/// An integer in the narrowest type that holds it, an unsigned one where it
/// is not negative.
pub open spec fn narrowed(i: i64) -> FoundView {
    if 0 <= i <= u8::MAX {
        FoundView::U8(i as u8)
    } else if i8::MIN <= i < 0 {
        FoundView::I8(i as i8)
    } else if 0 <= i <= u16::MAX {
        FoundView::U16(i as u16)
    } else if i16::MIN <= i < 0 {
        FoundView::I16(i as i16)
    } else if 0 <= i <= u32::MAX {
        FoundView::U32(i as u32)
    } else if i32::MIN <= i < 0 {
        FoundView::I32(i as i32)
    } else if 0 <= i {
        FoundView::U64(i as u64)
    } else {
        FoundView::I64(i)
    }
}

/// The integer that `found` holds, where it holds one.
pub open spec fn found_integer(found: FoundView) -> Option<int> {
    match found {
        FoundView::U8(v) => Some(v as int),
        FoundView::I8(v) => Some(v as int),
        FoundView::U16(v) => Some(v as int),
        FoundView::I16(v) => Some(v as int),
        FoundView::U32(v) => Some(v as int),
        FoundView::I32(v) => Some(v as int),
        FoundView::U64(v) => Some(v as int),
        FoundView::I64(v) => Some(v as int),
        _ => None,
    }
}

/// Whether `found` holds an integer that an `i64` holds, in the narrowest
/// type that holds it.
pub open spec fn is_narrowest(found: FoundView) -> bool {
    match found_integer(found) {
        Some(i) => i64::MIN <= i <= i64::MAX && found == narrowed(i as i64),
        None => false,
    }
}

/// What holds of the reading of the element of `header` without a type
/// asked for, where the element is left to the JSON5 parser: of an integer
/// what [`json5_number_outcome`] says, and what comes back is an integer in
/// its narrowest type; of a string what [`json5_outcome`] says, and what
/// comes back is a string.
pub open spec fn json5_any_outcome(
    result: Result<Found, Error>,
    header: Header,
    before: Seq<u8>,
    after: Seq<u8>,
) -> bool {
    match header.element_type {
        ElementType::Int5 => {
            &&& json5_number_outcome(result, header, before, after)
            &&& result matches Ok(found) ==> is_narrowest(found@)
        },
        ElementType::Text5 => {
            &&& json5_outcome(result, header, before, after)
            &&& result matches Ok(found) ==> found is String
        },
        _ => true,
    }
}

/// What holds of a step that reads a header from `before` and its element
/// without a type asked for, where the element is left to the JSON5 parser.
pub open spec fn json5_any_step(result: Result<Found, Error>, before: Seq<u8>, after: Seq<u8>) -> bool {
    match read_header_spec(before) {
        Ok((header, rest)) => json5_any_outcome(result, header, rest, after),
        Err(_) => true,
    }
}

/// Reading the element of `header` without a type asked for: the value that
/// a scalar element holds, and the beginning of an array or an object. The
/// third part of the result is what lies behind the region afterwards;
/// `outer` is the number of bytes that lay behind it before.
pub open spec fn deserialize_any_with_header_spec(
    header: Header,
    bytes: Seq<u8>,
    beyond: Seq<u8>,
) -> Result<(FoundView, Seq<u8>, Seq<u8>), ErrorView> {
    match header.element_type {
        ElementType::Null => match read_null_spec(header, bytes) {
            Ok((_, rest)) => Ok((FoundView::Unit, rest, beyond)),
            Err(e) => Err(e),
        },
        ElementType::True | ElementType::False => match read_bool_spec(header, bytes) {
            Ok((b, rest)) => Ok((FoundView::Bool(b), rest, beyond)),
            Err(e) => Err(e),
        },
        ElementType::Float | ElementType::Float5 | ElementType::BinaryFloat => match (
            read_float_spec(header, bytes)
        ) {
            Ok((f, rest)) => Ok((FoundView::Float(f), rest, beyond)),
            Err(e) => Err(e),
        },
        ElementType::Int | ElementType::Int5 => match read_signed_spec(
            header,
            bytes,
            i64::MIN as int,
            i64::MAX as int,
        ) {
            Ok((i, rest)) => Ok((narrowed(i), rest, beyond)),
            Err(e) => Err(e),
        },
        ElementType::Array => Ok(
            (
                FoundView::Array(beyond.len() as usize),
                bytes.take(region_len(header, bytes)),
                bytes.skip(region_len(header, bytes)) + beyond,
            ),
        ),
        ElementType::Object => Ok(
            (
                FoundView::Object(beyond.len() as usize),
                bytes.take(region_len(header, bytes)),
                bytes.skip(region_len(header, bytes)) + beyond,
            ),
        ),
        ElementType::Text
        | ElementType::TextJ
        | ElementType::Text5
        | ElementType::TextRaw => match read_string_spec(header, bytes) {
            Ok((s, rest)) => Ok((FoundView::String(s), rest, beyond)),
            Err(e) => Err(e),
        },
        ElementType::Reserved13 | ElementType::Reserved14 => Err(
            ErrorView::UnexpectedType(header.element_type),
        ),
    }
}

/// Reading the next element of `bytes` without a type asked for: a header,
/// and then what its element holds.
pub open spec fn deserialize_any_spec(bytes: Seq<u8>, beyond: Seq<u8>) -> Result<
    (FoundView, Seq<u8>, Seq<u8>),
    ErrorView,
> {
    match read_header_spec(bytes) {
        Ok((header, rest)) => deserialize_any_with_header_spec(header, rest, beyond),
        Err(e) => Err(e),
    }
}

/// How an enum value begins.
#[derive(Debug)]
pub enum EnumHead {
    /// A text element: the name of a variant without data.
    Unit(String),
    /// An object: the region is then its payload, in which the name of the
    /// variant and its data are to be read. The number is what
    /// [`Deserializer::end_enum`] takes afterwards.
    Data(usize),
}

/// What an [`EnumHead`] holds.
pub enum EnumHeadView {
    Unit(Seq<char>),
    Data(usize),
}

impl View for EnumHead {
    type V = EnumHeadView;

    open spec fn view(&self) -> EnumHeadView {
        match self {
            EnumHead::Unit(name) => EnumHeadView::Unit(name@),
            EnumHead::Data(outer) => EnumHeadView::Data(*outer),
        }
    }
}

/// Reading the beginning of an enum value from `bytes`: a text element is
/// the name of a variant without data, an object holds the name and the
/// data, and no other element is an enum value.
pub open spec fn deserialize_enum_spec(bytes: Seq<u8>, beyond: Seq<u8>) -> Result<
    (EnumHeadView, Seq<u8>, Seq<u8>),
    ErrorView,
> {
    match read_header_spec(bytes) {
        Ok((header, rest)) => match header.element_type {
            ElementType::Text
            | ElementType::TextJ
            | ElementType::Text5
            | ElementType::TextRaw => match read_string_spec(header, rest) {
                Ok((name, after)) => Ok((EnumHeadView::Unit(name), after, beyond)),
                Err(e) => Err(e),
            },
            ElementType::Object => Ok(
                (
                    EnumHeadView::Data(beyond.len() as usize),
                    rest.take(region_len(header, rest)),
                    rest.skip(region_len(header, rest)) + beyond,
                ),
            ),
            other => Err(ErrorView::UnexpectedType(other)),
        },
        Err(e) => Err(e),
    }
}

/// What holds of a step that reads the beginning of an enum value from
/// `before`, where that is a string in JSON5: what [`json5_text_step`] says,
/// and what comes back is the name of a variant without data.
pub open spec fn json5_enum_step(result: Result<EnumHead, Error>, before: Seq<u8>, after: Seq<u8>) -> bool {
    &&& json5_text_step(result, before, after)
    &&& match read_header_spec(before) {
        Ok((header, _)) => header.element_type == ElementType::Text5 && result is Ok
            ==> result->Ok_0 is Unit,
        Err(_) => true,
    }
}

/// Reading the beginning of an optional value from `bytes`: a null element
/// is read and stands for the absent value; before any other element the
/// value is present, and nothing is read.
pub open spec fn deserialize_option_spec(bytes: Seq<u8>) -> Result<(bool, Seq<u8>), ErrorView> {
    match read_header_spec(bytes) {
        Ok((header, rest)) => if header.element_type == ElementType::Null {
            match take_payload_spec(header, rest) {
                Ok((_, after)) => Ok((false, after)),
                Err(e) => Err(e),
            }
        } else {
            Ok((true, bytes))
        },
        Err(e) => Err(e),
    }
}

/// Reading the beginning of an array or an object from `bytes`: the region
/// that its payload makes, and what lies behind the region.
pub open spec fn deserialize_seq_spec(bytes: Seq<u8>) -> Result<(Seq<u8>, Seq<u8>), ErrorView> {
    match read_header_spec(bytes) {
        Ok((header, rest)) => Ok(
            (rest.take(region_len(header, rest)), rest.skip(region_len(header, rest))),
        ),
        Err(e) => Err(e),
    }
}

/// Whether the beginning of an array or an object was read from
/// `remaining` as [`deserialize_seq_spec`] says: the region is then its
/// payload, what lay behind it lies behind the region together with what lay
/// there before, and the result is the number of bytes that lay there
/// before.
pub open spec fn enters_region(
    result: Result<usize, Error>,
    remaining: Seq<u8>,
    beyond: Seq<u8>,
    region: Seq<u8>,
    behind: Seq<u8>,
) -> bool {
    match result {
        Ok(outer) => {
            &&& deserialize_seq_spec(remaining) matches Ok((payload, rest))
            &&& region == payload
            &&& behind == rest + beyond
            &&& outer == beyond.len()
        },
        Err(e) => deserialize_seq_spec(remaining) == Err::<(Seq<u8>, Seq<u8>), ErrorView>(e@),
    }
}

/// Reading a character from `bytes`: a string of exactly one character.
pub open spec fn deserialize_char_spec(bytes: Seq<u8>) -> Result<(char, Seq<u8>), ErrorView> {
    match read_header_spec(bytes) {
        Ok((header, rest)) => match read_string_spec(header, rest) {
            Ok((text, after)) => if text.len() == 1 {
                Ok((text[0], after))
            } else {
                Err(ErrorView::Message(char_length_message()))
            },
            Err(e) => Err(e),
        },
        Err(e) => Err(e),
    }
}

/// Reading a boolean from `bytes`: a header, and then the boolean of its
/// element.
pub open spec fn deserialize_bool_spec(bytes: Seq<u8>) -> Result<(bool, Seq<u8>), ErrorView> {
    match read_header_spec(bytes) {
        Ok((header, rest)) => read_bool_spec(header, rest),
        Err(e) => Err(e),
    }
}

/// Reading the unit value from `bytes`: a header, and then the null of its
/// element.
pub open spec fn deserialize_unit_spec(bytes: Seq<u8>) -> Result<((), Seq<u8>), ErrorView> {
    match read_header_spec(bytes) {
        Ok((header, rest)) => read_null_spec(header, rest),
        Err(e) => Err(e),
    }
}

/// Reading a signed integer between `min` and `max` from `bytes`: a header,
/// and then the integer of its element.
pub open spec fn deserialize_signed_spec(bytes: Seq<u8>, min: int, max: int) -> Result<
    (i64, Seq<u8>),
    ErrorView,
> {
    match read_header_spec(bytes) {
        Ok((header, rest)) => read_signed_spec(header, rest, min, max),
        Err(e) => Err(e),
    }
}

/// Reading an unsigned integer of at most `max` from `bytes`: a header, and
/// then the integer of its element.
pub open spec fn deserialize_unsigned_spec(bytes: Seq<u8>, max: int) -> Result<
    (u64, Seq<u8>),
    ErrorView,
> {
    match read_header_spec(bytes) {
        Ok((header, rest)) => read_unsigned_spec(header, rest, max),
        Err(e) => Err(e),
    }
}

/// Reading a floating-point number from `bytes`: a header, and then the
/// number of its element.
pub open spec fn deserialize_float_spec(bytes: Seq<u8>) -> Result<(FloatView, Seq<u8>), ErrorView> {
    match read_header_spec(bytes) {
        Ok((header, rest)) => read_float_spec(header, rest),
        Err(e) => Err(e),
    }
}

/// Reading a string from `bytes`: a header, and then the string of its
/// element.
pub open spec fn deserialize_string_spec(bytes: Seq<u8>) -> Result<
    (Seq<char>, Seq<u8>),
    ErrorView,
> {
    match read_header_spec(bytes) {
        Ok((header, rest)) => read_string_spec(header, rest),
        Err(e) => Err(e),
    }
}

/// Passing over one element of `bytes`: a header and its payload.
pub open spec fn deserialize_ignored_any_spec(bytes: Seq<u8>) -> Result<
    (ElementType, Seq<u8>),
    ErrorView,
> {
    match read_header_spec(bytes) {
        Ok((header, rest)) => drop_payload_spec(header, rest),
        Err(e) => Err(e),
    }
}

impl<'a> Deserializer<'a> {
    /// Reads the element of `header` without a type asked for.
    pub fn deserialize_any_with_header(&mut self, header: Header) -> (result: Result<
        Found,
        Error,
    >)
        ensures
            left_to_json5(
                deserialize_any_with_header_spec(header, old(self).remaining(), old(self).beyond()),
            ) || match result {
                Ok(found) => deserialize_any_with_header_spec(
                    header,
                    old(self).remaining(),
                    old(self).beyond(),
                ) == Ok::<(FoundView, Seq<u8>, Seq<u8>), ErrorView>(
                    (found@, final(self).remaining(), final(self).beyond()),
                ),
                Err(e) => deserialize_any_with_header_spec(
                    header,
                    old(self).remaining(),
                    old(self).beyond(),
                ) == Err::<(FoundView, Seq<u8>, Seq<u8>), ErrorView>(e@),
            },
            json5_any_outcome(result, header, old(self).remaining(), final(self).remaining()),
            result is Ok && header.element_type != ElementType::Array && header.element_type
                != ElementType::Object ==> final(self).beyond() == old(self).beyond(),
            result matches Ok(found) ==> (found is Array <==> header.element_type
                == ElementType::Array) && (found is Object <==> header.element_type
                == ElementType::Object),
            result is Ok ==> final(self).remaining().len() <= old(self).remaining().len(),
    {
        match header.element_type {
            ElementType::Null => {
                self.read_null(header)?;
                Ok(Found::Unit)
            },
            ElementType::True | ElementType::False => Ok(Found::Bool(self.read_bool(header)?)),
            ElementType::Float | ElementType::Float5 | ElementType::BinaryFloat => Ok(
                Found::Float(self.read_float(header)?),
            ),
            ElementType::Int | ElementType::Int5 => {
                let i: i64 = self.read_integer(header)?;
                if 0 <= i && i <= 0xff {
                    Ok(Found::U8(i as u8))
                } else if -0x80 <= i && i < 0 {
                    Ok(Found::I8(i as i8))
                } else if 0 <= i && i <= 0xffff {
                    Ok(Found::U16(i as u16))
                } else if -0x8000 <= i && i < 0 {
                    Ok(Found::I16(i as i16))
                } else if 0 <= i && i <= 0xffff_ffff {
                    Ok(Found::U32(i as u32))
                } else if -0x8000_0000 <= i && i < 0 {
                    Ok(Found::I32(i as i32))
                } else if 0 <= i {
                    Ok(Found::U64(i as u64))
                } else {
                    Ok(Found::I64(i))
                }
            },
            ElementType::Array => Ok(Found::Array(self.reader_with_limit(header))),
            ElementType::Object => Ok(Found::Object(self.reader_with_limit(header))),
            ElementType::Text
            | ElementType::TextJ
            | ElementType::Text5
            | ElementType::TextRaw => Ok(Found::String(self.read_string(header)?)),
            ElementType::Reserved13 | ElementType::Reserved14 => Err(
                Error::UnexpectedType(header.element_type),
            ),
        }
    }

    /// Reads the next element without a type asked for.
    pub fn deserialize_any(&mut self) -> (result: Result<Found, Error>)
        ensures
            left_to_json5(deserialize_any_spec(old(self).remaining(), old(self).beyond()))
                || match result {
                Ok(found) => deserialize_any_spec(old(self).remaining(), old(self).beyond())
                    == Ok::<(FoundView, Seq<u8>, Seq<u8>), ErrorView>(
                    (found@, final(self).remaining(), final(self).beyond()),
                ),
                Err(e) => deserialize_any_spec(old(self).remaining(), old(self).beyond())
                    == Err::<(FoundView, Seq<u8>, Seq<u8>), ErrorView>(e@),
            },
            json5_any_step(result, old(self).remaining(), final(self).remaining()),
            result matches Ok(found) ==> found is Array || found is Object || final(self).beyond()
                == old(self).beyond(),
            result is Ok ==> final(self).remaining().len() < old(self).remaining().len(),
    {
        let header: Header = self.read_header()?;
        self.deserialize_any_with_header(header)
    }

    /// Reads a boolean.
    pub fn deserialize_bool(&mut self) -> (result: Result<bool, Error>)
        ensures
            agrees(
                result,
                final(self).remaining(),
                deserialize_bool_spec(old(self).remaining()),
            ),
            result is Ok ==> final(self).beyond() == old(self).beyond(),
            result is Ok ==> final(self).remaining().len() < old(self).remaining().len(),
    {
        let header: Header = self.read_header()?;
        self.read_bool(header)
    }

    /// Reads an integer that an `i8` holds.
    pub fn deserialize_i8(&mut self) -> (result: Result<i8, Error>)
        ensures
            agrees(
                match result {
                    Ok(v) => Ok::<i64, Error>(v as i64),
                    Err(e) => Err::<i64, Error>(e),
                },
                final(self).remaining(),
                deserialize_signed_spec(
                    old(self).remaining(),
                    i8::MIN as int,
                    i8::MAX as int,
                ),
            ),
            json5_number_step(result, old(self).remaining(), final(self).remaining()),
            result is Ok ==> final(self).beyond() == old(self).beyond(),
            result is Ok ==> final(self).remaining().len() < old(self).remaining().len(),
    {
        let header: Header = self.read_header()?;
        let v: i64 = self.read_signed(header, i8::MIN as i64, i8::MAX as i64)?;
        Ok(v as i8)
    }

    /// Reads an integer that an `i16` holds.
    pub fn deserialize_i16(&mut self) -> (result: Result<i16, Error>)
        ensures
            agrees(
                match result {
                    Ok(v) => Ok::<i64, Error>(v as i64),
                    Err(e) => Err::<i64, Error>(e),
                },
                final(self).remaining(),
                deserialize_signed_spec(
                    old(self).remaining(),
                    i16::MIN as int,
                    i16::MAX as int,
                ),
            ),
            json5_number_step(result, old(self).remaining(), final(self).remaining()),
            result is Ok ==> final(self).beyond() == old(self).beyond(),
            result is Ok ==> final(self).remaining().len() < old(self).remaining().len(),
    {
        let header: Header = self.read_header()?;
        let v: i64 = self.read_signed(header, i16::MIN as i64, i16::MAX as i64)?;
        Ok(v as i16)
    }

    /// Reads an integer that an `i32` holds.
    pub fn deserialize_i32(&mut self) -> (result: Result<i32, Error>)
        ensures
            agrees(
                match result {
                    Ok(v) => Ok::<i64, Error>(v as i64),
                    Err(e) => Err::<i64, Error>(e),
                },
                final(self).remaining(),
                deserialize_signed_spec(
                    old(self).remaining(),
                    i32::MIN as int,
                    i32::MAX as int,
                ),
            ),
            json5_number_step(result, old(self).remaining(), final(self).remaining()),
            result is Ok ==> final(self).beyond() == old(self).beyond(),
            result is Ok ==> final(self).remaining().len() < old(self).remaining().len(),
    {
        let header: Header = self.read_header()?;
        let v: i64 = self.read_signed(header, i32::MIN as i64, i32::MAX as i64)?;
        Ok(v as i32)
    }

    /// Reads an integer that an `i64` holds.
    pub fn deserialize_i64(&mut self) -> (result: Result<i64, Error>)
        ensures
            agrees(
                result,
                final(self).remaining(),
                deserialize_signed_spec(old(self).remaining(), i64::MIN as int, i64::MAX as int),
            ),
            json5_number_step(result, old(self).remaining(), final(self).remaining()),
            result is Ok ==> final(self).beyond() == old(self).beyond(),
            result is Ok ==> final(self).remaining().len() < old(self).remaining().len(),
    {
        let header: Header = self.read_header()?;
        self.read_integer(header)
    }

    /// Reads an integer that a `u8` holds.
    pub fn deserialize_u8(&mut self) -> (result: Result<u8, Error>)
        ensures
            agrees(
                match result {
                    Ok(v) => Ok::<u64, Error>(v as u64),
                    Err(e) => Err::<u64, Error>(e),
                },
                final(self).remaining(),
                deserialize_unsigned_spec(
                    old(self).remaining(),
                    u8::MAX as int,
                ),
            ),
            json5_number_step(result, old(self).remaining(), final(self).remaining()),
            result is Ok ==> final(self).beyond() == old(self).beyond(),
            result is Ok ==> final(self).remaining().len() < old(self).remaining().len(),
    {
        let header: Header = self.read_header()?;
        let v: u64 = self.read_unsigned(header, u8::MAX as u64)?;
        Ok(v as u8)
    }

    /// Reads an integer that a `u16` holds.
    pub fn deserialize_u16(&mut self) -> (result: Result<u16, Error>)
        ensures
            agrees(
                match result {
                    Ok(v) => Ok::<u64, Error>(v as u64),
                    Err(e) => Err::<u64, Error>(e),
                },
                final(self).remaining(),
                deserialize_unsigned_spec(
                    old(self).remaining(),
                    u16::MAX as int,
                ),
            ),
            json5_number_step(result, old(self).remaining(), final(self).remaining()),
            result is Ok ==> final(self).beyond() == old(self).beyond(),
            result is Ok ==> final(self).remaining().len() < old(self).remaining().len(),
    {
        let header: Header = self.read_header()?;
        let v: u64 = self.read_unsigned(header, u16::MAX as u64)?;
        Ok(v as u16)
    }

    /// Reads an integer that a `u32` holds.
    pub fn deserialize_u32(&mut self) -> (result: Result<u32, Error>)
        ensures
            agrees(
                match result {
                    Ok(v) => Ok::<u64, Error>(v as u64),
                    Err(e) => Err::<u64, Error>(e),
                },
                final(self).remaining(),
                deserialize_unsigned_spec(
                    old(self).remaining(),
                    u32::MAX as int,
                ),
            ),
            json5_number_step(result, old(self).remaining(), final(self).remaining()),
            result is Ok ==> final(self).beyond() == old(self).beyond(),
            result is Ok ==> final(self).remaining().len() < old(self).remaining().len(),
    {
        let header: Header = self.read_header()?;
        let v: u64 = self.read_unsigned(header, u32::MAX as u64)?;
        Ok(v as u32)
    }

    /// Reads an integer that a `u64` holds.
    pub fn deserialize_u64(&mut self) -> (result: Result<u64, Error>)
        ensures
            agrees(
                result,
                final(self).remaining(),
                deserialize_unsigned_spec(old(self).remaining(), u64::MAX as int),
            ),
            json5_number_step(result, old(self).remaining(), final(self).remaining()),
            result is Ok ==> final(self).beyond() == old(self).beyond(),
            result is Ok ==> final(self).remaining().len() < old(self).remaining().len(),
    {
        let header: Header = self.read_header()?;
        self.read_unsigned(header, u64::MAX)
    }

    /// Reads a single-precision floating-point number.
    pub fn deserialize_f32(&mut self) -> (result: Result<FloatRepr, Error>)
        ensures
            agrees_float(
                result,
                final(self).remaining(),
                deserialize_float_spec(old(self).remaining()),
            ),
            result is Ok ==> final(self).beyond() == old(self).beyond(),
            result is Ok ==> final(self).remaining().len() < old(self).remaining().len(),
    {
        let header: Header = self.read_header()?;
        self.read_float(header)
    }

    /// Reads a double-precision floating-point number.
    pub fn deserialize_f64(&mut self) -> (result: Result<FloatRepr, Error>)
        ensures
            agrees_float(
                result,
                final(self).remaining(),
                deserialize_float_spec(old(self).remaining()),
            ),
            result is Ok ==> final(self).beyond() == old(self).beyond(),
            result is Ok ==> final(self).remaining().len() < old(self).remaining().len(),
    {
        let header: Header = self.read_header()?;
        self.read_float(header)
    }

    /// Reads a character: a string of exactly one character.
    pub fn deserialize_char(&mut self) -> (result: Result<char, Error>)
        ensures
            agrees(result, final(self).remaining(), deserialize_char_spec(old(self).remaining())),
            json5_char_step(result, old(self).remaining(), final(self).remaining()),
            result is Ok ==> final(self).beyond() == old(self).beyond(),
            result is Ok ==> final(self).remaining().len() < old(self).remaining().len(),
    {
        let header: Header = self.read_header()?;
        let s: String = self.read_string(header)?;
        if s.as_str().unicode_len() != 1 {
            return Err(Error::Message("invalid string length for char".to_owned()));
        }
        Ok(s.as_str().get_char(0))
    }

    /// Reads a string.
    pub fn deserialize_str(&mut self) -> (result: Result<String, Error>)
        ensures
            agrees_string(
                result,
                final(self).remaining(),
                deserialize_string_spec(old(self).remaining()),
            ),
            json5_text_step(result, old(self).remaining(), final(self).remaining()),
            result is Ok ==> final(self).beyond() == old(self).beyond(),
            result is Ok ==> final(self).remaining().len() < old(self).remaining().len(),
    {
        self.deserialize_string()
    }

    /// Reads a string.
    pub fn deserialize_string(&mut self) -> (result: Result<String, Error>)
        ensures
            agrees_string(
                result,
                final(self).remaining(),
                deserialize_string_spec(old(self).remaining()),
            ),
            json5_text_step(result, old(self).remaining(), final(self).remaining()),
            result is Ok ==> final(self).beyond() == old(self).beyond(),
            result is Ok ==> final(self).remaining().len() < old(self).remaining().len(),
    {
        let header: Header = self.read_header()?;
        self.read_string(header)
    }

    /// Reads the name of a field or of a variant: a string.
    pub fn deserialize_identifier(&mut self) -> (result: Result<String, Error>)
        ensures
            agrees_string(
                result,
                final(self).remaining(),
                deserialize_string_spec(old(self).remaining()),
            ),
            json5_text_step(result, old(self).remaining(), final(self).remaining()),
            result is Ok ==> final(self).beyond() == old(self).beyond(),
            result is Ok ==> final(self).remaining().len() < old(self).remaining().len(),
    {
        self.deserialize_str()
    }

    /// Reads the beginning of an optional value, and tells whether the value
    /// is present. Where it is, it is still to be read.
    pub fn deserialize_option(&mut self) -> (result: Result<bool, Error>)
        ensures
            agrees(
                result,
                final(self).remaining(),
                deserialize_option_spec(old(self).remaining()),
            ),
            result is Ok ==> final(self).beyond() == old(self).beyond(),
            result is Ok ==> final(self).remaining().len() <= old(self).remaining().len(),
    {
        proof {
            use_type_invariant(&*self);
        }
        // The header is read ahead: only a null is taken from the input.
        let mut ahead = Deserializer { input: self.input, pos: self.pos, end: self.end };
        let header: Header = ahead.read_header()?;
        if header.element_type == ElementType::Null {
            let _ = ahead.take_payload(header)?;
            *self = ahead;
            Ok(false)
        } else {
            Ok(true)
        }
    }

    /// Reads the unit value: a null.
    pub fn deserialize_unit(&mut self) -> (result: Result<(), Error>)
        ensures
            agrees(
                result,
                final(self).remaining(),
                deserialize_unit_spec(old(self).remaining()),
            ),
            result is Ok ==> final(self).beyond() == old(self).beyond(),
            result is Ok ==> final(self).remaining().len() < old(self).remaining().len(),
    {
        let header: Header = self.read_header()?;
        self.read_null(header)
    }

    /// Reads a struct without fields: a null.
    pub fn deserialize_unit_struct(&mut self, name: &str) -> (result: Result<(), Error>)
        ensures
            agrees(
                result,
                final(self).remaining(),
                deserialize_unit_spec(old(self).remaining()),
            ),
            result is Ok ==> final(self).beyond() == old(self).beyond(),
            result is Ok ==> final(self).remaining().len() < old(self).remaining().len(),
    {
        self.deserialize_unit()
    }

    /// Reads the beginning of a struct that wraps one value. The struct has
    /// no element of its own: nothing is read here, and the wrapped value is
    /// still to be read.
    pub fn deserialize_newtype_struct(&mut self, name: &str) -> (result: Result<(), Error>)
        ensures
            result is Ok,
            *final(self) == *old(self),
    {
        Ok(())
    }

    /// Reads the beginning of a sequence. The region is then the payload of
    /// the element, and the result is what [`Self::leave_limit`] takes once
    /// the elements have been read.
    pub fn deserialize_seq(&mut self) -> (result: Result<usize, Error>)
        ensures
            enters_region(
                result,
                old(self).remaining(),
                old(self).beyond(),
                final(self).remaining(),
                final(self).beyond(),
            ),
            result is Ok ==> final(self).remaining().len() < old(self).remaining().len(),
    {
        let head: Header = self.read_header()?;
        Ok(self.reader_with_limit(head))
    }

    /// Reads the beginning of a tuple, as [`Self::deserialize_seq`] does.
    pub fn deserialize_tuple(&mut self, len: usize) -> (result: Result<usize, Error>)
        ensures
            enters_region(
                result,
                old(self).remaining(),
                old(self).beyond(),
                final(self).remaining(),
                final(self).beyond(),
            ),
            result is Ok ==> final(self).remaining().len() < old(self).remaining().len(),
    {
        self.deserialize_seq()
    }

    /// Reads the beginning of a struct of unnamed fields, as
    /// [`Self::deserialize_seq`] does.
    pub fn deserialize_tuple_struct(&mut self, name: &str, len: usize) -> (result: Result<
        usize,
        Error,
    >)
        ensures
            enters_region(
                result,
                old(self).remaining(),
                old(self).beyond(),
                final(self).remaining(),
                final(self).beyond(),
            ),
            result is Ok ==> final(self).remaining().len() < old(self).remaining().len(),
    {
        self.deserialize_seq()
    }

    /// Reads the beginning of a byte string: an array of integers, as
    /// [`Self::deserialize_seq`] does.
    pub fn deserialize_bytes(&mut self) -> (result: Result<usize, Error>)
        ensures
            enters_region(
                result,
                old(self).remaining(),
                old(self).beyond(),
                final(self).remaining(),
                final(self).beyond(),
            ),
            result is Ok ==> final(self).remaining().len() < old(self).remaining().len(),
    {
        self.deserialize_seq()
    }

    /// Reads the beginning of a byte string: an array of integers, as
    /// [`Self::deserialize_seq`] does.
    pub fn deserialize_byte_buf(&mut self) -> (result: Result<usize, Error>)
        ensures
            enters_region(
                result,
                old(self).remaining(),
                old(self).beyond(),
                final(self).remaining(),
                final(self).beyond(),
            ),
            result is Ok ==> final(self).remaining().len() < old(self).remaining().len(),
    {
        self.deserialize_seq()
    }

    /// Reads the beginning of a map. The region is then the payload of the
    /// element, in which keys and values follow in turn, and the result is
    /// what [`Self::leave_limit`] takes once they have been read.
    pub fn deserialize_map(&mut self) -> (result: Result<usize, Error>)
        ensures
            enters_region(
                result,
                old(self).remaining(),
                old(self).beyond(),
                final(self).remaining(),
                final(self).beyond(),
            ),
            result is Ok ==> final(self).remaining().len() < old(self).remaining().len(),
    {
        let head: Header = self.read_header()?;
        Ok(self.reader_with_limit(head))
    }

    /// Reads the beginning of a struct of named fields, as
    /// [`Self::deserialize_map`] does.
    pub fn deserialize_struct(&mut self, name: &str) -> (result: Result<usize, Error>)
        ensures
            enters_region(
                result,
                old(self).remaining(),
                old(self).beyond(),
                final(self).remaining(),
                final(self).beyond(),
            ),
            result is Ok ==> final(self).remaining().len() < old(self).remaining().len(),
    {
        self.deserialize_map()
    }

    /// Reads the beginning of an enum value.
    pub fn deserialize_enum(&mut self, name: &str) -> (result: Result<EnumHead, Error>)
        ensures
            left_to_json5(deserialize_enum_spec(old(self).remaining(), old(self).beyond()))
                || match result {
                Ok(head) => deserialize_enum_spec(old(self).remaining(), old(self).beyond())
                    == Ok::<(EnumHeadView, Seq<u8>, Seq<u8>), ErrorView>(
                    (head@, final(self).remaining(), final(self).beyond()),
                ),
                Err(e) => deserialize_enum_spec(old(self).remaining(), old(self).beyond())
                    == Err::<(EnumHeadView, Seq<u8>, Seq<u8>), ErrorView>(e@),
            },
            json5_enum_step(result, old(self).remaining(), final(self).remaining()),
            result matches Ok(EnumHead::Data(outer)) ==> {
                &&& deserialize_enum_spec(old(self).remaining(), old(self).beyond()) matches Ok(
                    (head, _, _),
                )
                &&& head is Data
                &&& outer == old(self).beyond().len()
            },
            result matches Ok(EnumHead::Unit(_)) ==> final(self).beyond() == old(self).beyond(),
            result is Ok ==> final(self).remaining().len() < old(self).remaining().len(),
    {
        let header: Header = self.read_header()?;
        match header.element_type {
            ElementType::Text | ElementType::TextJ | ElementType::Text5 | ElementType::TextRaw => {
                let s: String = self.read_string(header)?;
                Ok(EnumHead::Unit(s))
            },
            ElementType::Object => Ok(EnumHead::Data(self.reader_with_limit(header))),
            other => Err(Error::UnexpectedType(other)),
        }
    }

    /// Ends an enum value that began as an object, after its variant has
    /// been read: nothing may be left of the object, and the region is
    /// widened again.
    pub fn end_enum(&mut self, outer: usize) -> (result: Result<(), Error>)
        ensures
            match result {
                Ok(_) => {
                    &&& old(self).remaining().len() == 0
                    &&& outer <= old(self).beyond().len() ==> {
                        &&& final(self).remaining() == old(self).beyond().take(
                            old(self).beyond().len() - outer,
                        )
                        &&& final(self).beyond() == old(self).beyond().skip(
                            old(self).beyond().len() - outer,
                        )
                    }
                    &&& outer > old(self).beyond().len() ==> *final(self) == *old(self)
                },
                Err(e) => old(self).remaining().len() > 0 && e@ == ErrorView::TrailingCharacters,
            },
    {
        if !self.at_end() {
            return Err(Error::TrailingCharacters);
        }
        let ghost rem = self.remaining();
        self.leave_limit(outer);
        assert(rem + old(self).beyond().take(old(self).beyond().len() - outer) =~= old(
            self,
        ).beyond().take(old(self).beyond().len() - outer));
        Ok(())
    }

    /// Passes over the next element, whatever it is.
    pub fn deserialize_ignored_any(&mut self) -> (result: Result<(), Error>)
        ensures
            match result {
                Ok(_) => {
                    &&& deserialize_ignored_any_spec(old(self).remaining()) matches Ok((_, rest))
                    &&& rest == final(self).remaining()
                },
                Err(e) => deserialize_ignored_any_spec(old(self).remaining()) == Err::<
                    (ElementType, Seq<u8>),
                    ErrorView,
                >(e@),
            },
            result is Ok ==> final(self).beyond() == old(self).beyond(),
            result is Ok ==> final(self).remaining().len() < old(self).remaining().len(),
    {
        let header: Header = self.read_header()?;
        self.drop_payload(header)?;
        Ok(())
    }
}

} // verus!
