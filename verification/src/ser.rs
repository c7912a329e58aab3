//! The encoder. Every element is written in three steps: a placeholder of
//! nine bytes is reserved for its header, the payload is written behind it,
//! and the header is then written in its shortest form and the payload moved
//! up against it.

use crate::decimal::{decimal, digits, push_decimal, push_digits};
use crate::endian::{le_bytes, push_le};
use crate::error::Error;
use crate::header::{element, ElementType, Header};
use vstd::prelude::*;
use vstd::string::StringSliceAdditionalSpecFns;
use vstd::utf8::{encode_scalar, encode_utf8};

verus! {

/// The choices that an encoding is made with.
#[derive(Debug, Clone, Copy)]
pub struct Options {
    /// Whether floating-point values are written as IEEE 754 bytes rather
    /// than as decimal text.
    pub binary_float: bool,
}

impl Default for Options {
    fn default() -> (options: Options)
        ensures
            !options.binary_float,
    {
        Options { binary_float: false }
    }
}

/// The nine bytes that are reserved for the header of an element of type
/// `element_type` until its payload has been written: each holds the type
/// in its low four bits, and no length yet.
pub open spec fn placeholder(element_type: ElementType) -> Seq<u8> {
    Seq::new(9, |i: int| element_type.code())
}

/// An element that has been begun in a buffer and not yet finished: the place
/// of its header and its type.
#[derive(Debug)]
pub struct JsonbWriter {
    header_start: usize,
    element_type: ElementType,
}

impl JsonbWriter {
    /// Where in the buffer the element begins.
    pub closed spec fn header_start(&self) -> int {
        self.header_start as int
    }

    /// The type of the element.
    pub closed spec fn element_type(&self) -> ElementType {
        self.element_type
    }

    /// Whether `buffer` holds this element's placeholder.
    pub open spec fn is_open_in(&self, buffer: Seq<u8>) -> bool {
        0 <= self.header_start() && self.header_start() + 9 <= buffer.len()
    }

    /// What `buffer` held before the element was begun.
    pub open spec fn before(&self, buffer: Seq<u8>) -> Seq<u8> {
        buffer.subrange(0, self.header_start())
    }

    /// The payload written so far: what `buffer` holds behind the placeholder.
    pub open spec fn payload(&self, buffer: Seq<u8>) -> Seq<u8> {
        buffer.subrange(self.header_start() + 9, buffer.len() as int)
    }

    /// Begins an element of type `element_type` at the end of `buffer`: nine
    /// placeholder bytes are appended, behind which the payload is to be
    /// written.
    pub fn new(buffer: &mut Vec<u8>, element_type: ElementType) -> (writer: JsonbWriter)
        ensures
            final(buffer)@ == old(buffer)@ + placeholder(element_type),
            writer.header_start() == old(buffer)@.len(),
            writer.element_type() == element_type,
            writer.is_open_in(final(buffer)@),
            writer.before(final(buffer)@) == old(buffer)@,
            writer.payload(final(buffer)@) == Seq::<u8>::empty(),
    {
        let header_start: usize = buffer.len();
        let code: u8 = u8::from(element_type);
        let mut i: usize = 0;
        while i < 9
            invariant
                i <= 9,
                code == element_type.code(),
                header_start == old(buffer)@.len(),
                buffer@ == old(buffer)@ + Seq::new(i as nat, |k: int| code),
            decreases 9 - i,
        {
            buffer.push(code);
            i = i + 1;
            assert(buffer@ =~= old(buffer)@ + Seq::new(i as nat, |k: int| code));
        }
        assert(buffer@ =~= old(buffer)@ + placeholder(element_type));
        assert(buffer@.subrange(0, header_start as int) =~= old(buffer)@);
        assert(buffer@.subrange(header_start + 9, buffer@.len() as int) =~= Seq::<u8>::empty());
        JsonbWriter { header_start, element_type }
    }

    /// Finishes the element: the placeholder gives way to the shortest header
    /// for the payload that was written, and the payload moves up against it.
    pub fn finalize(self, buffer: &mut Vec<u8>)
        requires
            self.is_open_in(old(buffer)@),
        ensures
            final(buffer)@ == self.before(old(buffer)@) + element(
                self.element_type(),
                self.payload(old(buffer)@),
            ),
    {
        let data_end: usize = buffer.len();
        let header_start: usize = self.header_start;
        let data_start: usize = header_start + 9;
        let payload_size: usize = data_end - data_start;
        let header: Vec<u8> = Header {
            element_type: self.element_type,
            payload_size: payload_size as u64,
        }.serialize_minimal();
        let head_len: usize = header.len();
        assert(1 <= head_len <= 9);
        let mut i: usize = 0;
        while i < head_len
            invariant
                i <= head_len <= 9,
                head_len == header@.len(),
                header_start + 9 <= buffer@.len() == data_end,
                buffer@.len() == old(buffer)@.len(),
                forall|k: int| 0 <= k < header_start ==> buffer@[k] == old(buffer)@[k],
                forall|k: int|
                    header_start <= k < header_start + i ==> buffer@[k] == header@[k - header_start],
                forall|k: int|
                    header_start + 9 <= k < buffer@.len() ==> buffer@[k] == old(buffer)@[k],
            decreases head_len - i,
        {
            buffer[header_start + i] = header[i];
            i = i + 1;
        }
        let dest: usize = header_start + head_len;
        if head_len < 9 {
            let mut j: usize = 0;
            while j < payload_size
                invariant
                    j <= payload_size,
                    head_len < 9,
                    head_len == header@.len(),
                    dest == header_start + head_len,
                    data_start == header_start + 9,
                    data_start + payload_size == buffer@.len() == data_end,
                    buffer@.len() == old(buffer)@.len(),
                    forall|k: int| 0 <= k < header_start ==> buffer@[k] == old(buffer)@[k],
                    forall|k: int|
                        header_start <= k < dest ==> buffer@[k] == header@[k - header_start],
                    forall|k: int|
                        dest <= k < dest + j ==> buffer@[k] == old(buffer)@[k + 9 - head_len],
                    forall|k: int|
                        data_start + j <= k < buffer@.len() ==> buffer@[k] == old(buffer)@[k],
                decreases payload_size - j,
            {
                let byte: u8 = buffer[data_start + j];
                buffer[dest + j] = byte;
                j = j + 1;
            }
            buffer.truncate(dest + payload_size);
        }
        assert(buffer@ =~= self.before(old(buffer)@) + element(
            self.element_type(),
            self.payload(old(buffer)@),
        ));
    }
}

/// Appending to a buffer leaves an element that is open in it open, keeps
/// what stood before the element, and adds what was appended to its payload.
pub proof fn lemma_append_to_open(writer: JsonbWriter, buffer: Seq<u8>, more: Seq<u8>)
    requires
        writer.is_open_in(buffer),
    ensures
        writer.is_open_in(buffer + more),
        writer.before(buffer + more) == writer.before(buffer),
        writer.payload(buffer + more) == writer.payload(buffer) + more,
{
    assert(writer.before(buffer + more) =~= writer.before(buffer));
    assert(writer.payload(buffer + more) =~= writer.payload(buffer) + more);
}

/// The payload of the array that a byte string is written as: each byte as
/// an integer element, in order.
pub open spec fn byte_elements(bytes: Seq<u8>) -> Seq<u8>
    decreases bytes.len(),
{
    if bytes.len() == 0 {
        Seq::empty()
    } else {
        byte_elements(bytes.drop_last()) + element(ElementType::Int, digits(bytes.last() as nat))
    }
}

/// Appends the UTF-8 encoding of `c` to `out`: one byte for a character below
/// 0x80, and for any other a leading byte that tells the number of bytes and
/// up to three continuation bytes of six bits each.
pub fn push_char(out: &mut Vec<u8>, c: char)
    ensures
        final(out)@ == old(out)@ + encode_utf8(seq![c]),
{
    let scalar: u32 = c as u32;
    let last: u32 = scalar & 0x3F;
    let second_last: u32 = (scalar >> 6) & 0x3F;
    let third_last: u32 = (scalar >> 12) & 0x3F;
    assert(last < 0x100 && second_last < 0x100 && third_last < 0x100) by (bit_vector)
        requires
            last == scalar & 0x3F,
            second_last == (scalar >> 6) & 0x3F,
            third_last == (scalar >> 12) & 0x3F,
    ;
    if scalar <= 0x7F {
        let only: u32 = scalar & 0x7F;
        assert(only < 0x100) by (bit_vector)
            requires
                only == scalar & 0x7F,
        ;
        out.push(only as u8);
    } else if scalar <= 0x7FF {
        let leading: u32 = (scalar >> 6) & 0x1F;
        assert(leading < 0x100) by (bit_vector)
            requires
                leading == (scalar >> 6) & 0x1F,
        ;
        out.push(0xC0 | leading as u8);
        out.push(0x80 | last as u8);
    } else if scalar <= 0xFFFF {
        let leading: u32 = (scalar >> 12) & 0x0F;
        assert(leading < 0x100) by (bit_vector)
            requires
                leading == (scalar >> 12) & 0x0F,
        ;
        out.push(0xE0 | leading as u8);
        out.push(0x80 | second_last as u8);
        out.push(0x80 | last as u8);
    } else {
        let leading: u32 = (scalar >> 18) & 0x7;
        assert(leading < 0x100) by (bit_vector)
            requires
                leading == (scalar >> 18) & 0x7,
        ;
        out.push(0xF0 | leading as u8);
        out.push(0x80 | third_last as u8);
        out.push(0x80 | second_last as u8);
        out.push(0x80 | last as u8);
    }
    proof {
        reveal_with_fuel(encode_utf8, 2);
        assert(seq![c].drop_first() =~= Seq::<char>::empty());
        assert(encode_utf8(seq![c]) =~= encode_scalar(scalar));
        assert(out@ =~= old(out)@ + encode_scalar(scalar));
    }
}

/// An encoder: the bytes written so far and the choices they are written
/// with.
#[derive(Debug)]
pub struct Serializer {
    buffer: Vec<u8>,
    options: Options,
}

impl View for Serializer {
    type V = Seq<u8>;

    /// The bytes written so far.
    closed spec fn view(&self) -> Seq<u8> {
        self.buffer@
    }
}

impl Serializer {
    /// The choices that this encoder writes with.
    pub closed spec fn options(&self) -> Options {
        self.options
    }

    /// An encoder that has written nothing yet.
    pub fn from_options(options: Options) -> (serializer: Serializer)
        ensures
            serializer@ == Seq::<u8>::empty(),
            serializer.options() == options,
    {
        Serializer { buffer: Vec::new(), options }
    }

    /// The bytes that were written.
    pub fn into_bytes(self) -> (bytes: Vec<u8>)
        ensures
            bytes@ == self@,
    {
        self.buffer
    }

    /// Writes an element without payload: its one header byte.
    pub fn write_header_nodata(&mut self, element_type: ElementType)
        ensures
            final(self)@ == old(self)@ + element(element_type, Seq::empty()),
            final(self).options() == old(self).options(),
    {
        self.buffer.push(u8::from(element_type));
        assert(self.buffer@ =~= old(self)@ + element(element_type, Seq::empty()));
    }

    /// Writes an element whose payload is `data`.
    pub fn write_binary(&mut self, element_type: ElementType, data: &[u8]) -> (result: Result<
        (),
        Error,
    >)
        ensures
            result is Ok,
            final(self)@ == old(self)@ + element(element_type, data@),
            final(self).options() == old(self).options(),
    {
        let writer = JsonbWriter::new(&mut self.buffer, element_type);
        let ghost opened = self.buffer@;
        self.buffer.extend_from_slice(data);
        proof {
            lemma_append_to_open(writer, opened, data@);
        }
        writer.finalize(&mut self.buffer);
        assert(writer.before(opened) + element(element_type, Seq::empty() + data@) =~= old(
            self,
        )@ + element(element_type, data@));
        Ok(())
    }

    /// Writes an element whose payload is `text`, in UTF-8.
    pub fn write_displayable(&mut self, element_type: ElementType, text: &str) -> (result:
        Result<(), Error>)
        ensures
            result is Ok,
            final(self)@ == old(self)@ + element(element_type, text.spec_bytes()),
            final(self).options() == old(self).options(),
    {
        self.write_binary(element_type, text.as_bytes())
    }

    /// Writes a signed integer: an integer element that holds its decimal
    /// text.
    fn write_signed(&mut self, v: i64) -> (result: Result<(), Error>)
        ensures
            result is Ok,
            final(self)@ == old(self)@ + element(ElementType::Int, decimal(v as int)),
            final(self).options() == old(self).options(),
    {
        let writer = JsonbWriter::new(&mut self.buffer, ElementType::Int);
        let ghost opened = self.buffer@;
        push_decimal(&mut self.buffer, v);
        proof {
            lemma_append_to_open(writer, opened, decimal(v as int));
        }
        writer.finalize(&mut self.buffer);
        assert(writer.before(opened) + element(
            ElementType::Int,
            Seq::empty() + decimal(v as int),
        ) =~= old(self)@ + element(ElementType::Int, decimal(v as int)));
        Ok(())
    }

    /// Writes an unsigned integer: an integer element that holds its decimal
    /// text.
    fn write_unsigned(&mut self, v: u64) -> (result: Result<(), Error>)
        ensures
            result is Ok,
            final(self)@ == old(self)@ + element(ElementType::Int, decimal(v as int)),
            final(self).options() == old(self).options(),
    {
        let writer = JsonbWriter::new(&mut self.buffer, ElementType::Int);
        let ghost opened = self.buffer@;
        push_digits(&mut self.buffer, v);
        proof {
            lemma_append_to_open(writer, opened, decimal(v as int));
        }
        writer.finalize(&mut self.buffer);
        assert(writer.before(opened) + element(
            ElementType::Int,
            Seq::empty() + decimal(v as int),
        ) =~= old(self)@ + element(ElementType::Int, decimal(v as int)));
        Ok(())
    }
}

impl Serializer {
    /// Writes a boolean: a `True` or a `False` element, without payload.
    pub fn serialize_bool(&mut self, v: bool) -> (result: Result<(), Error>)
        ensures
            result is Ok,
            final(self)@ == old(self)@ + element(
                if v {
                    ElementType::True
                } else {
                    ElementType::False
                },
                Seq::empty(),
            ),
            final(self).options() == old(self).options(),
    {
        self.write_header_nodata(
            if v {
                ElementType::True
            } else {
                ElementType::False
            },
        );
        Ok(())
    }

    /// Writes an integer as an integer element that holds its decimal text.
    pub fn serialize_i8(&mut self, v: i8) -> (result: Result<(), Error>)
        ensures
            result is Ok,
            final(self)@ == old(self)@ + element(ElementType::Int, decimal(v as int)),
            final(self).options() == old(self).options(),
    {
        self.write_signed(v as i64)
    }

    /// Writes an integer as an integer element that holds its decimal text.
    pub fn serialize_i16(&mut self, v: i16) -> (result: Result<(), Error>)
        ensures
            result is Ok,
            final(self)@ == old(self)@ + element(ElementType::Int, decimal(v as int)),
            final(self).options() == old(self).options(),
    {
        self.write_signed(v as i64)
    }

    /// Writes an integer as an integer element that holds its decimal text.
    pub fn serialize_i32(&mut self, v: i32) -> (result: Result<(), Error>)
        ensures
            result is Ok,
            final(self)@ == old(self)@ + element(ElementType::Int, decimal(v as int)),
            final(self).options() == old(self).options(),
    {
        self.write_signed(v as i64)
    }

    /// Writes an integer as an integer element that holds its decimal text.
    pub fn serialize_i64(&mut self, v: i64) -> (result: Result<(), Error>)
        ensures
            result is Ok,
            final(self)@ == old(self)@ + element(ElementType::Int, decimal(v as int)),
            final(self).options() == old(self).options(),
    {
        self.write_signed(v)
    }

    /// Writes an integer as an integer element that holds its decimal text.
    pub fn serialize_u8(&mut self, v: u8) -> (result: Result<(), Error>)
        ensures
            result is Ok,
            final(self)@ == old(self)@ + element(ElementType::Int, decimal(v as int)),
            final(self).options() == old(self).options(),
    {
        self.write_unsigned(v as u64)
    }

    /// Writes an integer as an integer element that holds its decimal text.
    pub fn serialize_u16(&mut self, v: u16) -> (result: Result<(), Error>)
        ensures
            result is Ok,
            final(self)@ == old(self)@ + element(ElementType::Int, decimal(v as int)),
            final(self).options() == old(self).options(),
    {
        self.write_unsigned(v as u64)
    }

    /// Writes an integer as an integer element that holds its decimal text.
    pub fn serialize_u32(&mut self, v: u32) -> (result: Result<(), Error>)
        ensures
            result is Ok,
            final(self)@ == old(self)@ + element(ElementType::Int, decimal(v as int)),
            final(self).options() == old(self).options(),
    {
        self.write_unsigned(v as u64)
    }

    /// Writes an integer as an integer element that holds its decimal text.
    pub fn serialize_u64(&mut self, v: u64) -> (result: Result<(), Error>)
        ensures
            result is Ok,
            final(self)@ == old(self)@ + element(ElementType::Int, decimal(v as int)),
            final(self).options() == old(self).options(),
    {
        self.write_unsigned(v)
    }

    /// Writes a single-precision number, given by the bits of its IEEE 754
    /// form and by its decimal text: where the binary option is chosen, a
    /// `BinaryFloat` element that holds the four bytes of `bits`, least
    /// significant first; else a `Float` element that holds `text`.
    pub fn serialize_f32(&mut self, bits: u32, text: &str) -> (result: Result<(), Error>)
        ensures
            result is Ok,
            final(self)@ == old(self)@ + if old(self).options().binary_float {
                element(ElementType::BinaryFloat, le_bytes(bits as nat, 4))
            } else {
                element(ElementType::Float, text.spec_bytes())
            },
            final(self).options() == old(self).options(),
    {
        if !self.options.binary_float {
            self.write_displayable(ElementType::Float, text)
        } else {
            let mut bytes: Vec<u8> = Vec::new();
            push_le(&mut bytes, bits as u64, 4);
            assert(bytes@ =~= le_bytes(bits as nat, 4));
            self.write_binary(ElementType::BinaryFloat, bytes.as_slice())
        }
    }

    /// Writes a double-precision number, given by the bits of its IEEE 754
    /// form and by its decimal text: where the binary option is chosen, a
    /// `BinaryFloat` element that holds the eight bytes of `bits`, least
    /// significant first; else a `Float` element that holds `text`.
    pub fn serialize_f64(&mut self, bits: u64, text: &str) -> (result: Result<(), Error>)
        ensures
            result is Ok,
            final(self)@ == old(self)@ + if old(self).options().binary_float {
                element(ElementType::BinaryFloat, le_bytes(bits as nat, 8))
            } else {
                element(ElementType::Float, text.spec_bytes())
            },
            final(self).options() == old(self).options(),
    {
        if !self.options.binary_float {
            self.write_displayable(ElementType::Float, text)
        } else {
            let mut bytes: Vec<u8> = Vec::new();
            push_le(&mut bytes, bits, 8);
            assert(bytes@ =~= le_bytes(bits as nat, 8));
            self.write_binary(ElementType::BinaryFloat, bytes.as_slice())
        }
    }

    /// Writes a character as a raw text element that holds its UTF-8 bytes.
    pub fn serialize_char(&mut self, v: char) -> (result: Result<(), Error>)
        ensures
            result is Ok,
            final(self)@ == old(self)@ + element(ElementType::TextRaw, encode_utf8(seq![v])),
            final(self).options() == old(self).options(),
    {
        let writer = JsonbWriter::new(&mut self.buffer, ElementType::TextRaw);
        let ghost opened = self.buffer@;
        push_char(&mut self.buffer, v);
        proof {
            lemma_append_to_open(writer, opened, encode_utf8(seq![v]));
        }
        writer.finalize(&mut self.buffer);
        assert(writer.before(opened) + element(
            ElementType::TextRaw,
            Seq::empty() + encode_utf8(seq![v]),
        ) =~= old(self)@ + element(ElementType::TextRaw, encode_utf8(seq![v])));
        Ok(())
    }

    /// Writes a string as a raw text element that holds its UTF-8 bytes,
    /// without any escaping.
    pub fn serialize_str(&mut self, v: &str) -> (result: Result<(), Error>)
        ensures
            result is Ok,
            final(self)@ == old(self)@ + element(ElementType::TextRaw, v.spec_bytes()),
            final(self).options() == old(self).options(),
    {
        self.write_displayable(ElementType::TextRaw, v)
    }

    /// Writes a byte string as an array of integer elements, one for each
    /// byte.
    pub fn serialize_bytes(&mut self, v: &[u8]) -> (result: Result<(), Error>)
        ensures
            result is Ok,
            final(self)@ == old(self)@ + element(ElementType::Array, byte_elements(v@)),
            final(self).options() == old(self).options(),
    {
        let writer = JsonbWriter::new(&mut self.buffer, ElementType::Array);
        let ghost opened = self.buffer@;
        let mut i: usize = 0;
        while i < v.len()
            invariant
                i <= v@.len(),
                self.buffer@ == opened + byte_elements(v@.subrange(0, i as int)),
                self.options == old(self).options,
            decreases v@.len() - i,
        {
            assert(v@.subrange(0, i + 1).drop_last() =~= v@.subrange(0, i as int));
            let _ = self.write_unsigned(v[i] as u64);
            i = i + 1;
        }
        proof {
            assert(v@.subrange(0, i as int) =~= v@);
            lemma_append_to_open(writer, opened, byte_elements(v@));
        }
        writer.finalize(&mut self.buffer);
        assert(writer.before(opened) + element(
            ElementType::Array,
            Seq::empty() + byte_elements(v@),
        ) =~= old(self)@ + element(ElementType::Array, byte_elements(v@)));
        Ok(())
    }

    /// Writes an absent optional value: a `Null` element.
    pub fn serialize_none(&mut self) -> (result: Result<(), Error>)
        ensures
            result is Ok,
            final(self)@ == old(self)@ + element(ElementType::Null, Seq::empty()),
            final(self).options() == old(self).options(),
    {
        self.serialize_unit()
    }

    /// Writes the unit value: a `Null` element.
    pub fn serialize_unit(&mut self) -> (result: Result<(), Error>)
        ensures
            result is Ok,
            final(self)@ == old(self)@ + element(ElementType::Null, Seq::empty()),
            final(self).options() == old(self).options(),
    {
        self.write_header_nodata(ElementType::Null);
        Ok(())
    }

    /// Writes a struct without fields: a `Null` element.
    pub fn serialize_unit_struct(&mut self, name: &str) -> (result: Result<(), Error>)
        ensures
            result is Ok,
            final(self)@ == old(self)@ + element(ElementType::Null, Seq::empty()),
            final(self).options() == old(self).options(),
    {
        self.serialize_unit()
    }

    /// Writes an enum variant without data: a raw text element that holds
    /// the variant's name.
    pub fn serialize_unit_variant(&mut self, name: &str, variant_index: u32, variant: &str) -> (result:
        Result<(), Error>)
        ensures
            result is Ok,
            final(self)@ == old(self)@ + element(ElementType::TextRaw, variant.spec_bytes()),
            final(self).options() == old(self).options(),
    {
        self.serialize_str(variant)
    }

    /// Begins a struct that wraps one value. The struct has no element of
    /// its own: nothing is written here, and the wrapped value's own
    /// encoding, which is to follow, is the encoding of the struct.
    pub fn serialize_newtype_struct(&mut self, name: &str) -> (result: Result<(), Error>)
        ensures
            result is Ok,
            final(self)@ == old(self)@,
            final(self).options() == old(self).options(),
    {
        Ok(())
    }

    /// Begins an enum variant with one unnamed field: an object whose one
    /// key is the variant's name. The field's own encoding is to follow, and
    /// then [`JsonbWriter::end`].
    pub fn serialize_newtype_variant(
        &mut self,
        name: &str,
        variant_index: u32,
        variant: &str,
    ) -> (result: Result<JsonbWriter, Error>)
        ensures
            result matches Ok(writer) && {
                &&& writer.element_type() == ElementType::Object
                &&& writer.is_open_in(final(self)@)
                &&& writer.before(final(self)@) == old(self)@
                &&& writer.payload(final(self)@) == element(
                    ElementType::TextRaw,
                    variant.spec_bytes(),
                )
            },
            final(self).options() == old(self).options(),
    {
        let writer = JsonbWriter::new(&mut self.buffer, ElementType::Object);
        let ghost opened = self.buffer@;
        let _ = self.serialize_str(variant);
        proof {
            lemma_append_to_open(
                writer,
                opened,
                element(ElementType::TextRaw, variant.spec_bytes()),
            );
            assert(Seq::<u8>::empty() + element(ElementType::TextRaw, variant.spec_bytes())
                =~= element(ElementType::TextRaw, variant.spec_bytes()));
        }
        Ok(writer)
    }

    /// Begins a sequence: an array, whose elements are to follow, and then
    /// [`JsonbWriter::end`].
    pub fn serialize_seq(&mut self, len: Option<usize>) -> (result: Result<JsonbWriter, Error>)
        ensures
            result matches Ok(writer) && {
                &&& writer.element_type() == ElementType::Array
                &&& writer.is_open_in(final(self)@)
                &&& writer.before(final(self)@) == old(self)@
                &&& writer.payload(final(self)@) == Seq::<u8>::empty()
            },
            final(self).options() == old(self).options(),
    {
        Ok(JsonbWriter::new(&mut self.buffer, ElementType::Array))
    }

    /// Begins a tuple: an array, whose elements are to follow, and then
    /// [`JsonbWriter::end`].
    pub fn serialize_tuple(&mut self, len: usize) -> (result: Result<JsonbWriter, Error>)
        ensures
            result matches Ok(writer) && {
                &&& writer.element_type() == ElementType::Array
                &&& writer.is_open_in(final(self)@)
                &&& writer.before(final(self)@) == old(self)@
                &&& writer.payload(final(self)@) == Seq::<u8>::empty()
            },
            final(self).options() == old(self).options(),
    {
        Ok(JsonbWriter::new(&mut self.buffer, ElementType::Array))
    }

    /// Begins a struct of unnamed fields: an array, whose elements are to
    /// follow, and then [`JsonbWriter::end`].
    pub fn serialize_tuple_struct(&mut self, name: &str, len: usize) -> (result: Result<
        JsonbWriter,
        Error,
    >)
        ensures
            result matches Ok(writer) && {
                &&& writer.element_type() == ElementType::Array
                &&& writer.is_open_in(final(self)@)
                &&& writer.before(final(self)@) == old(self)@
                &&& writer.payload(final(self)@) == Seq::<u8>::empty()
            },
            final(self).options() == old(self).options(),
    {
        self.serialize_tuple(len)
    }

    /// Begins an enum variant with several unnamed fields: an object whose
    /// one key is the variant's name and whose one value is an array. The
    /// fields are to follow, and then [`EnumVariantSerializer::end`].
    pub fn serialize_tuple_variant(
        &mut self,
        name: &str,
        variant_index: u32,
        variant: &str,
        len: usize,
    ) -> (result: Result<EnumVariantSerializer, Error>)
        ensures
            result matches Ok(writer) && {
                &&& writer.inner_type() == ElementType::Array
                &&& writer.is_open_in(final(self)@)
                &&& writer.before(final(self)@) == old(self)@
                &&& writer.key(final(self)@) == element(
                    ElementType::TextRaw,
                    variant.spec_bytes(),
                )
                &&& writer.payload(final(self)@) == Seq::<u8>::empty()
            },
            final(self).options() == old(self).options(),
    {
        Ok(EnumVariantSerializer::new(&mut self.buffer, variant, ElementType::Array))
    }

    /// Begins a map: an object, whose keys and values are to follow in
    /// turn, and then [`JsonbWriter::end`].
    pub fn serialize_map(&mut self, len: Option<usize>) -> (result: Result<JsonbWriter, Error>)
        ensures
            result matches Ok(writer) && {
                &&& writer.element_type() == ElementType::Object
                &&& writer.is_open_in(final(self)@)
                &&& writer.before(final(self)@) == old(self)@
                &&& writer.payload(final(self)@) == Seq::<u8>::empty()
            },
            final(self).options() == old(self).options(),
    {
        Ok(JsonbWriter::new(&mut self.buffer, ElementType::Object))
    }

    /// Begins a struct of named fields: an object, whose field names and
    /// values are to follow in turn, and then [`JsonbWriter::end`].
    pub fn serialize_struct(&mut self, name: &str, len: usize) -> (result: Result<
        JsonbWriter,
        Error,
    >)
        ensures
            result matches Ok(writer) && {
                &&& writer.element_type() == ElementType::Object
                &&& writer.is_open_in(final(self)@)
                &&& writer.before(final(self)@) == old(self)@
                &&& writer.payload(final(self)@) == Seq::<u8>::empty()
            },
            final(self).options() == old(self).options(),
    {
        self.serialize_map(Some(len))
    }

    /// Begins an enum variant with named fields: an object whose one key is
    /// the variant's name and whose one value is an object. The field names
    /// and values are to follow in turn, and then
    /// [`EnumVariantSerializer::end`].
    pub fn serialize_struct_variant(
        &mut self,
        name: &str,
        variant_index: u32,
        variant: &str,
        len: usize,
    ) -> (result: Result<EnumVariantSerializer, Error>)
        ensures
            result matches Ok(writer) && {
                &&& writer.inner_type() == ElementType::Object
                &&& writer.is_open_in(final(self)@)
                &&& writer.before(final(self)@) == old(self)@
                &&& writer.key(final(self)@) == element(
                    ElementType::TextRaw,
                    variant.spec_bytes(),
                )
                &&& writer.payload(final(self)@) == Seq::<u8>::empty()
            },
            final(self).options() == old(self).options(),
    {
        Ok(EnumVariantSerializer::new(&mut self.buffer, variant, ElementType::Object))
    }
}

impl JsonbWriter {
    /// Writes the name of a field, or another key that is a string, into the
    /// object that is being written: a raw text element.
    pub fn serialize_key(&self, serializer: &mut Serializer, key: &str) -> (result: Result<
        (),
        Error,
    >)
        ensures
            result is Ok,
            final(serializer)@ == old(serializer)@ + element(
                ElementType::TextRaw,
                key.spec_bytes(),
            ),
            final(serializer).options() == old(serializer).options(),
    {
        serializer.serialize_str(key)
    }

    /// Whether `serializer` holds this element's placeholder.
    pub fn is_open(&self, serializer: &Serializer) -> (open: bool)
        ensures
            open == self.is_open_in(serializer@),
    {
        self.header_start <= serializer.buffer.len() && serializer.buffer.len()
            - self.header_start >= 9
    }

    /// Finishes the array or object in `serializer`: its header is written
    /// in the shortest form for what was written into it.
    pub fn end(self, serializer: &mut Serializer) -> (result: Result<(), Error>)
        requires
            self.is_open_in(old(serializer)@),
        ensures
            result is Ok,
            final(serializer)@ == self.before(old(serializer)@) + element(
                self.element_type(),
                self.payload(old(serializer)@),
            ),
            final(serializer).options() == old(serializer).options(),
    {
        self.finalize(&mut serializer.buffer);
        Ok(())
    }
}

/// An enum variant with several fields that has been begun and not yet
/// finished. It is written as an object whose one key is the variant's name
/// and whose one value is an array of the fields, or an object of them:
/// `Variant(1, 2)` as `{"Variant": [1, 2]}`, and `Variant { a: 1, b: 2 }` as
/// `{"Variant": {"a": 1, "b": 2}}`. Two elements are open at once: the outer
/// object and the inner array or object.
#[derive(Debug)]
pub struct EnumVariantSerializer {
    map_header_start: usize,
    inner_jsonb_writer: JsonbWriter,
}

impl EnumVariantSerializer {
    /// The outer object.
    pub closed spec fn outer(&self) -> JsonbWriter {
        JsonbWriter { header_start: self.map_header_start, element_type: ElementType::Object }
    }

    /// The inner array or object.
    pub closed spec fn inner(&self) -> JsonbWriter {
        self.inner_jsonb_writer
    }

    /// The type of the inner element.
    pub open spec fn inner_type(&self) -> ElementType {
        self.inner().element_type()
    }

    /// Whether `buffer` holds both placeholders, the outer before the inner.
    pub open spec fn is_open_in(&self, buffer: Seq<u8>) -> bool {
        &&& 0 <= self.outer().header_start()
        &&& self.outer().header_start() + 9 <= self.inner().header_start()
        &&& self.inner().header_start() + 9 <= buffer.len()
    }

    /// What `buffer` held before the variant was begun.
    pub open spec fn before(&self, buffer: Seq<u8>) -> Seq<u8> {
        self.outer().before(buffer)
    }

    /// What stands between the two placeholders: the element of the
    /// variant's name.
    pub open spec fn key(&self, buffer: Seq<u8>) -> Seq<u8> {
        buffer.subrange(self.outer().header_start() + 9, self.inner().header_start())
    }

    /// The fields written so far.
    pub open spec fn payload(&self, buffer: Seq<u8>) -> Seq<u8> {
        self.inner().payload(buffer)
    }

    /// Begins the variant named `variant` at the end of `buffer`: the outer
    /// object, in it the name as a raw text element, and behind that the
    /// inner element of type `inner_element_type`.
    pub fn new(buffer: &mut Vec<u8>, variant: &str, inner_element_type: ElementType) -> (writer:
        EnumVariantSerializer)
        ensures
            final(buffer)@ == old(buffer)@ + placeholder(ElementType::Object) + element(
                ElementType::TextRaw,
                variant.spec_bytes(),
            ) + placeholder(inner_element_type),
            writer.inner_type() == inner_element_type,
            writer.is_open_in(final(buffer)@),
            writer.before(final(buffer)@) == old(buffer)@,
            writer.key(final(buffer)@) == element(ElementType::TextRaw, variant.spec_bytes()),
            writer.payload(final(buffer)@) == Seq::<u8>::empty(),
    {
        let map_jsonb_writer = JsonbWriter::new(buffer, ElementType::Object);
        let ghost opened = buffer@;
        let key_writer = JsonbWriter::new(buffer, ElementType::TextRaw);
        let ghost key_opened = buffer@;
        buffer.extend_from_slice(variant.as_bytes());
        proof {
            lemma_append_to_open(key_writer, key_opened, variant.spec_bytes());
        }
        key_writer.finalize(buffer);
        let ghost key_written = buffer@;
        assert(key_written =~= opened + element(ElementType::TextRaw, variant.spec_bytes()));
        let map_header_start: usize = map_jsonb_writer.header_start;
        let inner_jsonb_writer = JsonbWriter::new(buffer, inner_element_type);
        let writer = EnumVariantSerializer { map_header_start, inner_jsonb_writer };
        proof {
            let key = element(ElementType::TextRaw, variant.spec_bytes());
            assert(inner_jsonb_writer.before(buffer@) == key_written);
            assert(map_jsonb_writer.before(opened) == old(buffer)@);
            assert(opened.len() == map_header_start + 9);
            assert(writer.before(buffer@) =~= key_written.subrange(0, map_header_start as int));
            assert(key_written.subrange(0, map_header_start as int) =~= opened.subrange(
                0,
                map_header_start as int,
            ));
            assert(writer.key(buffer@) =~= key_written.subrange(
                map_header_start + 9,
                key_written.len() as int,
            ));
            assert(key_written.subrange(map_header_start + 9, key_written.len() as int) =~= key);
        }
        writer
    }

    /// Appending to a buffer leaves a variant that is open in it open, keeps
    /// what stood before it and its name, and adds what was appended to its
    /// fields.
    pub proof fn lemma_append_to_open(self, buffer: Seq<u8>, more: Seq<u8>)
        requires
            self.is_open_in(buffer),
        ensures
            self.is_open_in(buffer + more),
            self.before(buffer + more) == self.before(buffer),
            self.key(buffer + more) == self.key(buffer),
            self.payload(buffer + more) == self.payload(buffer) + more,
    {
        assert(self.before(buffer + more) =~= self.before(buffer));
        assert(self.key(buffer + more) =~= self.key(buffer));
        assert(self.payload(buffer + more) =~= self.payload(buffer) + more);
    }

    /// Writes the name of a field into the inner object: a raw text element.
    pub fn serialize_key(&self, serializer: &mut Serializer, key: &str) -> (result: Result<
        (),
        Error,
    >)
        ensures
            result is Ok,
            final(serializer)@ == old(serializer)@ + element(
                ElementType::TextRaw,
                key.spec_bytes(),
            ),
            final(serializer).options() == old(serializer).options(),
    {
        serializer.serialize_str(key)
    }

    /// Whether `serializer` holds both placeholders, the outer before the
    /// inner.
    pub fn is_open(&self, serializer: &Serializer) -> (open: bool)
        ensures
            open == self.is_open_in(serializer@),
    {
        let inner: usize = self.inner_jsonb_writer.header_start;
        self.map_header_start <= inner && inner - self.map_header_start >= 9 && inner
            <= serializer.buffer.len() && serializer.buffer.len() - inner >= 9
    }

    /// Finishes the variant in `serializer`: first the inner element, then
    /// the outer object, whose payload is the name and the inner element.
    pub fn end(self, serializer: &mut Serializer) -> (result: Result<(), Error>)
        requires
            self.is_open_in(old(serializer)@),
        ensures
            result is Ok,
            final(serializer)@ == self.before(old(serializer)@) + element(
                ElementType::Object,
                self.key(old(serializer)@) + element(
                    self.inner_type(),
                    self.payload(old(serializer)@),
                ),
            ),
            final(serializer).options() == old(serializer).options(),
    {
        let inner = JsonbWriter {
            header_start: self.inner_jsonb_writer.header_start,
            element_type: self.inner_jsonb_writer.element_type,
        };
        inner.finalize(&mut serializer.buffer);
        let ghost mid = serializer.buffer@;
        let outer = JsonbWriter {
            header_start: self.map_header_start,
            element_type: ElementType::Object,
        };
        assert(outer.is_open_in(mid));
        assert(outer.before(mid) =~= self.before(old(serializer)@));
        assert(outer.payload(mid) =~= self.key(old(serializer)@) + element(
            self.inner_type(),
            self.payload(old(serializer)@),
        ));
        outer.finalize(&mut serializer.buffer);
        Ok(())
    }
}

} // verus!
