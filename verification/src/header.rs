//! The element header: one byte that carries the element type in its low
//! four bits and a length class in its high four bits, followed by up to
//! eight big-endian bytes of payload length.

use crate::endian::{
    be_bytes, be_value, lemma_be_bytes_len, lemma_be_round_trip, lemma_pow256_values, pow256,
    push_be, read_be,
};
use crate::error::Error;
use vstd::prelude::*;
use vstd::std_specs::convert::FromSpecImpl;

verus! {

/// The kind of a JSONB element, as stored in the low four bits of the first
/// header byte.
#[derive(Debug, Clone, Copy, PartialEq, Eq, Structural)]
pub enum ElementType {
    /// The element is a JSON "null".
    Null,
    /// The element is a JSON "true".
    True,
    /// The element is a JSON "false".
    False,
    /// A JSON integer in the canonical RFC 8259 format.
    Int,
    /// A JSON integer that is not in the canonical format.
    Int5,
    /// A JSON floating-point value in the canonical RFC 8259 format.
    Float,
    /// A JSON floating-point value that is not in the canonical format.
    Float5,
    /// A JSON string that contains no escapes.
    Text,
    /// A JSON string that contains RFC 8259 character escapes.
    TextJ,
    /// A JSON string that contains escapes, some of them from JSON5.
    Text5,
    /// A JSON string held as raw UTF-8, to be escaped when written as JSON text.
    TextRaw,
    /// A JSON array.
    Array,
    /// A JSON object.
    Object,
    /// Reserved for future expansion.
    Reserved13,
    /// Reserved for future expansion.
    Reserved14,
    /// An IEEE 754 binary floating-point value, little-endian, of 4 or 8 bytes.
    BinaryFloat,
}

impl ElementType {
    /// The four-bit code of this element type.
    pub open spec fn code(self) -> u8 {
        match self {
            ElementType::Null => 0,
            ElementType::True => 1,
            ElementType::False => 2,
            ElementType::Int => 3,
            ElementType::Int5 => 4,
            ElementType::Float => 5,
            ElementType::Float5 => 6,
            ElementType::Text => 7,
            ElementType::TextJ => 8,
            ElementType::Text5 => 9,
            ElementType::TextRaw => 10,
            ElementType::Array => 11,
            ElementType::Object => 12,
            ElementType::Reserved13 => 13,
            ElementType::Reserved14 => 14,
            ElementType::BinaryFloat => 15,
        }
    }

    /// The element type that a first header byte carries: the one whose code
    /// is the byte's low four bits.
    pub open spec fn of_byte(byte: u8) -> ElementType {
        let low = byte % 16;
        if low == 0 {
            ElementType::Null
        } else if low == 1 {
            ElementType::True
        } else if low == 2 {
            ElementType::False
        } else if low == 3 {
            ElementType::Int
        } else if low == 4 {
            ElementType::Int5
        } else if low == 5 {
            ElementType::Float
        } else if low == 6 {
            ElementType::Float5
        } else if low == 7 {
            ElementType::Text
        } else if low == 8 {
            ElementType::TextJ
        } else if low == 9 {
            ElementType::Text5
        } else if low == 10 {
            ElementType::TextRaw
        } else if low == 11 {
            ElementType::Array
        } else if low == 12 {
            ElementType::Object
        } else if low == 13 {
            ElementType::Reserved13
        } else if low == 14 {
            ElementType::Reserved14
        } else {
            ElementType::BinaryFloat
        }
    }
}

impl From<u8> for ElementType {
    /// Reads the element type out of the low four bits of `value`.
    fn from(value: u8) -> (ret: ElementType) {
        let low: u8 = value & 0x0F;
        assert(low == value % 16) by (bit_vector)
            requires
                low == value & 0x0F,
        ;
        match low {
            0 => ElementType::Null,
            1 => ElementType::True,
            2 => ElementType::False,
            3 => ElementType::Int,
            4 => ElementType::Int5,
            5 => ElementType::Float,
            6 => ElementType::Float5,
            7 => ElementType::Text,
            8 => ElementType::TextJ,
            9 => ElementType::Text5,
            0xA => ElementType::TextRaw,
            0xB => ElementType::Array,
            0xC => ElementType::Object,
            0xD => ElementType::Reserved13,
            0xE => ElementType::Reserved14,
            _ => ElementType::BinaryFloat,
        }
    }
}

impl FromSpecImpl<u8> for ElementType {
    open spec fn obeys_from_spec() -> bool {
        true
    }

    open spec fn from_spec(value: u8) -> ElementType {
        ElementType::of_byte(value)
    }
}

impl From<ElementType> for u8 {
    /// The four-bit code of `value`.
    fn from(value: ElementType) -> (ret: u8) {
        match value {
            ElementType::Null => 0,
            ElementType::True => 1,
            ElementType::False => 2,
            ElementType::Int => 3,
            ElementType::Int5 => 4,
            ElementType::Float => 5,
            ElementType::Float5 => 6,
            ElementType::Text => 7,
            ElementType::TextJ => 8,
            ElementType::Text5 => 9,
            ElementType::TextRaw => 0xA,
            ElementType::Array => 0xB,
            ElementType::Object => 0xC,
            ElementType::Reserved13 => 0xD,
            ElementType::Reserved14 => 0xE,
            ElementType::BinaryFloat => 0xF,
        }
    }
}

impl FromSpecImpl<ElementType> for u8 {
    open spec fn obeys_from_spec() -> bool {
        true
    }

    open spec fn from_spec(value: ElementType) -> u8 {
        value.code()
    }
}

/// Every element type is read back from its own code, whatever the high four
/// bits beside it hold.
pub proof fn lemma_code_round_trip(t: ElementType, class: int)
    requires
        0 <= class <= 15,
    ensures
        t.code() < 16,
        ElementType::of_byte((class * 16 + t.code()) as u8) == t,
{
}

/// The size and type of a JSONB element.
#[derive(Debug, Clone, Copy, PartialEq, Eq, Structural)]
pub struct Header {
    pub element_type: ElementType,
    pub payload_size: u64,
}

/// The number of length bytes that follow a first header byte whose high four
/// bits are `class`: none up to 11, then 1, 2, 4 and 8.
pub open spec fn extra_len(class: int) -> int {
    if class <= 11 {
        0
    } else if class == 12 {
        1
    } else if class == 13 {
        2
    } else if class == 14 {
        4
    } else {
        8
    }
}

/// Whether the header form with length class `class` can carry a payload
/// length of `size`: classes 0 to 11 carry exactly their own number, classes
/// 12 to 15 any length that fits in their 1, 2, 4 or 8 length bytes.
pub open spec fn form_carries(class: int, size: u64) -> bool {
    if 0 <= class <= 11 {
        size == class
    } else {
        12 <= class <= 15 && size < pow256(extra_len(class) as nat)
    }
}

/// The header of an element of type `element_type` with `size` payload
/// bytes, written in the form with length class `class`.
pub open spec fn header_form(element_type: ElementType, size: u64, class: int) -> Seq<u8> {
    seq![(class * 16 + element_type.code()) as u8] + be_bytes(
        size as nat,
        extra_len(class) as nat,
    )
}

/// The length class of the shortest header form that carries `size`.
pub open spec fn minimal_class(size: u64) -> int {
    if size <= 11 {
        size as int
    } else if size <= 0xff {
        12
    } else if size <= 0xffff {
        13
    } else if size <= 0xffff_ffff {
        14
    } else {
        15
    }
}

/// The number of bytes of the shortest header that carries `size`.
pub open spec fn minimal_header_len(size: u64) -> int {
    1 + extra_len(minimal_class(size))
}

/// The shortest header of an element of type `element_type` with `size`
/// payload bytes.
pub open spec fn minimal_header(element_type: ElementType, size: u64) -> Seq<u8> {
    header_form(element_type, size, minimal_class(size))
}

/// One element on the wire: the shortest header that carries the length of
/// `payload`, then `payload` itself.
pub open spec fn element(element_type: ElementType, payload: Seq<u8>) -> Seq<u8> {
    minimal_header(element_type, payload.len() as u64) + payload
}

/// The number of bytes of the header that starts with `first`.
pub open spec fn wire_header_len(first: u8) -> int {
    1 + extra_len(first as int / 16)
}

/// The header that `bytes` start with. It is meaningful where `bytes` holds
/// at least `wire_header_len(bytes[0])` bytes.
pub open spec fn wire_header(bytes: Seq<u8>) -> Header {
    let class = bytes[0] as int / 16;
    Header {
        element_type: ElementType::of_byte(bytes[0]),
        payload_size: if class <= 11 {
            class as u64
        } else {
            be_value(bytes.subrange(1, 1 + extra_len(class))) as u64
        },
    }
}

/// Header minimality: the form that `minimal_class` picks carries the
/// length, and no form that carries the length is shorter.
pub proof fn lemma_minimal_header_is_shortest(element_type: ElementType, size: u64, class: int)
    requires
        form_carries(class, size),
    ensures
        form_carries(minimal_class(size), size),
        minimal_header(element_type, size).len() == minimal_header_len(size),
        header_form(element_type, size, class).len() == 1 + extra_len(class),
        minimal_header(element_type, size).len() <= header_form(element_type, size, class).len(),
{
    lemma_pow256_values();
    lemma_be_bytes_len(size as nat, extra_len(class) as nat);
    lemma_be_bytes_len(size as nat, extra_len(minimal_class(size)) as nat);
}

/// All five header forms read alike: whichever form that carries the length
/// a header is written in, and whatever follows it, the header that is read
/// back has the type and the length that were written, and its length on the
/// wire is that of the form.
pub proof fn lemma_every_form_reads_back(
    element_type: ElementType,
    size: u64,
    class: int,
    rest: Seq<u8>,
)
    requires
        form_carries(class, size),
    ensures
        ({
            let bytes = header_form(element_type, size, class) + rest;
            &&& wire_header_len(bytes[0]) == header_form(element_type, size, class).len()
            &&& wire_header(bytes) == (Header { element_type, payload_size: size })
        }),
{
    let form = header_form(element_type, size, class);
    let bytes = form + rest;
    let extra = extra_len(class);
    lemma_pow256_values();
    lemma_be_bytes_len(size as nat, extra as nat);
    lemma_code_round_trip(element_type, class);
    assert(bytes[0] == (class * 16 + element_type.code()) as u8);
    assert(bytes[0] as int / 16 == class);
    if class > 11 {
        assert(bytes.subrange(1, 1 + extra) =~= be_bytes(size as nat, extra as nat));
        lemma_be_round_trip(size as nat, extra as nat);
    }
}

impl Header {
    /// The header in its longest form: the first byte with all four high bits
    /// set, then the payload length in eight big-endian bytes.
    pub fn serialize(self) -> (s: [u8; 9])
        ensures
            s@ == header_form(self.element_type, self.payload_size, 15),
    {
        let code: u8 = u8::from(self.element_type);
        let first: u8 = code | 0xF0;
        assert(first == 15 * 16 + code) by (bit_vector)
            requires
                code < 16,
                first == code | 0xF0,
        ;
        let mut bytes: Vec<u8> = Vec::new();
        bytes.push(first);
        push_be(&mut bytes, self.payload_size, 8);
        proof {
            lemma_be_bytes_len(self.payload_size as nat, 8);
        }
        let s: [u8; 9] = [
            bytes[0],
            bytes[1],
            bytes[2],
            bytes[3],
            bytes[4],
            bytes[5],
            bytes[6],
            bytes[7],
            bytes[8],
        ];
        assert(s@ =~= bytes@);
        s
    }

    /// The header in its shortest form: one byte for a payload of up to 11
    /// bytes, else the first byte and the payload length in 1, 2, 4 or 8
    /// big-endian bytes, whichever is the fewest that hold it.
    pub fn serialize_minimal(self) -> (bytes: Vec<u8>)
        ensures
            bytes@ == minimal_header(self.element_type, self.payload_size),
            bytes@.len() == minimal_header_len(self.payload_size),
    {
        let code: u8 = u8::from(self.element_type);
        let size: u64 = self.payload_size;
        let (class, width): (u8, u8) = if size <= 11 {
            (size as u8, 0)
        } else if size <= 0xff {
            (12, 1)
        } else if size <= 0xffff {
            (13, 2)
        } else if size <= 0xffff_ffff {
            (14, 4)
        } else {
            (15, 8)
        };
        let first: u8 = (class << 4) | code;
        assert(first == class * 16 + code) by (bit_vector)
            requires
                code < 16,
                class < 16,
                first == (class << 4) | code,
        ;
        let mut bytes: Vec<u8> = Vec::new();
        bytes.push(first);
        push_be(&mut bytes, size, width);
        proof {
            lemma_be_bytes_len(size as nat, width as nat);
            assert(bytes@ =~= minimal_header(self.element_type, size));
        }
        bytes
    }
}

/// The number of bytes of the header that starts with `first_byte`: what a
/// reader of a stream needs to know after the first byte.
pub fn header_len(first_byte: u8) -> (len: usize)
    ensures
        len == wire_header_len(first_byte),
{
    let upper_four_bits: u8 = first_byte >> 4;
    assert(upper_four_bits == first_byte / 16) by (bit_vector)
        requires
            upper_four_bits == first_byte >> 4,
    ;
    if upper_four_bits <= 11 {
        1
    } else if upper_four_bits == 12 {
        2
    } else if upper_four_bits == 13 {
        3
    } else if upper_four_bits == 14 {
        5
    } else {
        9
    }
}

/// The text of the error for a buffer that ends inside its header.
pub open spec fn short_header_message() -> Seq<char> {
    "not enough bytes to for header"@
}

/// The text of the error for a buffer whose length is not the one that its
/// header announces.
pub open spec fn length_mismatch_message() -> Seq<char> {
    "data length does not match header payload size"@
}

/// Whether `data` is one element and nothing else: a complete header whose
/// payload length is exactly the number of bytes that follow it.
pub open spec fn is_one_element(data: Seq<u8>) -> bool {
    &&& data.len() >= 1
    &&& data.len() >= wire_header_len(data[0])
    &&& data.len() == wire_header_len(data[0]) + wire_header(data).payload_size
}

/// Tells whether `data` has the outer shape of one JSONB element, and gives
/// its header. Only the outermost header is looked at: what the payload
/// holds is not examined.
pub fn is_jsonb(data: &[u8]) -> (result: Result<Header, Error>)
    ensures
        match result {
            Ok(header) => is_one_element(data@) && header == wire_header(data@),
            Err(e) => {
                &&& !is_one_element(data@)
                &&& e@ == if data@.len() == 0 {
                    crate::error::ErrorView::Empty
                } else if data@.len() < wire_header_len(data@[0]) {
                    crate::error::ErrorView::Message(short_header_message())
                } else {
                    crate::error::ErrorView::Message(length_mismatch_message())
                }
            },
        },
{
    if data.len() == 0 {
        return Err(Error::Empty);
    }
    let first_byte: u8 = data[0];
    let upper_four_bits: u8 = first_byte >> 4;
    assert(upper_four_bits == first_byte / 16) by (bit_vector)
        requires
            upper_four_bits == first_byte >> 4,
    ;
    let bytes_to_read: usize = if upper_four_bits <= 11 {
        0
    } else if upper_four_bits == 12 {
        1
    } else if upper_four_bits == 13 {
        2
    } else if upper_four_bits == 14 {
        4
    } else {
        8
    };
    let payload_size: u64 = if bytes_to_read == 0 {
        upper_four_bits as u64
    } else {
        if data.len() < 1 + bytes_to_read {
            return Err(Error::Message("not enough bytes to for header".to_owned()));
        }
        let n: u64 = read_be(data, 1, bytes_to_read);
        n
    };
    // Only the length of the rest is held against the header: the elements
    // inside the payload are not walked.
    let rest: usize = data.len() - 1 - bytes_to_read;
    if rest as u64 != payload_size {
        return Err(
            Error::Message("data length does not match header payload size".to_owned()),
        );
    }
    Ok(Header { element_type: ElementType::from(first_byte), payload_size })
}

} // verus!
