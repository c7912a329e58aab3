//! Decoding from a stream. A stream gives no length: what tells how much to
//! read is the header of the one element that the stream is to hold. The
//! decisions are made here, from the bytes read so far; the reading itself
//! is the caller's.

use crate::de::{left_to_json5, Deserializer};
use crate::error::{Error, ErrorView};
use crate::header::{header_len, is_one_element, wire_header, wire_header_len};
use crate::shape::{from_slice, from_slice_spec, Shape};
use crate::value::{Value, ValueView};
use vstd::prelude::*;

verus! {

/// The number of bytes that are still to be read of the element that
/// `bytes` begins: the first byte where nothing has been read, then the rest
/// of the header, then the rest of the payload, and nothing once the element
/// is complete.
pub open spec fn wanted(bytes: Seq<u8>) -> int {
    if bytes.len() == 0 {
        1
    } else if bytes.len() < wire_header_len(bytes[0]) {
        wire_header_len(bytes[0]) - bytes.len()
    } else if bytes.len() < wire_header_len(bytes[0]) + wire_header(bytes).payload_size {
        wire_header_len(bytes[0]) + wire_header(bytes).payload_size - bytes.len()
    } else {
        0
    }
}

/// Decoding what was read from a stream: the bytes read are decoded as a
/// buffer is, and a stream that then holds more is refused for its trailing
/// data.
pub open spec fn from_stream_spec(shape: Shape, bytes: Seq<u8>, more: bool) -> Result<
    ValueView,
    ErrorView,
> {
    match from_slice_spec(shape, bytes) {
        Ok(value) => if more {
            Err(ErrorView::TrailingCharacters)
        } else {
            Ok(value)
        },
        Err(e) => Err(e),
    }
}

/// Reading as much as is wanted leads to the end of the element: from no
/// byte to the first, from a part of the header to the whole header, and
/// from the header to the whole element, after which nothing is wanted.
pub proof fn lemma_wanted_leads_to_the_end(bytes: Seq<u8>, more: Seq<u8>)
    requires
        more.len() == wanted(bytes),
    ensures
        bytes.len() == 0 ==> (bytes + more).len() == 1,
        0 < bytes.len() < wire_header_len(bytes[0]) ==> (bytes + more).len() == wire_header_len(
            (bytes + more)[0],
        ),
        bytes.len() > 0 && bytes.len() >= wire_header_len(bytes[0]) && wanted(bytes) > 0
            ==> is_one_element(bytes + more),
        is_one_element(bytes) ==> wanted(bytes) == 0,
        is_one_element(bytes + more) ==> wanted(bytes + more) == 0,
{
    let longer = bytes + more;
    if bytes.len() > 0 {
        assert(longer[0] == bytes[0]);
        let head = wire_header_len(bytes[0]);
        if bytes.len() >= head {
            assert(longer.subrange(1, head) =~= bytes.subrange(1, head));
            assert(wire_header(longer) == wire_header(bytes));
        }
    }
}

/// The bytes read so far from a stream that is to hold one element.
#[derive(Debug)]
pub struct StreamDecoder {
    buffer: Vec<u8>,
}

impl View for StreamDecoder {
    type V = Seq<u8>;

    /// The bytes read so far.
    closed spec fn view(&self) -> Seq<u8> {
        self.buffer@
    }
}

impl StreamDecoder {
    /// Nothing has been read yet.
    pub fn new() -> (decoder: StreamDecoder)
        ensures
            decoder@ == Seq::<u8>::empty(),
    {
        StreamDecoder { buffer: Vec::new() }
    }

    /// The number of bytes to read next, or as many of them as a `usize`
    /// counts. It is 0 once the element is complete.
    pub fn wanted(&self) -> (count: usize)
        ensures
            count == if wanted(self@) <= usize::MAX {
                wanted(self@)
            } else {
                usize::MAX as int
            },
    {
        let len: usize = self.buffer.len();
        if len == 0 {
            return 1;
        }
        let head: usize = header_len(self.buffer[0]);
        if len < head {
            return head - len;
        }
        let size: u64 = match Deserializer::from_bytes(self.buffer.as_slice()).read_header() {
            Ok(header) => header.payload_size,
            Err(_) => 0,
        };
        let read: u64 = (len - head) as u64;
        if read >= size {
            0
        } else if size - read > usize::MAX as u64 {
            usize::MAX
        } else {
            (size - read) as usize
        }
    }

    /// Whether one complete element has been read, and nothing more.
    pub fn is_complete(&self) -> (complete: bool)
        ensures
            complete == is_one_element(self@),
    {
        crate::header::is_jsonb(self.buffer.as_slice()).is_ok()
    }

    /// Takes in what was read.
    pub fn push(&mut self, bytes: &[u8])
        ensures
            final(self)@ == old(self)@ + bytes@,
    {
        self.buffer.extend_from_slice(bytes);
    }

    /// The bytes that were read.
    pub fn into_bytes(self) -> (bytes: Vec<u8>)
        ensures
            bytes@ == self@,
    {
        self.buffer
    }

    /// Decodes what was read as one value of shape `shape`. `more` says
    /// whether the stream held more when it was asked after the last byte
    /// that was wanted.
    pub fn finish(self, shape: &Shape, more: bool) -> (result: Result<Value, Error>)
        ensures
            left_to_json5(from_stream_spec(*shape, self@, more)) || match result {
                Ok(value) => from_stream_spec(*shape, self@, more) == Ok::<ValueView, ErrorView>(
                    value@,
                ),
                Err(e) => from_stream_spec(*shape, self@, more) == Err::<ValueView, ErrorView>(
                    e@,
                ),
            },
    {
        let value: Value = from_slice(self.buffer.as_slice(), shape)?;
        if more {
            Err(Error::TrailingCharacters)
        } else {
            Ok(value)
        }
    }
}

} // verus!
