//! A codec between structured values and SQLite's JSONB: a self-describing,
//! length-prefixed binary form of JSON values.
//!
//! Every element of the encoding is a header, which gives the type of the
//! element and the length of its payload, followed by the payload. The
//! payload of an array or an object is made of further elements.
//!
//! - [`header`] holds the element types and the header format, with its
//!   laws.
//! - [`ser`] is the encoder and [`de`] the decoder. Both work element by
//!   element, so that a caller can drive them from any traversal of its own
//!   data.
//! - [`value`] and [`shape`] hold whole values as trees: [`to_vec`] writes
//!   one, and [`from_slice`] reads one that has a declared shape.
//! - [`stream`] tells how much to read of a stream that holds one element.
//! - [`laws`] states what holds of encoding and decoding together.
//! - [`json`] is the bridge to the JSON and JSON5 text parsers, which read
//!   the payloads of integers and of escaped strings. What the JSON parser
//!   returns is taken on trust; of what the JSON5 parser returns nothing is
//!   claimed.
//! - [`decimal`] and [`endian`] hold numbers as text and as bytes.
//!
//! Floating-point numbers are never computed with: the encoder is given the
//! bits and the decimal text of a number, and the decoder hands back the
//! text or the bits that it finds.

pub mod de;
pub mod decimal;
pub mod endian;
pub mod error;
pub mod header;
pub mod json;
pub mod laws;
pub mod ser;
pub mod shape;
pub mod stream;
pub mod value;

pub use crate::de::{Deserializer, EnumHead, FloatRepr, Found};
pub use crate::error::{Error, IoError, Json5Error, JsonError};
pub use crate::header::{header_len, is_jsonb, ElementType, Header};
pub use crate::ser::{EnumVariantSerializer, JsonbWriter, Options, Serializer};
pub use crate::shape::{from_slice, Shape};
pub use crate::stream::StreamDecoder;
pub use crate::value::{to_vec, to_vec_with_options, Value};
