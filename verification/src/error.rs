//! The errors of encoding and decoding.

use crate::header::ElementType;
use vstd::prelude::*;
use vstd::std_specs::convert::FromSpecImpl;

verus! {

/// The refusal of a payload that is to be JSON text: what the parser said of
/// it, or that it is a number which the integer type asked for cannot hold.
#[derive(Debug)]
pub struct JsonError {
    pub message: String,
}

/// The refusal of a payload that is to be JSON5 text: what the parser said
/// of it.
#[derive(Debug)]
pub struct Json5Error {
    pub message: String,
}

/// The error of `String::from_utf8`.
#[verifier::external_type_specification]
#[verifier::external_body]
pub struct ExFromUtf8Error(std::string::FromUtf8Error);

/// Why the input could not be read.
#[derive(Debug, Clone, Copy, PartialEq, Eq, Structural)]
pub enum IoError {
    /// The input ends inside a header or a payload.
    UnexpectedEof,
}

/// An error that encoding or decoding can end with.
#[derive(Debug)]
pub enum Error {
    /// A failure described in words.
    Message(String),
    /// The JSON text parser refused a payload.
    JsonError(JsonError),
    /// The JSON5 text parser refused a payload.
    Json5Error(Json5Error),
    /// A number that is no element type code.
    InvalidElementType(u8),
    /// An element of a type that cannot stand where it was found.
    UnexpectedType(ElementType),
    /// The input ended too early.
    Io(IoError),
    /// Bytes are left after the value.
    TrailingCharacters,
    /// A text payload is not valid UTF-8.
    Utf8(std::string::FromUtf8Error),
    /// No header byte is left: at top level there is nothing to decode, inside
    /// a container the elements have all been read.
    Empty,
}

/// What an [`Error`] says, without the values that the text parsers and the
/// standard library attach to it.
pub enum ErrorView {
    Message(Seq<char>),
    JsonError,
    Json5Error,
    InvalidElementType(u8),
    UnexpectedType(ElementType),
    Io(IoError),
    TrailingCharacters,
    Utf8,
    Empty,
}

impl View for Error {
    type V = ErrorView;

    open spec fn view(&self) -> ErrorView {
        match self {
            Error::Message(m) => ErrorView::Message(m@),
            Error::JsonError(_) => ErrorView::JsonError,
            Error::Json5Error(_) => ErrorView::Json5Error,
            Error::InvalidElementType(c) => ErrorView::InvalidElementType(*c),
            Error::UnexpectedType(t) => ErrorView::UnexpectedType(*t),
            Error::Io(e) => ErrorView::Io(*e),
            Error::TrailingCharacters => ErrorView::TrailingCharacters,
            Error::Utf8(_) => ErrorView::Utf8,
            Error::Empty => ErrorView::Empty,
        }
    }
}

impl From<JsonError> for Error {
    fn from(err: JsonError) -> (ret: Error) {
        Error::JsonError(err)
    }
}

impl FromSpecImpl<JsonError> for Error {
    open spec fn obeys_from_spec() -> bool {
        true
    }

    open spec fn from_spec(err: JsonError) -> Error {
        Error::JsonError(err)
    }
}

impl From<Json5Error> for Error {
    fn from(err: Json5Error) -> (ret: Error) {
        Error::Json5Error(err)
    }
}

impl FromSpecImpl<Json5Error> for Error {
    open spec fn obeys_from_spec() -> bool {
        true
    }

    open spec fn from_spec(err: Json5Error) -> Error {
        Error::Json5Error(err)
    }
}

impl From<std::string::FromUtf8Error> for Error {
    fn from(err: std::string::FromUtf8Error) -> (ret: Error) {
        Error::Utf8(err)
    }
}

impl FromSpecImpl<std::string::FromUtf8Error> for Error {
    open spec fn obeys_from_spec() -> bool {
        true
    }

    open spec fn from_spec(err: std::string::FromUtf8Error) -> Error {
        Error::Utf8(err)
    }
}

impl From<IoError> for Error {
    fn from(err: IoError) -> (ret: Error) {
        Error::Io(err)
    }
}

impl FromSpecImpl<IoError> for Error {
    open spec fn obeys_from_spec() -> bool {
        true
    }

    open spec fn from_spec(err: IoError) -> Error {
        Error::Io(err)
    }
}

/// The character of the decimal digit `d`.
pub open spec fn digit_char(d: int) -> char {
    if d == 0 {
        '0'
    } else if d == 1 {
        '1'
    } else if d == 2 {
        '2'
    } else if d == 3 {
        '3'
    } else if d == 4 {
        '4'
    } else if d == 5 {
        '5'
    } else if d == 6 {
        '6'
    } else if d == 7 {
        '7'
    } else if d == 8 {
        '8'
    } else {
        '9'
    }
}

/// A number below 256 in decimal digits, without leading zeros.
pub open spec fn code_text(code: u8) -> Seq<char> {
    if code >= 100 {
        seq![digit_char(code as int / 100), digit_char(code as int / 10 % 10), digit_char(code as int % 10)]
    } else if code >= 10 {
        seq![digit_char(code as int / 10), digit_char(code as int % 10)]
    } else {
        seq![digit_char(code as int)]
    }
}

/// The name of an element type.
pub open spec fn element_name(element_type: ElementType) -> Seq<char> {
    match element_type {
        ElementType::Null => "Null"@,
        ElementType::True => "True"@,
        ElementType::False => "False"@,
        ElementType::Int => "Int"@,
        ElementType::Int5 => "Int5"@,
        ElementType::Float => "Float"@,
        ElementType::Float5 => "Float5"@,
        ElementType::Text => "Text"@,
        ElementType::TextJ => "TextJ"@,
        ElementType::Text5 => "Text5"@,
        ElementType::TextRaw => "TextRaw"@,
        ElementType::Array => "Array"@,
        ElementType::Object => "Object"@,
        ElementType::Reserved13 => "Reserved13"@,
        ElementType::Reserved14 => "Reserved14"@,
        ElementType::BinaryFloat => "BinaryFloat"@,
    }
}

/// What an error says to a reader.
pub open spec fn message(error: ErrorView) -> Seq<char> {
    match error {
        ErrorView::Message(m) => m,
        ErrorView::JsonError => "json error"@,
        ErrorView::Json5Error => "json5 error"@,
        ErrorView::InvalidElementType(code) => code_text(code)
            + " is not a valid jsonb element type code"@,
        ErrorView::UnexpectedType(t) => "unexpected type: "@ + element_name(t),
        ErrorView::Io(_) => "io error"@,
        ErrorView::TrailingCharacters => "trailing data after the end of the jsonb value"@,
        ErrorView::Utf8 => "invalid utf8 in string"@,
        ErrorView::Empty => "empty jsonb value"@,
    }
}

/// The text of one decimal digit.
fn digit_text(d: u8) -> (text: &'static str)
    requires
        d < 10,
    ensures
        text@ == seq![digit_char(d as int)],
{
    proof {
        reveal_strlit("0");
        reveal_strlit("1");
        reveal_strlit("2");
        reveal_strlit("3");
        reveal_strlit("4");
        reveal_strlit("5");
        reveal_strlit("6");
        reveal_strlit("7");
        reveal_strlit("8");
        reveal_strlit("9");
    }
    let text: &'static str = if d == 0 {
        "0"
    } else if d == 1 {
        "1"
    } else if d == 2 {
        "2"
    } else if d == 3 {
        "3"
    } else if d == 4 {
        "4"
    } else if d == 5 {
        "5"
    } else if d == 6 {
        "6"
    } else if d == 7 {
        "7"
    } else if d == 8 {
        "8"
    } else {
        "9"
    };
    assert(text@ =~= seq![digit_char(d as int)]);
    text
}

/// The name of an element type.
fn element_name_text(element_type: ElementType) -> (text: &'static str)
    ensures
        text@ == element_name(element_type),
{
    match element_type {
        ElementType::Null => "Null",
        ElementType::True => "True",
        ElementType::False => "False",
        ElementType::Int => "Int",
        ElementType::Int5 => "Int5",
        ElementType::Float => "Float",
        ElementType::Float5 => "Float5",
        ElementType::Text => "Text",
        ElementType::TextJ => "TextJ",
        ElementType::Text5 => "Text5",
        ElementType::TextRaw => "TextRaw",
        ElementType::Array => "Array",
        ElementType::Object => "Object",
        ElementType::Reserved13 => "Reserved13",
        ElementType::Reserved14 => "Reserved14",
        ElementType::BinaryFloat => "BinaryFloat",
    }
}

impl Error {
    /// What the error says to a reader.
    pub fn to_string(&self) -> (text: String)
        ensures
            text@ == message(self@),
    {
        match self {
            Error::Message(m) => m.clone(),
            Error::JsonError(_) => "json error".to_owned(),
            Error::Json5Error(_) => "json5 error".to_owned(),
            Error::InvalidElementType(code) => {
                let code: u8 = *code;
                let mut text: String = String::new();
                if code >= 100 {
                    text.append(digit_text(code / 100));
                }
                if code >= 10 {
                    text.append(digit_text(code / 10 % 10));
                }
                text.append(digit_text(code % 10));
                assert(text@ =~= code_text(code));
                text.append(" is not a valid jsonb element type code");
                text
            },
            Error::UnexpectedType(t) => {
                let mut text: String = "unexpected type: ".to_owned();
                text.append(element_name_text(*t));
                text
            },
            Error::Io(_) => "io error".to_owned(),
            Error::TrailingCharacters => "trailing data after the end of the jsonb value".to_owned(),
            Error::Utf8(_) => "invalid utf8 in string".to_owned(),
            Error::Empty => "empty jsonb value".to_owned(),
        }
    }
}

} // verus!
