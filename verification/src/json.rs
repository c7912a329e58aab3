//! The bridge to the text parsers. The payload of an integer element and of
//! an escaped text element is JSON text (or JSON5 text, for the kinds that
//! say so), and reading it is the parsers' work.
//!
//! What the JSON parser makes of the text of an integer is stated in full:
//! the grammar of a JSON integer is short. What it makes of the text of a
//! string is a function of the text, and has a name here. What the JSON5
//! parser reads is neither: it gives up where too little of the stack is
//! left, so that the same text need not be read the same twice. Nothing is
//! said of its result; what is made of the result is said by the functions
//! that take it as an argument.

use crate::decimal::{decimal, digits, lemma_decimal_injective, lemma_digits_are_digits};
use crate::error::{Error, ErrorView, Json5Error, JsonError};
use vstd::prelude::*;
use vstd::utf8::{decode_utf8, valid_utf8};

verus! {

/// The string that `serde_json` reads `text` as; `None` where it refuses.
pub uninterp spec fn json_string(text: Seq<u8>) -> Option<Seq<char>>;

/// Whether `byte` is one of the blanks that may stand around a JSON value:
/// a space, a line feed, a tab or a carriage return.
pub open spec fn is_blank(byte: u8) -> bool {
    byte == 0x20 || byte == 0x0a || byte == 0x09 || byte == 0x0d
}

/// `text` without the blanks at its beginning.
pub open spec fn without_leading_blanks(text: Seq<u8>) -> Seq<u8>
    decreases text.len(),
{
    if text.len() > 0 && is_blank(text[0]) {
        without_leading_blanks(text.skip(1))
    } else {
        text
    }
}

/// `text` without the blanks at its end.
pub open spec fn without_trailing_blanks(text: Seq<u8>) -> Seq<u8>
    decreases text.len(),
{
    if text.len() > 0 && is_blank(text.last()) {
        without_trailing_blanks(text.drop_last())
    } else {
        text
    }
}

/// `text` without the blanks around it.
pub open spec fn trimmed(text: Seq<u8>) -> Seq<u8> {
    without_trailing_blanks(without_leading_blanks(text))
}

/// Whether `text` is the decimal text of a signed 64-bit integer.
pub open spec fn is_decimal_i64(text: Seq<u8>) -> bool {
    exists|v: i64| text == #[trigger] decimal(v as int)
}

/// Whether `text` is the decimal text of an unsigned 64-bit integer.
pub open spec fn is_decimal_u64(text: Seq<u8>) -> bool {
    exists|v: u64| text == #[trigger] decimal(v as int)
}

/// Calls `serde_json::from_slice` for an `i64`. Trusted: a text is read as
/// a number exactly where, the blanks around it left aside, it is the
/// decimal text of that number (a minus sign where it is negative, then
/// digits without a leading zero: the integer grammar of JSON, in which
/// `-0` is no integer), and the number is one that an `i64` holds.
#[verifier::external_body]
pub(crate) fn parse_json_i64(text: &[u8]) -> (result: Result<i64, JsonError>)
    ensures
        result matches Ok(v) ==> trimmed(text@) == decimal(v as int),
        result is Err ==> !is_decimal_i64(trimmed(text@)),
{
    match serde_json::from_slice::<i64>(text) {
        Ok(v) => Ok(v),
        Err(e) => Err(JsonError { message: e.to_string() }),
    }
}

/// Calls `serde_json::from_slice` for a `u64`. Trusted: a text is read as a
/// number exactly where, the blanks around it left aside, it is the decimal
/// text of that number (digits without a leading zero), and the number is
/// one that a `u64` holds.
#[verifier::external_body]
pub(crate) fn parse_json_u64(text: &[u8]) -> (result: Result<u64, JsonError>)
    ensures
        result matches Ok(v) ==> trimmed(text@) == decimal(v as int),
        result is Err ==> !is_decimal_u64(trimmed(text@)),
{
    match serde_json::from_slice::<u64>(text) {
        Ok(v) => Ok(v),
        Err(e) => Err(JsonError { message: e.to_string() }),
    }
}

/// Calls `serde_json::from_slice` for a `String`. Trusted: the result is the
/// one that `json_string` names.
#[verifier::external_body]
pub(crate) fn parse_json_string(text: &[u8]) -> (result: Result<String, JsonError>)
    ensures
        result matches Ok(s) ==> json_string(text@) == Some(s@),
        result is Err ==> json_string(text@) is None,
{
    match serde_json::from_slice::<String>(text) {
        Ok(s) => Ok(s),
        Err(e) => Err(JsonError { message: e.to_string() }),
    }
}

/// Whether `byte` is one that a string, an array or an object begins with:
/// `"`, `'`, `[` or `{`.
pub open spec fn opens_value(byte: u8) -> bool {
    byte == 0x22 || byte == 0x27 || byte == 0x5b || byte == 0x7b
}

/// Whether `text` may be handed to the JSON5 parser to be read as a number:
/// directly behind a byte that a string, an array or an object begins with
/// stands no character that is not ASCII. Every number is such a text,
/// whatever blanks and comments stand around it.
pub open spec fn may_be_number(text: Seq<u8>) -> bool {
    forall|i: int|
        0 <= i < text.len() - 1 && opens_value(#[trigger] text[i]) ==> text[i + 1] < 128
}

/// Tells whether `text` may be handed to the JSON5 parser to be read as a
/// number.
pub fn is_number_text(text: &[u8]) -> (fit: bool)
    ensures
        fit == may_be_number(text@),
{
    let len: usize = text.len();
    if len == 0 {
        return true;
    }
    let mut i: usize = 0;
    while i < len - 1
        invariant
            len == text@.len(),
            0 < len,
            i < len,
            forall|k: int| 0 <= k < i && opens_value(#[trigger] text@[k]) ==> text@[k + 1] < 128,
        decreases len - i,
    {
        let byte: u8 = text[i];
        if (byte == 0x22 || byte == 0x27 || byte == 0x5b || byte == 0x7b) && text[i + 1] >= 128 {
            return false;
        }
        i = i + 1;
    }
    true
}

/// Calls `serde_json5::from_slice` for an `i64`. Nothing is promised of its
/// result. Asked for a number, the parser looks at the first two bytes of
/// the value that the text holds, and panics where they end inside a
/// character. The second byte of a number is ASCII; that of a string, an
/// array or an object may not be, and such texts are left out.
#[verifier::external_body]
pub(crate) fn parse_json5_i64(text: &[u8]) -> (result: Result<i64, Json5Error>)
    requires
        may_be_number(text@),
{
    match serde_json5::from_slice::<i64>(text) {
        Ok(v) => Ok(v),
        Err(e) => Err(Json5Error { message: e.to_string() }),
    }
}

/// Calls `serde_json5::from_slice` for a `u64`. Nothing is promised of its
/// result. The same texts are left out as for [`parse_json5_i64`].
#[verifier::external_body]
pub(crate) fn parse_json5_u64(text: &[u8]) -> (result: Result<u64, Json5Error>)
    requires
        may_be_number(text@),
{
    match serde_json5::from_slice::<u64>(text) {
        Ok(v) => Ok(v),
        Err(e) => Err(Json5Error { message: e.to_string() }),
    }
}

/// Calls `serde_json5::from_slice` for a `String`. Nothing is promised of
/// its result.
#[verifier::external_body]
pub(crate) fn parse_json5_string(text: &[u8]) -> (result: Result<String, Json5Error>) {
    match serde_json5::from_slice::<String>(text) {
        Ok(s) => Ok(s),
        Err(e) => Err(Json5Error { message: e.to_string() }),
    }
}

/// What the refusal of a text that is not handed to the JSON5 parser says.
pub open spec fn not_ascii_message() -> Seq<char> {
    "a number holds characters that are not ASCII"@
}

/// The refusal of a text that is to be a number in JSON5 and is not handed
/// to the parser: it begins a string, an array or an object with a
/// character that is not ASCII.
fn not_ascii() -> (refusal: Json5Error)
    ensures
        refusal.message@ == not_ascii_message(),
{
    Json5Error { message: "a number holds characters that are not ASCII".to_owned() }
}

/// Hands `text` to the JSON5 parser to read a signed integer. A text that
/// may not be a number (see [`may_be_number`]) is refused here, in the
/// words of [`not_ascii_message`], and not handed on. Of any other text the
/// result is the parser's.
pub fn read_json5_i64(text: &[u8]) -> (result: Result<i64, Json5Error>)
    ensures
        !may_be_number(text@) ==> (result matches Err(refusal) && refusal.message@
            == not_ascii_message()),
{
    if is_number_text(text) {
        parse_json5_i64(text)
    } else {
        Err(not_ascii())
    }
}

/// Hands `text` to the JSON5 parser to read an unsigned integer. A text
/// that may not be a number (see [`may_be_number`]) is refused here, in the
/// words of [`not_ascii_message`], and not handed on. Of any other text the
/// result is the parser's.
pub fn read_json5_u64(text: &[u8]) -> (result: Result<u64, Json5Error>)
    ensures
        !may_be_number(text@) ==> (result matches Err(refusal) && refusal.message@
            == not_ascii_message()),
{
    if is_number_text(text) {
        parse_json5_u64(text)
    } else {
        Err(not_ascii())
    }
}

/// `v`, or the nearer of `min` and `max` where `v` lies outside them.
pub open spec fn clamp(v: int, min: int, max: int) -> int {
    if v < min {
        min
    } else if v > max {
        max
    } else {
        v
    }
}

/// What is made of the JSON5 parser's reading of a signed integer where an
/// integer between `min` and `max` is asked for: a number outside the
/// bounds becomes the nearer bound, and a refusal is handed on.
pub open spec fn json5_signed_spec(outcome: Result<i64, Json5Error>, min: int, max: int) -> Result<
    i64,
    ErrorView,
> {
    match outcome {
        Ok(v) => Ok(clamp(v as int, min, max) as i64),
        Err(_) => Err(ErrorView::Json5Error),
    }
}

/// What is made of the JSON5 parser's reading of an unsigned integer where
/// one of at most `max` is asked for: a greater number becomes `max`, and a
/// refusal is handed on.
pub open spec fn json5_unsigned_spec(outcome: Result<u64, Json5Error>, max: int) -> Result<
    u64,
    ErrorView,
> {
    match outcome {
        Ok(v) => Ok(clamp(v as int, 0, max) as u64),
        Err(_) => Err(ErrorView::Json5Error),
    }
}

/// Makes an integer between `min` and `max` of the JSON5 parser's reading.
pub fn json5_signed(outcome: Result<i64, Json5Error>, min: i64, max: i64) -> (result: Result<
    i64,
    Error,
>)
    requires
        min <= max,
    ensures
        match result {
            Ok(v) => json5_signed_spec(outcome, min as int, max as int) == Ok::<i64, ErrorView>(v),
            Err(e) => json5_signed_spec(outcome, min as int, max as int) == Err::<
                i64,
                ErrorView,
            >(e@),
        },
        result matches Ok(v) ==> min <= v <= max,
{
    match outcome {
        Ok(v) => if v < min {
            Ok(min)
        } else if v > max {
            Ok(max)
        } else {
            Ok(v)
        },
        Err(e) => Err(Error::Json5Error(e)),
    }
}

/// Makes an unsigned integer of at most `max` of the JSON5 parser's reading.
pub fn json5_unsigned(outcome: Result<u64, Json5Error>, max: u64) -> (result: Result<u64, Error>)
    ensures
        match result {
            Ok(v) => json5_unsigned_spec(outcome, max as int) == Ok::<u64, ErrorView>(v),
            Err(e) => json5_unsigned_spec(outcome, max as int) == Err::<u64, ErrorView>(e@),
        },
        result matches Ok(v) ==> v <= max,
{
    match outcome {
        Ok(v) => if v > max {
            Ok(max)
        } else {
            Ok(v)
        },
        Err(e) => Err(Error::Json5Error(e)),
    }
}

/// Makes a string of the JSON5 parser's reading: the string that it read, or
/// its refusal.
pub fn json5_text(outcome: Result<String, Json5Error>) -> (result: Result<String, Error>)
    ensures
        match (outcome, result) {
            (Ok(read), Ok(text)) => text == read,
            (Err(_), Err(e)) => e@ == ErrorView::Json5Error,
            _ => false,
        },
{
    match outcome {
        Ok(text) => Ok(text),
        Err(e) => Err(Error::Json5Error(e)),
    }
}

/// Calls `String::from_utf8`. Trusted: it succeeds on the byte strings that
/// are valid UTF-8, and only on them, and the string then holds the
/// characters that the bytes encode.
#[verifier::external_body]
pub(crate) fn string_from_utf8(bytes: Vec<u8>) -> (result: Result<
    String,
    std::string::FromUtf8Error,
>)
    ensures
        result matches Ok(s) ==> valid_utf8(bytes@) && s@ == decode_utf8(bytes@),
        result is Err ==> !valid_utf8(bytes@),
{
    String::from_utf8(bytes)
}

/// What is read from the payload `text` of a canonical integer element for
/// a signed target: the number whose decimal text it is, the blanks around
/// it left aside; nothing where it is the decimal text of no such number.
pub open spec fn signed_reading(text: Seq<u8>) -> Option<i64> {
    if is_decimal_i64(trimmed(text)) {
        Some(choose|v: i64| trimmed(text) == #[trigger] decimal(v as int))
    } else {
        None
    }
}

/// What is read from the payload `text` of a canonical integer element for
/// an unsigned target: the number whose decimal text it is, the blanks
/// around it left aside; nothing where it is the decimal text of no such
/// number.
pub open spec fn unsigned_reading(text: Seq<u8>) -> Option<u64> {
    if is_decimal_u64(trimmed(text)) {
        Some(choose|v: u64| trimmed(text) == #[trigger] decimal(v as int))
    } else {
        None
    }
}

/// No blank stands at the beginning or at the end of the decimal text of a
/// number.
pub proof fn lemma_decimal_is_trimmed(v: int)
    ensures
        trimmed(decimal(v)) == decimal(v),
{
    let text = decimal(v);
    if v < 0 {
        lemma_digits_are_digits((-v) as nat);
        assert(text[0] == 45);
        assert(text.last() == digits((-v) as nat).last());
    } else {
        lemma_digits_are_digits(v as nat);
    }
    assert(!is_blank(text[0]));
    assert(!is_blank(text.last()));
}

/// The decimal text of a number is read back as that number.
pub proof fn lemma_signed_reading_of_decimal(v: i64)
    ensures
        signed_reading(decimal(v as int)) == Some(v),
{
    let text = decimal(v as int);
    lemma_decimal_is_trimmed(v as int);
    assert(is_decimal_i64(text));
    let w = choose|w: i64| text == #[trigger] decimal(w as int);
    lemma_decimal_injective(v as int, w as int);
}

/// The decimal text of a number is read back as that number.
pub proof fn lemma_unsigned_reading_of_decimal(v: u64)
    ensures
        unsigned_reading(decimal(v as int)) == Some(v),
{
    let text = decimal(v as int);
    lemma_decimal_is_trimmed(v as int);
    assert(is_decimal_u64(text));
    let w = choose|w: u64| text == #[trigger] decimal(w as int);
    lemma_decimal_injective(v as int, w as int);
}

/// Reads the payload of a canonical integer element as a signed integer.
pub fn read_json_i64(text: &[u8]) -> (result: Result<i64, JsonError>)
    ensures
        result matches Ok(v) ==> signed_reading(text@) == Some(v),
        result is Err ==> signed_reading(text@) is None,
{
    let result = parse_json_i64(text);
    proof {
        if let Ok(v) = result {
            assert(is_decimal_i64(trimmed(text@)));
            let w = choose|w: i64| trimmed(text@) == #[trigger] decimal(w as int);
            lemma_decimal_injective(v as int, w as int);
        }
    }
    result
}

/// Reads the payload of a canonical integer element as an unsigned integer.
pub fn read_json_u64(text: &[u8]) -> (result: Result<u64, JsonError>)
    ensures
        result matches Ok(v) ==> unsigned_reading(text@) == Some(v),
        result is Err ==> unsigned_reading(text@) is None,
{
    let result = parse_json_u64(text);
    proof {
        if let Ok(v) = result {
            assert(is_decimal_u64(trimmed(text@)));
            let w = choose|w: u64| trimmed(text@) == #[trigger] decimal(w as int);
            lemma_decimal_injective(v as int, w as int);
        }
    }
    result
}

} // verus!
