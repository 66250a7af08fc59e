//! The format's strings: a marker byte, then for a present string its length
//! in UTF-8 bytes as a ULEB128 number and the bytes themselves.
//!
//! Every textual field of the format goes through this module.

use vstd::prelude::*;
use vstd::slice::slice_subrange;
use vstd::utf8::*;
use crate::error::FormatError;
use crate::uleb128;

verus! {

/// The marker of an absent string.
pub const ABSENT: u8 = 0x00;

/// The marker of a present string.
pub const PRESENT: u8 = 0x0b;

/// The encoding of an optional string.
pub open spec fn encode_text(text: Option<Seq<char>>) -> Seq<u8> {
    match text {
        None => seq![ABSENT],
        Some(t) => seq![PRESENT] + uleb128::encode(encode_utf8(t).len()) + encode_utf8(t),
    }
}

/// Reading an optional string from the front of `bytes`: the string and how
/// many bytes it took.
pub open spec fn decode_text(bytes: Seq<u8>) -> Result<(Option<Seq<char>>, nat), FormatError> {
    if bytes.len() == 0 {
        Err(FormatError::UnexpectedEof)
    } else if bytes[0] == ABSENT {
        Ok((None, 1nat))
    } else if bytes[0] != PRESENT {
        Err(FormatError::InvalidStringMarker(bytes[0]))
    } else {
        match uleb128::decode(bytes.skip(1)) {
            Err(e) => Err(e),
            Ok((len, used)) => {
                let start = 1 + used;
                if bytes.len() < start + len {
                    Err(FormatError::UnexpectedEof)
                } else {
                    let body = bytes.subrange(start as int, (start + len) as int);
                    if valid_utf8(body) {
                        Ok((Some(decode_utf8(body)), start + len))
                    } else {
                        Err(FormatError::InvalidUtf8)
                    }
                }
            },
        }
    }
}

/// Whether a reader takes back what `encode_text` gives for `text`: a present
/// string has at most `2^31 - 1` bytes of UTF-8.
pub open spec fn text_fits(text: Option<Seq<char>>) -> bool {
    text matches Some(t) ==> encode_utf8(t).len() <= uleb128::MAX_LENGTH
}

/// An optional string that fits decodes to itself, whatever follows it.
pub proof fn lemma_text_roundtrip(text: Option<Seq<char>>, rest: Seq<u8>)
    requires
        text_fits(text),
    ensures
        decode_text(encode_text(text) + rest) == Ok::<(Option<Seq<char>>, nat), FormatError>(
            (text, encode_text(text).len()),
        ),
{
    let bytes = encode_text(text) + rest;
    match text {
        None => {
            assert(bytes[0] == ABSENT);
        },
        Some(t) => {
            let body = encode_utf8(t);
            let len = uleb128::encode(body.len());
            assert(bytes[0] == PRESENT);
            assert(bytes.skip(1) =~= len + (body + rest));
            uleb128::lemma_roundtrip(body.len(), body + rest);
            assert(bytes.subrange((1 + len.len()) as int, (1 + len.len() + body.len()) as int) =~= body);
            encode_utf8_valid_utf8(t);
            encode_utf8_decode_utf8(t);
        },
    }
}

/// `core::str::Utf8Error`, which `core::str::from_utf8` returns for bytes
/// that are not UTF-8. Nothing is read from it.
#[verifier::external_type_specification]
#[verifier::external_body]
pub struct ExUtf8Error(core::str::Utf8Error);

/// `core::str::from_utf8` accepts exactly the byte sequences that are
/// well-formed UTF-8, and the string it returns is made of the characters
/// that those bytes encode. Assumed, not proved.
pub assume_specification[ core::str::from_utf8 ](v: &[u8]) -> (r: Result<
    &str,
    core::str::Utf8Error,
>)
    ensures
        r is Ok <==> valid_utf8(v@),
        r matches Ok(s) ==> s@ == decode_utf8(v@),
;

/// Appends the encoding of `text` to `sink`.
pub fn write(text: &Option<String>, sink: &mut Vec<u8>)
    ensures
        final(sink)@ == old(sink)@ + encode_text(text.deep_view()),
{
    match text {
        None => {
            sink.push(ABSENT);
            assert(sink@ =~= old(sink)@ + encode_text(text.deep_view()));
        },
        Some(s) => {
            let body = s.as_str().as_bytes();
            sink.push(PRESENT);
            uleb128::write(body.len(), sink);
            sink.extend_from_slice(body);
            assert(sink@ =~= old(sink)@ + encode_text(text.deep_view()));
        },
    }
}

/// The encoding of `text`.
pub fn encode(text: &Option<String>) -> (bytes: Vec<u8>)
    ensures
        bytes@ == encode_text(text.deep_view()),
{
    let mut bytes: Vec<u8> = Vec::new();
    write(text, &mut bytes);
    bytes
}

/// Reads an optional string from the front of `bytes`: the string and how many
/// bytes it took.
pub fn decode(bytes: &[u8]) -> (r: Result<(Option<String>, usize), FormatError>)
    ensures
        match r {
            Ok((text, used)) => decode_text(bytes@) == Ok::<
                (Option<Seq<char>>, nat),
                FormatError,
            >((text.deep_view(), used as nat)) && 1 <= used <= bytes@.len(),
            Err(e) => decode_text(bytes@) == Err::<(Option<Seq<char>>, nat), FormatError>(e),
        },
{
    if bytes.len() == 0 {
        return Err(FormatError::UnexpectedEof);
    }
    let marker: u8 = bytes[0];
    if marker == ABSENT {
        return Ok((None, 1));
    }
    if marker != PRESENT {
        return Err(FormatError::InvalidStringMarker(marker));
    }
    let after_marker = slice_subrange(bytes, 1, bytes.len());
    assert(after_marker@ =~= bytes@.skip(1));
    match uleb128::read(after_marker) {
        Err(e) => Err(e),
        Ok((len, used)) => {
            let start: usize = 1 + used;
            if bytes.len() - start < len {
                return Err(FormatError::UnexpectedEof);
            }
            let body = slice_subrange(bytes, start, start + len);
            match core::str::from_utf8(body) {
                Ok(s) => Ok((Some(s.to_owned()), start + len)),
                Err(_) => Err(FormatError::InvalidUtf8),
            }
        },
    }
}

} // verus!
