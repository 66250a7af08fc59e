//! The closed sets of failures that the library reports.

use vstd::prelude::*;

verus! {

/// Why a byte stream is not a collection database.
#[derive(Debug, Clone, Copy, PartialEq, Eq)]
pub enum FormatError {
    /// The stream ends inside a field.
    UnexpectedEof,
    /// A string starts with a byte that is neither `0x00` nor `0x0b`.
    InvalidStringMarker(u8),
    /// A string length runs over five bytes or is above `2^31 - 1`.
    LengthOverflow,
    /// The bytes of a string are not UTF-8.
    InvalidUtf8,
    /// Strict reading only: bytes follow the last declared item.
    TrailingBytes,
}

/// A format error and where in the bytes it was met.
#[derive(Debug, Clone, Copy, PartialEq, Eq)]
pub struct ReadError {
    /// What is wrong.
    pub kind: FormatError,
    /// The offset at which the field that cannot be read starts.
    pub offset: usize,
}

/// Why a string was not accepted as a checksum.
#[derive(Debug, PartialEq, Eq)]
pub enum ValidationError {
    /// The string, which is not 32 lowercase hexadecimal characters.
    MalformedChecksum(String),
}

impl ValidationError {
    /// The string that was not accepted.
    pub open spec fn text(self) -> Seq<char> {
        match self {
            ValidationError::MalformedChecksum(s) => s@,
        }
    }

    /// The string that was not accepted.
    pub fn rejected(&self) -> (s: &str)
        ensures
            s@ == self.text(),
    {
        match self {
            ValidationError::MalformedChecksum(s) => s.as_str(),
        }
    }
}

/// Why a database has no encoding.
#[derive(Debug, Clone, Copy, PartialEq, Eq)]
pub enum WriteError {
    /// A list has more entries than a 32-bit signed count can hold.
    CountOverflow,
    /// A string has more UTF-8 bytes than a reader accepts.
    LengthOverflow,
}

} // verus!
