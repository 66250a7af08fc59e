//! The shape of a checksum, and collections built from strings that have it.

use vstd::prelude::*;
use vstd::utf8::{is_ascii_chars, is_ascii_chars_encode_utf8};
use crate::error::ValidationError;
use crate::model::{Collection, CollectionView};

verus! {

/// How many characters a checksum has.
pub const CHECKSUM_LEN: usize = 32;

/// Whether `c` is one of `0` to `9` or `a` to `f`.
pub open spec fn is_hex_digit(c: char) -> bool {
    ('0' <= c && c <= '9') || ('a' <= c && c <= 'f')
}

/// Whether `s` has the shape of a checksum: exactly 32 characters, each a
/// lowercase hexadecimal digit.
pub open spec fn is_checksum(s: Seq<char>) -> bool {
    &&& s.len() == CHECKSUM_LEN
    &&& forall|i: int| 0 <= i < s.len() ==> is_hex_digit(#[trigger] s[i])
}

/// Whether every checksum that `c` holds has the shape of one.
pub open spec fn checksums_valid(c: CollectionView) -> bool {
    forall|j: int|
        0 <= j < c.hashes.len() ==> ((#[trigger] c.hashes[j]) matches Some(s) ==> is_checksum(s))
}

/// The strings of `texts` that have the shape of a checksum, in their order,
/// each as a present checksum.
pub open spec fn accepted(texts: Seq<Seq<char>>) -> Seq<Option<Seq<char>>> {
    texts.filter(|s: Seq<char>| is_checksum(s)).map_values(|s: Seq<char>| Some(s))
}

/// The strings of `texts` that do not have the shape of a checksum, in their
/// order.
pub open spec fn refused(texts: Seq<Seq<char>>) -> Seq<Seq<char>> {
    texts.filter(|s: Seq<char>| !is_checksum(s))
}

/// The strings that `errors` report.
pub open spec fn reported(errors: Seq<ValidationError>) -> Seq<Seq<char>> {
    errors.map_values(|e: ValidationError| e.text())
}

/// Whether `hash` has the shape of a checksum.
pub fn is_valid(hash: &str) -> (b: bool)
    ensures
        b == is_checksum(hash@),
{
    if !hash.is_ascii() {
        return false;
    }
    let bytes = hash.as_bytes();
    proof {
        is_ascii_chars_encode_utf8(hash@);
    }
    if bytes.len() != CHECKSUM_LEN {
        return false;
    }
    let mut i: usize = 0;
    while i < CHECKSUM_LEN
        invariant
            i <= CHECKSUM_LEN,
            bytes@.len() == CHECKSUM_LEN,
            hash@.len() == CHECKSUM_LEN,
            is_ascii_chars(hash@),
            forall|k: int| 0 <= k < hash@.len() ==> (#[trigger] hash@[k]) as u8 == bytes@[k],
            forall|k: int| 0 <= k < i ==> is_hex_digit(#[trigger] hash@[k]),
        decreases CHECKSUM_LEN - i,
    {
        let b: u8 = bytes[i];
        let digit = (0x30 <= b && b <= 0x39) || (0x61 <= b && b <= 0x66);
        assert(digit == is_hex_digit(hash@[i as int]));
        if !digit {
            return false;
        }
        i += 1;
    }
    true
}

/// Accepts `hash` if it has the shape of a checksum, and reports it otherwise.
pub fn validate(hash: &str) -> (r: Result<(), ValidationError>)
    ensures
        match r {
            Ok(()) => is_checksum(hash@),
            Err(e) => !is_checksum(hash@) && e.text() == hash@,
        },
{
    if is_valid(hash) {
        Ok(())
    } else {
        Err(ValidationError::MalformedChecksum(hash.to_owned()))
    }
}

/// Builds a collection from the candidates that have the shape of a checksum,
/// in their order, and reports the others, in their order. A collection
/// without checksums is no error.
pub fn build_collection(name: Option<String>, candidates: Vec<String>) -> (built: (
    Collection,
    Vec<ValidationError>,
))
    ensures
        built.0@.name == name.deep_view(),
        built.0@.hashes == accepted(candidates.deep_view()),
        reported(built.1@) == refused(candidates.deep_view()),
        checksums_valid(built.0@),
{
    let ghost texts = candidates.deep_view();
    let ghost strings = candidates@;
    let mut hashes: Vec<Option<String>> = Vec::new();
    let mut errors: Vec<ValidationError> = Vec::new();
    proof {
        reveal(Seq::filter);
        assert(texts.take(0) =~= Seq::empty());
        assert(hashes.deep_view() =~= accepted(texts.take(0)));
        assert(reported(errors@) =~= refused(texts.take(0)));
    }
    for candidate in it: candidates
        invariant
            it.seq() == strings,
            texts == strings.map_values(|s: String| s@),
            hashes.deep_view() == accepted(texts.take(it.index() as int)),
            reported(errors@) == refused(texts.take(it.index() as int)),
            forall|j: int|
                0 <= j < hashes@.len() ==> ((#[trigger] hashes@[j]) matches Some(s)
                    ==> is_checksum(s@)),
    {
        let ghost i = it.index() as int;
        let ghost front = texts.take(i);
        let ghost next = texts.take(i + 1);
        let ghost old_hashes = hashes.deep_view();
        let ghost old_errors = reported(errors@);
        proof {
            reveal(Seq::filter);
            assert(next.drop_last() =~= front);
            assert(next.last() == candidate@);
        }
        if is_valid(candidate.as_str()) {
            hashes.push(Some(candidate));
            proof {
                assert(hashes.deep_view() =~= old_hashes.push(Some(candidate@)));
                assert(accepted(next) =~= accepted(front).push(Some(candidate@)));
                assert(refused(next) =~= refused(front));
            }
        } else {
            errors.push(ValidationError::MalformedChecksum(candidate));
            proof {
                assert(reported(errors@) =~= old_errors.push(candidate@));
                assert(accepted(next) =~= accepted(front));
                assert(refused(next) =~= refused(front).push(candidate@));
            }
        }
    }
    proof {
        assert(texts.take(strings.len() as int) =~= texts);
        assert(texts =~= candidates.deep_view());
    }
    let collection = Collection { name, hashes };
    proof {
        assert forall|j: int| 0 <= j < collection@.hashes.len() implies ((
        #[trigger] collection@.hashes[j]) matches Some(s) ==> is_checksum(s)) by {
            assert(collection@.hashes[j] == hashes@[j].deep_view());
        }
    }
    (collection, errors)
}

} // verus!
