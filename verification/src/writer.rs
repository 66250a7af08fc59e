//! Writing a database: one pass over it, in the order of the layout.

use vstd::prelude::*;
use crate::error::WriteError;
use crate::int32::write_i32;
use crate::layout::{
    collection_texts_fit, counts_fit, encode_collection, encode_collections, encode_database,
    encode_hashes, texts_fit, write_error,
};
use crate::model::{Collection, Database};
use crate::string_codec;
use crate::string_codec::text_fits;
use crate::uleb128::MAX_LENGTH;

verus! {

/// The largest count that a 32-bit signed field declares.
pub const MAX_COUNT: usize = 0x7fff_ffff;

/// Whether a reader takes back what the string codec gives for `text`.
fn text_is_short(text: &Option<String>) -> (b: bool)
    ensures
        b == text_fits(text.deep_view()),
{
    match text {
        None => true,
        Some(s) => s.as_str().as_bytes().len() <= MAX_LENGTH,
    }
}

/// Whether a reader takes back every text of `c`.
fn texts_are_short(c: &Collection) -> (b: bool)
    ensures
        b == collection_texts_fit(c@),
{
    if !text_is_short(&c.name) {
        return false;
    }
    let n = c.hashes.len();
    let mut j: usize = 0;
    while j < n
        invariant
            n == c.hashes@.len(),
            j <= n,
            text_fits(c@.name),
            forall|k: int| 0 <= k < j ==> text_fits(#[trigger] c@.hashes[k]),
        decreases n - j,
    {
        if !text_is_short(&c.hashes[j]) {
            assert(!text_fits(c@.hashes[j as int]));
            return false;
        }
        j += 1;
    }
    true
}

/// Why `db` cannot be written, if it cannot: a list with more than `2^31 - 1`
/// entries, or else a text with more than `2^31 - 1` bytes.
pub fn check(db: &Database) -> (r: Option<WriteError>)
    ensures
        r == write_error(db@),
{
    let n = db.collections.len();
    if n > MAX_COUNT {
        return Some(WriteError::CountOverflow);
    }
    let mut i: usize = 0;
    while i < n
        invariant
            n == db.collections@.len(),
            n <= MAX_COUNT,
            i <= n,
            forall|k: int| 0 <= k < i ==> (#[trigger] db@.collections[k]).hashes.len() <= i32::MAX,
        decreases n - i,
    {
        if db.collections[i].hashes.len() > MAX_COUNT {
            assert(db@.collections[i as int].hashes.len() > i32::MAX);
            return Some(WriteError::CountOverflow);
        }
        i += 1;
    }
    assert(counts_fit(db@));
    let mut i: usize = 0;
    while i < n
        invariant
            n == db.collections@.len(),
            i <= n,
            counts_fit(db@),
            forall|k: int| 0 <= k < i ==> collection_texts_fit(#[trigger] db@.collections[k]),
        decreases n - i,
    {
        if !texts_are_short(&db.collections[i]) {
            assert(!collection_texts_fit(db@.collections[i as int]));
            return Some(WriteError::LengthOverflow);
        }
        i += 1;
    }
    assert(texts_fit(db@));
    None
}

/// Appends the encoding of `c` to `sink`.
fn write_collection(c: &Collection, sink: &mut Vec<u8>)
    requires
        c@.hashes.len() <= i32::MAX,
    ensures
        final(sink)@ == old(sink)@ + encode_collection(c@),
{
    string_codec::write(&c.name, sink);
    let n = c.hashes.len();
    write_i32(n as i32, sink);
    let ghost start = sink@;
    let mut j: usize = 0;
    while j < n
        invariant
            n == c.hashes@.len(),
            j <= n,
            sink@ == start + encode_hashes(c@.hashes.take(j as int)),
        decreases n - j,
    {
        let ghost before = sink@;
        string_codec::write(&c.hashes[j], sink);
        proof {
            let next = c@.hashes.take(j + 1);
            assert(next.drop_last() =~= c@.hashes.take(j as int));
            assert(next.last() == c.hashes@[j as int].deep_view());
            assert(sink@ =~= start + encode_hashes(next));
        }
        j += 1;
    }
    proof {
        assert(c@.hashes.take(n as int) =~= c@.hashes);
        assert(encode_hashes(c@.hashes.take(0)) =~= Seq::<u8>::empty());
        assert(sink@ =~= old(sink)@ + encode_collection(c@));
    }
}

/// Appends the encoding of `db` to `sink`, or leaves `sink` as it is and says
/// why `db` has no encoding.
pub fn write(db: &Database, sink: &mut Vec<u8>) -> (r: Result<(), WriteError>)
    ensures
        match r {
            Ok(()) => write_error(db@) is None && final(sink)@ == old(sink)@ + encode_database(
                db@,
            ),
            Err(e) => write_error(db@) == Some(e) && final(sink)@ == old(sink)@,
        },
{
    match check(db) {
        Some(e) => {
            return Err(e);
        },
        None => {},
    }
    let n = db.collections.len();
    write_i32(db.version, sink);
    write_i32(n as i32, sink);
    let ghost start = sink@;
    let mut i: usize = 0;
    while i < n
        invariant
            n == db.collections@.len(),
            i <= n,
            counts_fit(db@),
            sink@ == start + encode_collections(db@.collections.take(i as int)),
        decreases n - i,
    {
        assert(db@.collections[i as int].hashes.len() <= i32::MAX);
        write_collection(&db.collections[i], sink);
        proof {
            let next = db@.collections.take(i + 1);
            assert(next.drop_last() =~= db@.collections.take(i as int));
            assert(next.last() == db.collections@[i as int]@);
            assert(sink@ =~= start + encode_collections(next));
        }
        i += 1;
    }
    proof {
        assert(db@.collections.take(n as int) =~= db@.collections);
        assert(encode_collections(db@.collections.take(0)) =~= Seq::<u8>::empty());
        assert(sink@ =~= old(sink)@ + encode_database(db@));
    }
    Ok(())
}

/// The encoding of `db`: the bytes of the file.
pub fn encode(db: &Database) -> (r: Result<Vec<u8>, WriteError>)
    ensures
        match r {
            Ok(bytes) => write_error(db@) is None && bytes@ == encode_database(db@),
            Err(e) => write_error(db@) == Some(e),
        },
{
    let mut bytes: Vec<u8> = Vec::new();
    match write(db, &mut bytes) {
        Ok(()) => Ok(bytes),
        Err(e) => Err(e),
    }
}

} // verus!
