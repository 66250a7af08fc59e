//! Reading a database back: field by field, in the order of the layout.
//!
//! An error is the first one in the order of the file. `read_prefix` and
//! `read_collection` report it with the offset of the field that gave it.

use vstd::prelude::*;
use vstd::slice::slice_subrange;
use crate::error::{FormatError, ReadError};
use crate::int32::{read_i32, read_u32};
use crate::layout::{
    decode_collection, decode_collections, decode_database, decode_hashes,
    lemma_collections_error_stays, lemma_hashes_error_stays, read_result, read_strict_result,
};
use crate::model::{Collection, CollectionView, Database, DatabaseView};
use crate::string_codec;

verus! {

/// Reads `count` optional strings from the front of `bytes`: the strings and
/// how many bytes they took.
fn read_hashes(bytes: &[u8], count: u32) -> (r: Result<(Vec<Option<String>>, usize), ReadError>)
    ensures
        match r {
            Ok((hashes, used)) => decode_hashes(bytes@, count as nat) == Ok::<
                (Seq<Option<Seq<char>>>, nat),
                (FormatError, nat),
            >((hashes.deep_view(), used as nat)) && used <= bytes@.len(),
            Err(e) => decode_hashes(bytes@, count as nat) == Err::<
                (Seq<Option<Seq<char>>>, nat),
                (FormatError, nat),
            >((e.kind, e.offset as nat)) && e.offset <= bytes@.len(),
        },
{
    let mut hashes: Vec<Option<String>> = Vec::new();
    let mut pos: usize = 0;
    let mut i: u32 = 0;
    assert(hashes.deep_view() =~= Seq::empty());
    while i < count
        invariant
            i <= count,
            pos <= bytes@.len(),
            decode_hashes(bytes@, i as nat) == Ok::<
                (Seq<Option<Seq<char>>>, nat),
                (FormatError, nat),
            >((hashes.deep_view(), pos as nat)),
        decreases count - i,
    {
        let rest = slice_subrange(bytes, pos, bytes.len());
        assert(rest@ =~= bytes@.skip(pos as int));
        match string_codec::decode(rest) {
            Err(kind) => {
                proof {
                    lemma_hashes_error_stays(bytes@, (i + 1) as nat, count as nat);
                }
                return Err(ReadError { kind, offset: pos });
            },
            Ok((hash, used)) => {
                let ghost front = hashes.deep_view();
                hashes.push(hash);
                assert(hashes.deep_view() =~= front.push(hash.deep_view()));
                pos += used;
                i += 1;
            },
        }
    }
    Ok((hashes, pos))
}

/// Reads a collection from the front of `bytes`: the collection and how many
/// bytes it took.
pub fn read_collection(bytes: &[u8]) -> (r: Result<(Collection, usize), ReadError>)
    ensures
        match r {
            Ok((c, used)) => decode_collection(bytes@) == Ok::<
                (CollectionView, nat),
                (FormatError, nat),
            >((c@, used as nat)) && used <= bytes@.len(),
            Err(e) => decode_collection(bytes@) == Err::<
                (CollectionView, nat),
                (FormatError, nat),
            >((e.kind, e.offset as nat)) && e.offset <= bytes@.len(),
        },
{
    let (name, n) = match string_codec::decode(bytes) {
        Ok(pair) => pair,
        Err(kind) => {
            return Err(ReadError { kind, offset: 0 });
        },
    };
    let after_name = slice_subrange(bytes, n, bytes.len());
    assert(after_name@ =~= bytes@.skip(n as int));
    let count = match read_u32(after_name) {
        Ok(count) => count,
        Err(kind) => {
            return Err(ReadError { kind, offset: n });
        },
    };
    let after_count = slice_subrange(bytes, n + 4, bytes.len());
    assert(after_count@ =~= bytes@.skip((n + 4) as int));
    match read_hashes(after_count, count) {
        Ok((hashes, m)) => Ok((Collection { name, hashes }, n + 4 + m)),
        Err(e) => Err(ReadError { kind: e.kind, offset: n + 4 + e.offset }),
    }
}

/// Reads `count` collections from the front of `bytes`: the collections and
/// how many bytes they took.
fn read_collections(bytes: &[u8], count: u32) -> (r: Result<(Vec<Collection>, usize), ReadError>)
    ensures
        match r {
            Ok((collections, used)) => decode_collections(bytes@, count as nat) == Ok::<
                (Seq<CollectionView>, nat),
                (FormatError, nat),
            >((collections@.map_values(|c: Collection| c@), used as nat)) && used <= bytes@.len(),
            Err(e) => decode_collections(bytes@, count as nat) == Err::<
                (Seq<CollectionView>, nat),
                (FormatError, nat),
            >((e.kind, e.offset as nat)) && e.offset <= bytes@.len(),
        },
{
    let mut collections: Vec<Collection> = Vec::new();
    let mut pos: usize = 0;
    let mut i: u32 = 0;
    assert(collections@.map_values(|c: Collection| c@) =~= Seq::empty());
    while i < count
        invariant
            i <= count,
            pos <= bytes@.len(),
            decode_collections(bytes@, i as nat) == Ok::<
                (Seq<CollectionView>, nat),
                (FormatError, nat),
            >((collections@.map_values(|c: Collection| c@), pos as nat)),
        decreases count - i,
    {
        let rest = slice_subrange(bytes, pos, bytes.len());
        assert(rest@ =~= bytes@.skip(pos as int));
        match read_collection(rest) {
            Err(e) => {
                proof {
                    lemma_collections_error_stays(bytes@, (i + 1) as nat, count as nat);
                }
                return Err(ReadError { kind: e.kind, offset: pos + e.offset });
            },
            Ok((c, used)) => {
                let ghost front = collections@.map_values(|c: Collection| c@);
                let ghost view = c@;
                collections.push(c);
                assert(collections@.map_values(|c: Collection| c@) =~= front.push(view));
                pos += used;
                i += 1;
            },
        }
    }
    Ok((collections, pos))
}

/// Reads a database from the front of `source`: the database and how many
/// bytes it took, or the error and the offset of the field that gave it.
pub fn read_prefix(source: &[u8]) -> (r: Result<(Database, usize), ReadError>)
    ensures
        match r {
            Ok((db, used)) => decode_database(source@) == Ok::<
                (DatabaseView, nat),
                (FormatError, nat),
            >((db@, used as nat)) && used <= source@.len(),
            Err(e) => decode_database(source@) == Err::<(DatabaseView, nat), (FormatError, nat)>(
                (e.kind, e.offset as nat),
            ) && e.offset <= source@.len(),
        },
{
    let version = match read_i32(source) {
        Ok(version) => version,
        Err(kind) => {
            return Err(ReadError { kind, offset: 0 });
        },
    };
    let after_version = slice_subrange(source, 4, source.len());
    assert(after_version@ =~= source@.skip(4));
    let count = match read_u32(after_version) {
        Ok(count) => count,
        Err(kind) => {
            return Err(ReadError { kind, offset: 4 });
        },
    };
    let after_count = slice_subrange(source, 8, source.len());
    assert(after_count@ =~= source@.skip(8));
    match read_collections(after_count, count) {
        Ok((collections, n)) => Ok((Database { version, collections }, 8 + n)),
        Err(e) => Err(ReadError { kind: e.kind, offset: 8 + e.offset }),
    }
}

/// Reads a database and leaves unread whatever follows its last declared item.
pub fn read(source: &[u8]) -> (r: Result<Database, FormatError>)
    ensures
        match r {
            Ok(db) => read_result(source@) == Ok::<DatabaseView, FormatError>(db@),
            Err(e) => read_result(source@) == Err::<DatabaseView, FormatError>(e),
        },
{
    match read_prefix(source) {
        Ok((db, _)) => Ok(db),
        Err(e) => Err(e.kind),
    }
}

/// Reads a database and fails with `TrailingBytes` if anything follows its
/// last declared item.
pub fn read_strict(source: &[u8]) -> (r: Result<Database, FormatError>)
    ensures
        match r {
            Ok(db) => read_strict_result(source@) == Ok::<DatabaseView, FormatError>(db@),
            Err(e) => read_strict_result(source@) == Err::<DatabaseView, FormatError>(e),
        },
{
    match read_prefix(source) {
        Ok((db, used)) => {
            if used == source.len() {
                Ok(db)
            } else {
                Err(FormatError::TrailingBytes)
            }
        },
        Err(e) => Err(e.kind),
    }
}

} // verus!
