//! The byte layout of a database, and the law that reading undoes writing.
//!
//! A file holds the version, the number of collections and the collections;
//! a collection holds its name, the number of its checksums and the checksums.
//! Numbers are 32-bit little-endian fields, texts go through the string codec.
//! There is no header, no padding and no footer.

use vstd::prelude::*;
use crate::error::FormatError;
use crate::error::WriteError;
use crate::int32::{decode_i32, decode_u32, encode_i32, lemma_i32_roundtrip, lemma_le_roundtrip};
use crate::model::{CollectionView, DatabaseView};
use crate::string_codec::{decode_text, encode_text, lemma_text_roundtrip, text_fits};

verus! {

/// The encodings of `hashes`, one after the other.
pub open spec fn encode_hashes(hashes: Seq<Option<Seq<char>>>) -> Seq<u8>
    decreases hashes.len(),
{
    if hashes.len() == 0 {
        Seq::empty()
    } else {
        encode_hashes(hashes.drop_last()) + encode_text(hashes.last())
    }
}

/// The encoding of a collection.
pub open spec fn encode_collection(c: CollectionView) -> Seq<u8> {
    encode_text(c.name) + encode_i32(c.hashes.len() as int) + encode_hashes(c.hashes)
}

/// The encodings of `collections`, one after the other.
pub open spec fn encode_collections(collections: Seq<CollectionView>) -> Seq<u8>
    decreases collections.len(),
{
    if collections.len() == 0 {
        Seq::empty()
    } else {
        encode_collections(collections.drop_last()) + encode_collection(collections.last())
    }
}

/// The encoding of a database: the whole file.
pub open spec fn encode_database(db: DatabaseView) -> Seq<u8> {
    encode_i32(db.version) + encode_i32(db.collections.len() as int) + encode_collections(
        db.collections,
    )
}

/// Reading `count` optional strings from the front of `bytes`: the strings
/// and how many bytes they took. The first string that fails decides the error,
/// which comes with the offset at which that string starts.
pub open spec fn decode_hashes(bytes: Seq<u8>, count: nat) -> Result<
    (Seq<Option<Seq<char>>>, nat),
    (FormatError, nat),
>
    decreases count,
{
    if count == 0 {
        Ok((Seq::empty(), 0nat))
    } else {
        match decode_hashes(bytes, (count - 1) as nat) {
            Err(failure) => Err(failure),
            Ok((front, used)) => match decode_text(bytes.skip(used as int)) {
                Err(e) => Err((e, used)),
                Ok((hash, n)) => Ok((front.push(hash), used + n)),
            },
        }
    }
}

/// Reading a collection from the front of `bytes`: the collection and how many
/// bytes it took, or the error and the offset of the field that gave it. The
/// count is taken as the unsigned number that its four bytes hold.
pub open spec fn decode_collection(bytes: Seq<u8>) -> Result<
    (CollectionView, nat),
    (FormatError, nat),
> {
    match decode_text(bytes) {
        Err(e) => Err((e, 0nat)),
        Ok((name, n)) => match decode_u32(bytes.skip(n as int)) {
            Err(e) => Err((e, n)),
            Ok(count) => match decode_hashes(bytes.skip((n + 4) as int), count) {
                Err((e, at)) => Err((e, n + 4 + at)),
                Ok((hashes, m)) => Ok((CollectionView { name, hashes }, n + 4 + m)),
            },
        },
    }
}

/// Reading `count` collections from the front of `bytes`: the collections and
/// how many bytes they took. The first collection that fails decides the error
/// and its offset.
pub open spec fn decode_collections(bytes: Seq<u8>, count: nat) -> Result<
    (Seq<CollectionView>, nat),
    (FormatError, nat),
>
    decreases count,
{
    if count == 0 {
        Ok((Seq::empty(), 0nat))
    } else {
        match decode_collections(bytes, (count - 1) as nat) {
            Err(failure) => Err(failure),
            Ok((front, used)) => match decode_collection(bytes.skip(used as int)) {
                Err((e, at)) => Err((e, used + at)),
                Ok((c, n)) => Ok((front.push(c), used + n)),
            },
        }
    }
}

/// Reading a database from the front of `bytes`: the database and how many
/// bytes it took, or the first error in the order of the file and the offset
/// of the field that gave it.
pub open spec fn decode_database(bytes: Seq<u8>) -> Result<
    (DatabaseView, nat),
    (FormatError, nat),
> {
    match decode_i32(bytes) {
        Err(e) => Err((e, 0nat)),
        Ok(version) => match decode_u32(bytes.skip(4)) {
            Err(e) => Err((e, 4nat)),
            Ok(count) => match decode_collections(bytes.skip(8), count) {
                Err((e, at)) => Err((e, 8 + at)),
                Ok((collections, n)) => Ok((DatabaseView { version, collections }, 8 + n)),
            },
        },
    }
}

/// What a tolerant reader makes of `bytes`: bytes after the last declared item
/// are left unread.
pub open spec fn read_result(bytes: Seq<u8>) -> Result<DatabaseView, FormatError> {
    match decode_database(bytes) {
        Err((e, _)) => Err(e),
        Ok((db, _)) => Ok(db),
    }
}

/// What a strict reader makes of `bytes`: bytes after the last declared item
/// are an error.
pub open spec fn read_strict_result(bytes: Seq<u8>) -> Result<DatabaseView, FormatError> {
    match decode_database(bytes) {
        Err((e, _)) => Err(e),
        Ok((db, used)) => if used == bytes.len() {
            Ok(db)
        } else {
            Err(FormatError::TrailingBytes)
        },
    }
}

/// Whether every count of `db` fits the signed 32-bit field that declares it.
pub open spec fn counts_fit(db: DatabaseView) -> bool {
    &&& db.collections.len() <= i32::MAX
    &&& forall|i: int|
        0 <= i < db.collections.len() ==> (#[trigger] db.collections[i]).hashes.len() <= i32::MAX
}

/// Whether a reader takes back every text of `c`.
pub open spec fn collection_texts_fit(c: CollectionView) -> bool {
    &&& text_fits(c.name)
    &&& forall|j: int| 0 <= j < c.hashes.len() ==> text_fits(#[trigger] c.hashes[j])
}

/// Whether a reader takes back every text of `db`.
pub open spec fn texts_fit(db: DatabaseView) -> bool {
    forall|i: int|
        0 <= i < db.collections.len() ==> collection_texts_fit(#[trigger] db.collections[i])
}

/// Why `db` has no encoding, if it has none. Counts are judged before texts.
pub open spec fn write_error(db: DatabaseView) -> Option<WriteError> {
    if !counts_fit(db) {
        Some(WriteError::CountOverflow)
    } else if !texts_fit(db) {
        Some(WriteError::LengthOverflow)
    } else {
        None
    }
}

/// Whether `db` can be written: it is within the invariants of the model, its
/// counts fit their fields and a reader takes back its texts.
pub open spec fn encodable(db: DatabaseView) -> bool {
    &&& i32::MIN <= db.version <= i32::MAX
    &&& write_error(db) is None
}

/// Once one of the first `k` strings has failed, reading more of them fails in
/// the same way.
pub proof fn lemma_hashes_error_stays(bytes: Seq<u8>, k: nat, count: nat)
    requires
        k <= count,
        decode_hashes(bytes, k) is Err,
    ensures
        decode_hashes(bytes, count) == decode_hashes(bytes, k),
    decreases count,
{
    if k < count {
        lemma_hashes_error_stays(bytes, k, (count - 1) as nat);
    }
}

/// Once one of the first `k` collections has failed, reading more of them
/// fails in the same way.
pub proof fn lemma_collections_error_stays(bytes: Seq<u8>, k: nat, count: nat)
    requires
        k <= count,
        decode_collections(bytes, k) is Err,
    ensures
        decode_collections(bytes, count) == decode_collections(bytes, k),
    decreases count,
{
    if k < count {
        lemma_collections_error_stays(bytes, k, (count - 1) as nat);
    }
}

/// Dropping a prefix of a concatenation leaves the rest.
proof fn lemma_skip_prefix(a: Seq<u8>, b: Seq<u8>)
    ensures
        (a + b).skip(a.len() as int) == b,
{
    assert((a + b).skip(a.len() as int) =~= b);
}

/// Concatenation can be regrouped.
proof fn lemma_regroup(a: Seq<u8>, b: Seq<u8>, c: Seq<u8>)
    ensures
        (a + b) + c == a + (b + c),
{
    assert((a + b) + c =~= a + (b + c));
}

/// Checksums that fit are read back as they were written, whatever follows
/// them.
pub proof fn lemma_hashes_roundtrip(hashes: Seq<Option<Seq<char>>>, rest: Seq<u8>)
    requires
        forall|j: int| 0 <= j < hashes.len() ==> text_fits(#[trigger] hashes[j]),
    ensures
        decode_hashes(encode_hashes(hashes) + rest, hashes.len()) == Ok::<
            (Seq<Option<Seq<char>>>, nat),
            (FormatError, nat),
        >((hashes, encode_hashes(hashes).len())),
    decreases hashes.len(),
{
    if hashes.len() > 0 {
        let front = hashes.drop_last();
        let last = hashes.last();
        let head = encode_hashes(front);
        let tail = encode_text(last) + rest;
        let bytes = encode_hashes(hashes) + rest;
        assert(bytes == head + tail) by {
            lemma_regroup(head, encode_text(last), rest);
        }
        assert forall|j: int| 0 <= j < front.len() implies text_fits(#[trigger] front[j]) by {
            assert(front[j] == hashes[j]);
        }
        lemma_hashes_roundtrip(front, tail);
        lemma_skip_prefix(head, tail);
        assert(text_fits(last)) by {
            assert(last == hashes[hashes.len() - 1]);
        }
        lemma_text_roundtrip(last, rest);
        assert(front.push(last) =~= hashes);
        assert((hashes.len() - 1) as nat == front.len());
        assert(decode_hashes(bytes, front.len()) == Ok::<
            (Seq<Option<Seq<char>>>, nat),
            (FormatError, nat),
        >((front, head.len())));
        assert(decode_text(bytes.skip(head.len() as int)) == Ok::<
            (Option<Seq<char>>, nat),
            FormatError,
        >((last, encode_text(last).len())));
    } else {
        assert(hashes =~= Seq::empty());
    }
}

/// A collection whose count and texts fit is read back as it was written,
/// whatever follows it.
pub proof fn lemma_collection_roundtrip(c: CollectionView, rest: Seq<u8>)
    requires
        c.hashes.len() <= i32::MAX,
        collection_texts_fit(c),
    ensures
        decode_collection(encode_collection(c) + rest) == Ok::<(CollectionView, nat), (FormatError, nat)>(
            (c, encode_collection(c).len()),
        ),
{
    let name = encode_text(c.name);
    let count = encode_i32(c.hashes.len() as int);
    let hashes = encode_hashes(c.hashes);
    let bytes = encode_collection(c) + rest;
    assert(bytes == name + (count + (hashes + rest))) by {
        lemma_regroup(name + count, hashes, rest);
        lemma_regroup(name, count, hashes + rest);
    }
    lemma_text_roundtrip(c.name, count + (hashes + rest));
    lemma_skip_prefix(name, count + (hashes + rest));
    lemma_le_roundtrip(c.hashes.len(), hashes + rest);
    assert(bytes.skip((name.len() + 4) as int) == hashes + rest) by {
        lemma_regroup(name, count, hashes + rest);
        lemma_skip_prefix(name + count, hashes + rest);
    }
    lemma_hashes_roundtrip(c.hashes, rest);
    assert(encode_collection(c).len() == name.len() + 4 + hashes.len());
}

/// Collections whose counts and texts fit are read back as they were written,
/// whatever follows them.
pub proof fn lemma_collections_roundtrip(collections: Seq<CollectionView>, rest: Seq<u8>)
    requires
        forall|i: int|
            0 <= i < collections.len() ==> {
                &&& (#[trigger] collections[i]).hashes.len() <= i32::MAX
                &&& collection_texts_fit(collections[i])
            },
    ensures
        decode_collections(encode_collections(collections) + rest, collections.len()) == Ok::<
            (Seq<CollectionView>, nat),
            (FormatError, nat),
        >((collections, encode_collections(collections).len())),
    decreases collections.len(),
{
    if collections.len() > 0 {
        let front = collections.drop_last();
        let last = collections.last();
        let head = encode_collections(front);
        let tail = encode_collection(last) + rest;
        let bytes = encode_collections(collections) + rest;
        assert(bytes == head + tail) by {
            lemma_regroup(head, encode_collection(last), rest);
        }
        assert forall|i: int| 0 <= i < front.len() implies {
            &&& (#[trigger] front[i]).hashes.len() <= i32::MAX
            &&& collection_texts_fit(front[i])
        } by {
            assert(front[i] == collections[i]);
        }
        lemma_collections_roundtrip(front, tail);
        lemma_skip_prefix(head, tail);
        assert(last.hashes.len() <= i32::MAX && collection_texts_fit(last)) by {
            assert(last == collections[collections.len() - 1]);
        }
        lemma_collection_roundtrip(last, rest);
        assert(front.push(last) =~= collections);
        assert((collections.len() - 1) as nat == front.len());
        assert(decode_collections(bytes, front.len()) == Ok::<
            (Seq<CollectionView>, nat),
            (FormatError, nat),
        >((front, head.len())));
        assert(decode_collection(bytes.skip(head.len() as int)) == Ok::<
            (CollectionView, nat),
            (FormatError, nat),
        >((last, encode_collection(last).len())));
    } else {
        assert(collections =~= Seq::empty());
    }
}

/// Reading undoes writing: the encoding of a database that can be written,
/// followed by any bytes, decodes to that database and to the length of the
/// encoding.
pub proof fn lemma_database_roundtrip(db: DatabaseView, rest: Seq<u8>)
    requires
        encodable(db),
    ensures
        decode_database(encode_database(db) + rest) == Ok::<(DatabaseView, nat), (FormatError, nat)>(
            (db, encode_database(db).len()),
        ),
{
    let version = encode_i32(db.version);
    let count = encode_i32(db.collections.len() as int);
    let body = encode_collections(db.collections);
    let bytes = encode_database(db) + rest;
    assert(bytes == version + (count + (body + rest))) by {
        lemma_regroup(version + count, body, rest);
        lemma_regroup(version, count, body + rest);
    }
    lemma_i32_roundtrip(db.version, count + (body + rest));
    lemma_skip_prefix(version, count + (body + rest));
    lemma_le_roundtrip(db.collections.len(), body + rest);
    assert(bytes.skip(8) == body + rest) by {
        lemma_regroup(version, count, body + rest);
        lemma_skip_prefix(version + count, body + rest);
    }
    assert forall|i: int| 0 <= i < db.collections.len() implies {
        &&& (#[trigger] db.collections[i]).hashes.len() <= i32::MAX
        &&& collection_texts_fit(db.collections[i])
    } by {
        assert(counts_fit(db) && texts_fit(db));
    }
    lemma_collections_roundtrip(db.collections, rest);
    assert(encode_database(db).len() == 8 + body.len());
}

/// Reading undoes writing: from the encoding of a database that can be
/// written, both readers return that database, with its order kept and its
/// absent texts apart from its empty ones.
pub proof fn lemma_read_write(db: DatabaseView)
    requires
        encodable(db),
    ensures
        read_result(encode_database(db)) == Ok::<DatabaseView, FormatError>(db),
        read_strict_result(encode_database(db)) == Ok::<DatabaseView, FormatError>(db),
{
    lemma_database_roundtrip(db, Seq::empty());
    assert(encode_database(db) + Seq::<u8>::empty() =~= encode_database(db));
}

/// Bytes after the encoding of a database change nothing for the tolerant
/// reader, and are an error for the strict one.
pub proof fn lemma_trailing_bytes(db: DatabaseView, rest: Seq<u8>)
    requires
        encodable(db),
    ensures
        read_result(encode_database(db) + rest) == Ok::<DatabaseView, FormatError>(db),
        rest.len() > 0 ==> read_strict_result(encode_database(db) + rest) == Err::<
            DatabaseView,
            FormatError,
        >(FormatError::TrailingBytes),
{
    lemma_database_roundtrip(db, rest);
}

/// A database without collections is written as eight bytes: the version and
/// a count of zero.
pub proof fn lemma_empty_database(version: int)
    requires
        i32::MIN <= version <= i32::MAX,
    ensures
        encode_database(DatabaseView { version, collections: Seq::empty() }) == encode_i32(version)
            + seq![0u8, 0u8, 0u8, 0u8],
        encode_database(DatabaseView { version, collections: Seq::empty() }).len() == 8,
{
    let db = DatabaseView { version, collections: Seq::empty() };
    assert(encode_collections(db.collections) =~= Seq::<u8>::empty());
    assert(encode_i32(0) =~= seq![0u8, 0u8, 0u8, 0u8]);
    assert(encode_database(db) =~= encode_i32(version) + seq![0u8, 0u8, 0u8, 0u8]);
}

} // verus!
