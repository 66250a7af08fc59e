//! The database in memory: a version stamp and an ordered list of collections.

use vstd::prelude::*;

verus! {

/// A named, ordered list of checksums.
#[derive(Debug, PartialEq, Eq)]
pub struct Collection {
    /// The label; `None` is not the empty string.
    pub name: Option<String>,
    /// The checksums in import order; a position may hold none.
    pub hashes: Vec<Option<String>>,
}

/// The root of a collection database.
#[derive(Debug, PartialEq, Eq)]
pub struct Database {
    /// The build stamp of the client that the file is for, kept as it is.
    pub version: i32,
    /// The collections in the order of the file.
    pub collections: Vec<Collection>,
}

/// What a `Collection` is, mathematically.
pub struct CollectionView {
    pub name: Option<Seq<char>>,
    pub hashes: Seq<Option<Seq<char>>>,
}

/// What a `Database` is, mathematically.
pub struct DatabaseView {
    pub version: int,
    pub collections: Seq<CollectionView>,
}

impl View for Collection {
    type V = CollectionView;

    open spec fn view(&self) -> CollectionView {
        CollectionView { name: self.name.deep_view(), hashes: self.hashes.deep_view() }
    }
}

impl View for Database {
    type V = DatabaseView;

    open spec fn view(&self) -> DatabaseView {
        DatabaseView {
            version: self.version as int,
            collections: self.collections@.map_values(|c: Collection| c@),
        }
    }
}

impl Collection {
    /// A collection with the given label and checksums, taken as they are.
    pub fn new(name: Option<String>, hashes: Vec<Option<String>>) -> (c: Collection)
        ensures
            c@.name == name.deep_view(),
            c@.hashes == hashes.deep_view(),
    {
        Collection { name, hashes }
    }
}

impl Database {
    /// A database with the given stamp and, for each pair of a label and its
    /// checksums, one collection, in the order given.
    pub fn new(version: i32, collections: Vec<(Option<String>, Vec<Option<String>>)>) -> (db:
        Database)
        ensures
            db@.version == version,
            db@.collections.len() == collections@.len(),
            forall|i: int|
                0 <= i < collections@.len() ==> {
                    &&& (#[trigger] db@.collections[i]).name == collections@[i].0.deep_view()
                    &&& db@.collections[i].hashes == collections@[i].1.deep_view()
                },
    {
        let ghost pairs = collections@;
        let mut built: Vec<Collection> = Vec::new();
        for pair in it: collections
            invariant
                it.seq() == pairs,
                built@.len() == it.index(),
                forall|i: int|
                    0 <= i < built@.len() ==> {
                        &&& (#[trigger] built@[i])@.name == pairs[i].0.deep_view()
                        &&& built@[i]@.hashes == pairs[i].1.deep_view()
                    },
        {
            built.push(Collection::new(pair.0, pair.1));
        }
        Database { version, collections: built }
    }
}

} // verus!
