//! Reading and writing of the collection database of the osu! game client: a
//! version stamp followed by named collections, each an ordered list of beatmap
//! checksums.
//!
//! The byte layout is stated once, as specification functions over `Seq<u8>`
//! in `layout`, and `writer` and `reader` are proved against it; `layout` also
//! holds the proof that reading undoes writing. `string_codec`, `uleb128` and
//! `int32` are the fields of the format, `model` is the database in memory and
//! `validator` decides what is let into a collection.
//!
//! `beatmap_link` and `fetch` serve a program that gathers the checksums from
//! a list of links: they say which beatmap a link names, keep the record of the
//! lookups and read and write the text cache. `text` and `decimal` are what
//! they need of strings and numbers.

pub mod error;
pub mod int32;
pub mod uleb128;
pub mod string_codec;
pub mod model;
pub mod layout;
pub mod writer;
pub mod reader;
pub mod validator;
pub mod text;
pub mod decimal;
pub mod beatmap_link;
pub mod fetch;
