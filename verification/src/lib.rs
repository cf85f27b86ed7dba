//! Core logic of a content-addressed object gateway.
//!
//! The gateway wraps each payload in a signed, tagged envelope, keeps the
//! envelope and the raw body in a blob store, and records the tags of each
//! item in an index, so that items can be found by their tags.
//!
//! - `tags`: the rules for tags, normalisation, and the composer of the
//!   canonical tag list of a new item.
//! - `store`: the keys of the two copies of an item and the order of the
//!   writes of a store operation.
//! - `index` and `paging`: the tag index, the query for the items that carry
//!   a set of tags, and its pages.
//! - `query` and `cursor`: the statement that asks an index backend for a
//!   page, the assembly of the page, and the wire form of the cursor.
//! - `registry`, `bucket`, `config`, `request`, `error`, `text`, `time`: the
//!   side registry of named items, bucket listings, settings, request
//!   checks, failure kinds, and text and time primitives.

pub mod bucket;
pub mod config;
pub mod cursor;
pub mod error;
pub mod index;
pub mod paging;
pub mod query;
pub mod registry;
pub mod request;
pub mod store;
pub mod tags;
pub mod text;
pub mod time;
