//! Decoders for the two binary caches in which the Steam client keeps the
//! metadata of applications and packages, and queries on what they hold.
//!
//! A cache is a header and a run of records. Each record carries a tree of
//! properties: maps from keys to numbers, texts and further maps, written
//! as a flat stream of tagged entries. [`tree`] decodes such a stream,
//! [`app_info`] and [`package_info`] decode the records and caches around
//! it, and [`query`] walks a decoded tree along a path of keys.
//! [`encoding`] states what decoding gives back of what was written.
//! [`render`], [`steam_game`] and [`folders`] serve the listing of games.

pub mod app_info;
pub mod cursor;
pub mod encoding;
pub mod error;
pub mod folders;
pub mod header;
pub mod package_info;
pub mod property;
pub mod query;
pub mod render;
pub mod steam_game;
pub mod tree;
