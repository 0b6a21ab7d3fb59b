//! Conversion of a metadata spreadsheet into the Simple Archive Format.
//!
//! Every row of the spreadsheet becomes one item: a folder with a manifest of
//! the row's files, a Dublin Core metadata document, and copies of the files.
//! This library computes what is to be written; writing it is left to the
//! caller.

pub mod archive;
pub mod columns;
pub mod convert;
pub mod decode;
pub mod entry;
pub mod item;
pub mod manifest;
pub mod metadata;
pub mod render;
pub mod table;
pub mod text;
pub mod utils;

pub use crate::entry::DcEntry;
