//! A small library for keeping textual tags on filesystem paths.
//!
//! A tag set is stored as one comma-joined string. This crate holds the
//! verified logic of the tool: splitting and joining that string, adding
//! tags (lower-cased, de-duplicated), removing tags, and deciding which
//! stored tag strings match a search pattern. Reading and writing the
//! extended attribute itself, and walking directories, is left to the
//! surrounding program.

pub mod find;
pub mod model;
pub mod tags;
