//! A duplicate-file detection engine.
//!
//! The library builds a length-keyed index of file records, finds
//! byte-identical files across two indexes (or within one), and decides
//! how a chosen resolution action transforms the filesystem.  All logic
//! works on plain in-memory values; a surrounding program performs the
//! actual directory walks, file reads and mutations and hands the
//! results to and from this crate.

pub mod args;
pub mod assure;
pub mod comparator;
pub mod errors;
pub mod index;
pub mod matcher;
pub mod record;
pub mod resolve;
