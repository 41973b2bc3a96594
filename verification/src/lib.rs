//! Reorganizes a directory tree of loosely-named video files into a canonical
//! one-movie-per-folder layout.
//!
//! The library holds the verified core: the filename metadata parser, the file
//! classifier, the subtitle selector, the idempotency rule and the per-directory
//! reconciliation planner. Filesystem mutation and the network title lookup are
//! left to the surrounding application, which feeds plain values in and carries
//! the planned actions out.

pub mod chars;
pub mod classify;
pub mod laws;
pub mod models;
pub mod parse;
pub mod reconcile;
pub mod sanitize;
pub mod split;
pub mod subtitles;
pub mod tokens;
pub mod urls;
