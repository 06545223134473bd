//! A catalog of video files, reconciled against what a scan of the file tree finds.
//!
//! A run takes the previous catalog and the files of a scan. A file is known by
//! its fingerprint, made of size and modification time: where the previous
//! catalog has the fingerprint, the stored record is kept; else a record is
//! built from the file's name and tracks, and a rating is looked up for its
//! title. Records that no file matches any more are reported as removed.

pub mod catalog;
pub mod classify;
pub mod config;
pub mod error;
pub mod fingerprint;
pub mod laws;
pub mod name;
pub mod rating;
pub mod reconcile;
pub mod record;
pub mod rename;
pub mod scrape;
pub mod similarity;
pub mod summary;
pub mod text;

pub use crate::catalog::Movie;
pub use crate::config::Config;
pub use crate::error::CatalogError;
pub use crate::name::{get_dur, get_encoder, get_title_year, sanitize};
