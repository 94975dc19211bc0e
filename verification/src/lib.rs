//! Organise photos and videos into dated folders from their capture metadata.
//!
//! The library holds the verified logic: capture-date extraction from file
//! contents and file names, destination naming, conflict resolution,
//! configuration validation, the no-date cache and the scan decisions.
//! Reading and writing files, signals and the polling loop live in the
//! application around it.

pub mod clock_compat;
pub mod config;
pub mod datetime;
pub mod error;
pub mod numeric;
pub mod text;
pub mod path;
pub mod processor;
pub mod watcher;
pub mod date_reader;
pub mod naming;
pub mod no_date_cache;
pub mod exif;
