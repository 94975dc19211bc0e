//! The errors of each part of the organiser. Messages that come from outside
//! (I/O, TOML parsing) are carried as text.

use vstd::prelude::*;

verus! {

/// Why the configuration could not be used.
#[derive(Debug, Clone, PartialEq, Eq)]
pub enum ConfigError {
    /// The configuration file could not be read.
    Io(String),
    /// The configuration file is not valid TOML for the expected structure.
    Parse(String),
    /// The configuration breaks a rule of its own.
    Invalid(String),
}

/// Why a capture date could not be read or written.
#[derive(Debug, Clone, PartialEq, Eq)]
pub enum ExifError {
    /// The file could not be read.
    Io(String),
    /// The metadata could not be parsed.
    Parse(String),
    /// The metadata could not be written.
    Write(String),
    /// The file holds no usable capture date.
    NoDateTimeOriginal,
}

/// Why a destination name could not be produced.
#[derive(Debug, Clone, PartialEq, Eq)]
pub enum NamingError {
    /// The naming pattern holds an unknown token.
    InvalidToken(String),
    /// No free destination name was found.
    ConflictUnresolvable(String),
}

/// Why a file could not be processed.
#[derive(Debug, Clone, PartialEq, Eq)]
pub enum ProcessorError {
    /// The file does not exist.
    FileNotFound(String),
    /// The file's extension is not in the folder's list.
    ExtensionNotAllowed(String),
    /// A filesystem operation failed.
    Io(String),
    /// No destination name could be produced.
    Naming(NamingError),
    /// Neither the metadata nor the file name gave a capture date.
    CaptureDataNotFound,
}

/// Why the watcher could not run.
#[derive(Debug, Clone, PartialEq, Eq)]
pub enum WatcherError {
    /// The watcher could not start.
    Init(String),
    /// Scanning a folder failed.
    Watch(String),
}

} // verus!
