//! The configuration: folders to organise, their naming and conflict rules, and the
//! global scan settings.

use vstd::prelude::*;
use vstd::string::*;
use crate::error::ConfigError;
use crate::path::{paths_equal, same_path};

verus! {

/// What to do when the destination file already exists.
#[derive(Debug, Clone, Copy, PartialEq, Eq, Structural)]
pub enum OnConflict {
    /// Append `_1`, `_2`, … to the file stem until a free name is found.
    Rename,
    /// Leave the source where it is.
    Skip,
    /// Replace the existing destination.
    Overwrite,
}

impl Default for OnConflict {
    fn default() -> (r: Self)
        ensures
            r == OnConflict::Rename,
    {
        OnConflict::Rename
    }
}

/// The naming pattern used when a folder sets none.
pub fn default_pattern() -> (r: String)
    ensures
        r@ == "{year}/{month}/{year}-{month}-{day}_{hour}{min}{sec}_{stem}{ext}"@,
{
    String::from_str("{year}/{month}/{year}-{month}-{day}_{hour}{min}{sec}_{stem}{ext}")
}

/// The allowed extensions used when a folder sets none.
pub fn default_extensions() -> (r: Vec<String>)
    ensures
        r@.len() == 8,
        r@[0]@ == "jpg"@,
        r@[1]@ == "jpeg"@,
        r@[2]@ == "png"@,
        r@[3]@ == "heic"@,
        r@[4]@ == "mp4"@,
        r@[5]@ == "mov"@,
        r@[6]@ == "avi"@,
        r@[7]@ == "mkv"@,
{
    let mut v: Vec<String> = Vec::new();
    v.push(String::from_str("jpg"));
    v.push(String::from_str("jpeg"));
    v.push(String::from_str("png"));
    v.push(String::from_str("heic"));
    v.push(String::from_str("mp4"));
    v.push(String::from_str("mov"));
    v.push(String::from_str("avi"));
    v.push(String::from_str("mkv"));
    v
}

/// The Synology system directories skipped when a folder sets none.
pub fn default_excluded_dirs() -> (r: Vec<String>)
    ensures
        r@.len() == 5,
        r@[0]@ == "@eaDir"@,
        r@[1]@ == "@SynoEAStream"@,
        r@[2]@ == "@Recycle"@,
        r@[3]@ == "#recycle"@,
        r@[4]@ == "@tmp"@,
{
    let mut v: Vec<String> = Vec::new();
    v.push(String::from_str("@eaDir"));
    v.push(String::from_str("@SynoEAStream"));
    v.push(String::from_str("@Recycle"));
    v.push(String::from_str("#recycle"));
    v.push(String::from_str("@tmp"));
    v
}

/// The default of the boolean options that are on unless set.
pub fn default_true() -> (r: bool)
    ensures
        r,
{
    true
}

/// The scan interval, in seconds, used when none is set.
pub fn default_poll_interval() -> (r: u64)
    ensures
        r == 30,
{
    30
}

/// The no-date cache time-to-live, in days, used when none is set (0: never expires).
pub fn default_no_date_cache_ttl_days() -> (r: u32)
    ensures
        r == 0,
{
    0
}

/// One input folder and how its files are organised.
pub struct FolderConfig {
    /// Source folder to watch.
    pub input: String,
    /// Destination root folder.
    pub output: String,
    /// Naming pattern using tokens like `{year}`, `{month}`, `{day}`, `{stem}`, `{ext}`.
    pub pattern: String,
    /// Watch subdirectories recursively.
    pub recursive: bool,
    /// Move files (true) or copy them (false). Read from the configuration and kept;
    /// processing always moves a file, which the scan relies on so that a processed
    /// file does not come back on the next cycle.
    pub move_files: bool,
    /// Text of `{prefix}` for photos.
    pub photo_prefix: String,
    /// Text of `{prefix}` for videos.
    pub video_prefix: String,
    /// What to do when the destination file already exists.
    pub on_conflict: OnConflict,
    /// Allowed file extensions (without dot).
    pub extensions: Vec<String>,
    /// Directory names skipped while scanning, matched against every path component.
    pub excluded_dirs: Vec<String>,
}

/// The whole configuration.
pub struct Config {
    /// The folders to organise.
    pub folders: Vec<FolderConfig>,
    /// How often to scan the input folders, in seconds.
    pub poll_interval_secs: u64,
    /// Remember files without a capture date between scans.
    pub no_date_cache_enabled: bool,
    /// Days after which a remembered file is tried again (0: never).
    pub no_date_cache_ttl_days: u32,
}

/// The message for a configuration without folders.
pub open spec fn no_folders_message() -> Seq<char> {
    "At least one [[folders]] entry is required"@
}

/// The message for a folder whose input and output are the same path.
pub open spec fn same_folder_message(input: Seq<char>) -> Seq<char> {
    "Input and output folders must differ: "@ + input
}

/// The folder `f` reads from and writes to the same path.
pub open spec fn folder_loops(f: FolderConfig) -> bool {
    same_path(f.input@, f.output@)
}

/// Checks the rules of a configuration: at least one folder, and no folder whose
/// input and output are the same path. The first folder that breaks the rule is named.
pub fn validate(config: &Config) -> (r: Result<(), ConfigError>)
    ensures
        config.folders@.len() == 0 ==> (r matches Err(ConfigError::Invalid(m)) && m@ == no_folders_message()),
        r is Ok <==> config.folders@.len() > 0 && forall|i: int|
            0 <= i < config.folders@.len() ==> !folder_loops(#[trigger] config.folders@[i]),
        config.folders@.len() > 0 && r is Err ==> exists|k: int|
            0 <= k < config.folders@.len() && folder_loops(config.folders@[k]) && (forall|i: int|
                0 <= i < k ==> !folder_loops(#[trigger] config.folders@[i])) && (r matches Err(
                ConfigError::Invalid(m),
            ) && m@ == same_folder_message(config.folders@[k].input@)),
{
    if config.folders.len() == 0 {
        return Err(ConfigError::Invalid(String::from_str("At least one [[folders]] entry is required")));
    }
    let mut i: usize = 0;
    while i < config.folders.len()
        invariant
            i <= config.folders@.len(),
            forall|j: int| 0 <= j < i ==> !folder_loops(#[trigger] config.folders@[j]),
        decreases config.folders@.len() - i,
    {
        let f = &config.folders[i];
        if paths_equal(f.input.as_str(), f.output.as_str()) {
            let mut msg = String::from_str("Input and output folders must differ: ");
            msg.append(f.input.as_str());
            return Err(ConfigError::Invalid(msg));
        }
        i = i + 1;
    }
    Ok(())
}

} // verus!
