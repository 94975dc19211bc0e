use syno_media_organizer::config::{
    default_excluded_dirs, default_extensions, default_no_date_cache_ttl_days, default_pattern,
    default_poll_interval, default_true, validate, Config, FolderConfig, OnConflict,
};
use syno_media_organizer::error::ConfigError;

fn folder(input: &str, output: &str) -> FolderConfig {
    FolderConfig {
        input: input.to_string(),
        output: output.to_string(),
        pattern: default_pattern(),
        recursive: default_true(),
        move_files: true,
        photo_prefix: String::new(),
        video_prefix: String::new(),
        on_conflict: OnConflict::default(),
        extensions: default_extensions(),
        excluded_dirs: default_excluded_dirs(),
    }
}

fn config(folders: Vec<FolderConfig>) -> Config {
    Config {
        folders,
        poll_interval_secs: default_poll_interval(),
        no_date_cache_enabled: default_true(),
        no_date_cache_ttl_days: default_no_date_cache_ttl_days(),
    }
}

#[test]
fn test_reject_empty_folders() {
    let err = validate(&config(vec![])).unwrap_err();
    assert_eq!(err, ConfigError::Invalid("At least one [[folders]] entry is required".to_string()));
}

#[test]
fn test_reject_same_input_output() {
    let err = validate(&config(vec![folder("/volume1/photos", "/volume1/photos")])).unwrap_err();
    assert_eq!(err, ConfigError::Invalid("Input and output folders must differ: /volume1/photos".to_string()));
}

#[test]
fn same_path_in_another_spelling_is_rejected() {
    let cfg = config(vec![folder("/volume1/inbox", "/volume1/out"), folder("/volume1/photos/", "/volume1/./photos")]);
    let err = validate(&cfg).unwrap_err();
    assert_eq!(err, ConfigError::Invalid("Input and output folders must differ: /volume1/photos/".to_string()));
}

#[test]
fn distinct_folders_are_accepted() {
    let cfg = config(vec![folder("/volume1/inbox", "/volume1/photos"), folder("/volume1/inbox/phone", "/volume1/photos")]);
    assert_eq!(validate(&cfg), Ok(()));
}

#[test]
fn defaults() {
    assert_eq!(default_pattern(), "{year}/{month}/{year}-{month}-{day}_{hour}{min}{sec}_{stem}{ext}");
    assert_eq!(default_extensions(), vec!["jpg", "jpeg", "png", "heic", "mp4", "mov", "avi", "mkv"]);
    assert_eq!(default_excluded_dirs(), vec!["@eaDir", "@SynoEAStream", "@Recycle", "#recycle", "@tmp"]);
    assert!(default_true());
    assert_eq!(default_poll_interval(), 30);
    assert_eq!(default_no_date_cache_ttl_days(), 0);
    assert_eq!(OnConflict::default(), OnConflict::Rename);
}
