use syno_media_organizer::config::OnConflict;
use syno_media_organizer::datetime::LocalDateTime;
use syno_media_organizer::error::NamingError;
use syno_media_organizer::naming::{
    apply_pattern, is_video, rename_candidate_path, resolve_among, resolve_conflict, resolve_conflict_with_answers,
};

fn date(year: i32, month: u32, day: u32, hour: u32, minute: u32, second: u32) -> LocalDateTime {
    LocalDateTime { year, month, day, hour, minute, second }
}

#[test]
fn test_apply_pattern() {
    let cases: Vec<(&str, LocalDateTime, &str, &str, Option<&str>, u32, &str)> = vec![
        (
            "{year}/{month}/{year}-{month}-{day}_{hour}{min}{sec}_{stem}{ext}",
            date(2024, 3, 15, 10, 30, 45),
            "IMG_001",
            ".jpg",
            None,
            0,
            "2024/03/2024-03-15_103045_IMG_001.jpg",
        ),
        ("{year}/{month}/{stem}{ext}", date(2022, 12, 1, 0, 0, 0), "photo", ".png", None, 0, "2022/12/photo.png"),
        (
            "{camera}/{year}/{stem}{ext}",
            date(2023, 6, 20, 8, 0, 0),
            "DSC1234",
            ".jpg",
            Some("Canon EOS"),
            0,
            "Canon EOS/2023/DSC1234.jpg",
        ),
        ("{year}/{stem}_{counter}{ext}", date(2024, 1, 1, 12, 0, 0), "file", ".mp4", None, 7, "2024/file_0007.mp4"),
        ("{year}/{month}/{stem}{ext}", date(2024, 3, 15, 10, 30, 45), "photo", ".jpg", None, 0, "2024/03/photo.jpg"),
    ];
    for (pattern, d, stem, ext, camera, counter, expected) in cases {
        assert_eq!(apply_pattern(pattern, &d, stem, ext, camera, counter, ""), expected);
    }
}

#[test]
fn test_apply_pattern_no_camera_token_uses_unknown() {
    let d = date(2024, 1, 1, 0, 0, 0);
    let result = apply_pattern("{camera}", &d, "f", ".jpg", None, 0, "");
    assert_eq!(result, "unknown");
}

#[test]
fn apply_pattern_prefix_token() {
    let d = date(2024, 1, 1, 0, 0, 0);
    assert_eq!(apply_pattern("{prefix}{stem}{ext}", &d, "a", ".mp4", None, 0, "VID_"), "VID_a.mp4");
    assert_eq!(apply_pattern("{prefix}{stem}{ext}", &d, "a", ".jpg", None, 0, ""), "a.jpg");
}

#[test]
fn apply_pattern_without_tokens_is_unchanged() {
    let d = date(2024, 1, 1, 0, 0, 0);
    assert_eq!(apply_pattern("plain/name.txt", &d, "s", ".e", None, 3, "p"), "plain/name.txt");
}

#[test]
fn apply_pattern_counter_wider_than_four_digits() {
    let d = date(2024, 1, 1, 0, 0, 0);
    assert_eq!(apply_pattern("{counter}", &d, "s", ".e", None, 123456, ""), "123456");
}

#[test]
fn video_extensions() {
    assert!(is_video("mp4"));
    assert!(is_video("mov"));
    assert!(!is_video("jpg"));
    assert!(!is_video("MP4"));
}

/// Creates the file `name` in `dir`; it lives as long as the returned handle.
fn create(dir: &std::path::Path, name: &str) -> tempfile::NamedTempFile {
    let (stem, ext) = match name.rfind('.') {
        Some(i) => (&name[..i], &name[i..]),
        None => (name, ""),
    };
    tempfile::Builder::new().prefix(stem).suffix(ext).rand_bytes(0).tempfile_in(dir).unwrap()
}

#[test]
fn test_resolve_conflict_no_existing_file() {
    let tmp = tempfile::TempDir::new().unwrap();
    let dest = tmp.path().join("photo.jpg");
    let dest_s = dest.to_str().unwrap();
    let result = resolve_conflict(dest_s, &OnConflict::Rename).unwrap();
    assert_eq!(result, Some(dest_s.to_string()));
}

#[test]
fn test_resolve_conflict_skip() {
    let tmp = tempfile::TempDir::new().unwrap();
    let dest = tmp.path().join("photo.jpg");
    let _existing = create(tmp.path(), "photo.jpg");
    let result = resolve_conflict(dest.to_str().unwrap(), &OnConflict::Skip).unwrap();
    assert_eq!(result, None);
}

#[test]
fn test_resolve_conflict_overwrite() {
    let tmp = tempfile::TempDir::new().unwrap();
    let dest = tmp.path().join("photo.jpg");
    let _existing = create(tmp.path(), "photo.jpg");
    let dest_s = dest.to_str().unwrap();
    let result = resolve_conflict(dest_s, &OnConflict::Overwrite).unwrap();
    assert_eq!(result, Some(dest_s.to_string()));
}

#[test]
fn test_resolve_conflict_rename() {
    let tmp = tempfile::TempDir::new().unwrap();
    let dest = tmp.path().join("photo.jpg");
    let _existing = create(tmp.path(), "photo.jpg");
    let result = resolve_conflict(dest.to_str().unwrap(), &OnConflict::Rename).unwrap().unwrap();
    let p = std::path::PathBuf::from(result);
    assert_eq!(p.file_name().unwrap().to_str().unwrap(), "photo_1.jpg");
    assert_eq!(p.parent().unwrap(), tmp.path());
}

#[test]
fn test_resolve_conflict_rename_multiple() {
    let tmp = tempfile::TempDir::new().unwrap();
    let dest = tmp.path().join("photo.jpg");
    let _existing = create(tmp.path(), "photo.jpg");
    let _existing_1 = create(tmp.path(), "photo_1.jpg");
    let result = resolve_conflict(dest.to_str().unwrap(), &OnConflict::Rename).unwrap().unwrap();
    let p = std::path::PathBuf::from(result);
    assert_eq!(p.file_name().unwrap().to_str().unwrap(), "photo_2.jpg");
}

#[test]
fn rename_candidates() {
    assert_eq!(rename_candidate_path("/out/2024/photo.jpg", 3), "/out/2024/photo_3.jpg");
    assert_eq!(rename_candidate_path("photo", 1), "photo_1");
    assert_eq!(rename_candidate_path("/out/archive.tar.gz", 12), "/out/archive.tar_12.gz");
}

#[test]
fn resolve_among_follows_the_checks() {
    let free = resolve_among("/o/a.jpg", &OnConflict::Rename, &vec![false]).unwrap();
    assert_eq!(free, Some("/o/a.jpg".to_string()));
    let skip = resolve_among("/o/a.jpg", &OnConflict::Skip, &vec![true]).unwrap();
    assert_eq!(skip, None);
    let over = resolve_among("/o/a.jpg", &OnConflict::Overwrite, &vec![true]).unwrap();
    assert_eq!(over, Some("/o/a.jpg".to_string()));
    let renamed = resolve_among("/o/a.jpg", &OnConflict::Rename, &vec![true, true, true, false, true]).unwrap();
    assert_eq!(renamed, Some("/o/a_3.jpg".to_string()));
    // checks past the end of the list count as free
    let past = resolve_among("/o/a.jpg", &OnConflict::Rename, &vec![true, true]).unwrap();
    assert_eq!(past, Some("/o/a_2.jpg".to_string()));
}

#[test]
fn resolve_among_unresolvable() {
    let all = vec![true; 10000];
    let err = resolve_among("/o/a.jpg", &OnConflict::Rename, &all).unwrap_err();
    assert_eq!(err, NamingError::ConflictUnresolvable("Cannot find free name for /o/a.jpg".to_string()));
    let mut last_free = vec![true; 10000];
    last_free[9999] = false;
    let ok = resolve_among("/o/a.jpg", &OnConflict::Rename, &last_free).unwrap();
    assert_eq!(ok, Some("/o/a_9999.jpg".to_string()));
}

#[test]
fn resolve_conflict_returns_its_answers() {
    let tmp = tempfile::TempDir::new().unwrap();
    let dest = tmp.path().join("photo.jpg");
    let dest_s = dest.to_str().unwrap();
    let (r, answers) = resolve_conflict_with_answers(dest_s, &OnConflict::Rename);
    assert_eq!(r.unwrap(), Some(dest_s.to_string()));
    assert_eq!(answers, vec![false]);
    let _existing = create(tmp.path(), "photo.jpg");
    let _existing_1 = create(tmp.path(), "photo_1.jpg");
    let (r, answers) = resolve_conflict_with_answers(dest_s, &OnConflict::Rename);
    assert_eq!(answers, vec![true, true, false]);
    let p = std::path::PathBuf::from(r.unwrap().unwrap());
    assert_eq!(p.file_name().unwrap().to_str().unwrap(), "photo_2.jpg");
    let (r, answers) = resolve_conflict_with_answers(dest_s, &OnConflict::Skip);
    assert_eq!(answers, vec![true]);
    assert_eq!(r.unwrap(), None);
}
