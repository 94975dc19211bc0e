use syno_media_organizer::clock_compat::{retry_clock, CLOCK_BOOTTIME, CLOCK_MONOTONIC};
use syno_media_organizer::config::{FolderConfig, OnConflict};
use syno_media_organizer::date_reader::{for_extension, read_with_fallback, DateSource};
use syno_media_organizer::datetime::{CaptureTime, LocalDateTime};
use syno_media_organizer::error::{ExifError, ProcessorError};
use syno_media_organizer::no_date_cache::NoDateCache;
use syno_media_organizer::processor::{check_extension, destination_path, plan_file, plan_move};
use syno_media_organizer::watcher::{is_excluded, loop_action, record_outcome, LoopAction};

fn make_cfg(input: &str, output: &str, on_conflict: OnConflict) -> FolderConfig {
    FolderConfig {
        input: input.to_string(),
        output: output.to_string(),
        pattern: "{year}/{month}/{stem}{ext}".to_string(),
        recursive: false,
        move_files: true,
        photo_prefix: String::new(),
        video_prefix: String::new(),
        on_conflict,
        extensions: vec!["jpg".to_string(), "mp4".to_string()],
        excluded_dirs: vec![],
    }
}

fn d(year: i32, month: u32, day: u32) -> LocalDateTime {
    LocalDateTime { year, month, day, hour: 10, minute: 30, second: 0 }
}

/// A capture moment with the fields of `d(..)` (the instant does not matter here).
fn at(year: i32, month: u32, day: u32) -> CaptureTime {
    CaptureTime { local: d(year, month, day), unix_secs: 0 }
}

#[test]
fn test_process_disallowed_extension() {
    let cfg = make_cfg("/in", "/in/out", OnConflict::Rename);
    let err = check_extension("/in/document.pdf", &cfg).unwrap_err();
    assert!(matches!(err, ProcessorError::ExtensionNotAllowed(_)));
    assert_eq!(err, ProcessorError::ExtensionNotAllowed("pdf".to_string()));
}

#[test]
fn extension_check_ignores_case() {
    let cfg = make_cfg("/in", "/out", OnConflict::Rename);
    assert_eq!(check_extension("/in/PHOTO.JPG", &cfg), Ok("jpg".to_string()));
    assert_eq!(
        check_extension("/in/noext", &cfg),
        Err(ProcessorError::ExtensionNotAllowed(String::new()))
    );
}

#[test]
fn test_process_no_exif_skips_file() {
    // no metadata date and no date in the name: the file stays where it is
    let out = tempfile::TempDir::new().unwrap();
    let cfg = make_cfg("/in", out.path().to_str().unwrap(), OnConflict::Rename);
    let r = plan_file("/in/video.mp4", &cfg, false, "mp4", Err(ExifError::NoDateTimeOriginal));
    assert_eq!(r.unwrap_err(), ProcessorError::CaptureDataNotFound);
}

#[test]
fn test_process_dry_run_no_changes() {
    let out = tempfile::TempDir::new().unwrap();
    let cfg = make_cfg("/in", out.path().to_str().unwrap(), OnConflict::Rename);
    let plan = plan_file("/in/photo.jpg", &cfg, true, "jpg", Ok(at(2024, 3, 15))).unwrap().unwrap();
    assert!(!plan.move_file);
    assert_eq!(plan.create_dir, None);
    assert_eq!(plan.exif_date, None);
    assert_eq!(plan.destination, format!("{}/2024/03/photo.jpg", out.path().to_str().unwrap()));
}

#[test]
fn plan_with_metadata_date() {
    let out = tempfile::TempDir::new().unwrap();
    let out_s = out.path().to_str().unwrap();
    let cfg = make_cfg("/in", out_s, OnConflict::Rename);
    let plan = plan_file("/in/with_exif.jpg", &cfg, false, "jpg", Ok(at(2024, 3, 15))).unwrap().unwrap();
    assert!(plan.move_file);
    assert_eq!(plan.destination, format!("{}/2024/03/with_exif.jpg", out_s));
    assert_eq!(plan.create_dir, Some(format!("{}/2024/03", out_s)));
    assert_eq!(plan.exif_date, None);
}

#[test]
fn plan_with_filename_date_writes_exif_for_photos_only() {
    let out = tempfile::TempDir::new().unwrap();
    let out_s = out.path().to_str().unwrap();
    let cfg = make_cfg("/in", out_s, OnConflict::Rename);
    let none = Err(ExifError::NoDateTimeOriginal);
    let photo = plan_file("/in/IMG-20250626-WA0002.jpg", &cfg, false, "jpg", none).unwrap().unwrap();
    assert_eq!(photo.destination, format!("{}/2025/06/IMG-20250626-WA0002.jpg", out_s));
    assert_eq!(photo.exif_date, Some("2025:06:26 12:00:00".to_string()));
    let video =
        plan_file("/in/VID-20250408-WA0022.mp4", &cfg, false, "mp4", Err(ExifError::NoDateTimeOriginal))
            .unwrap()
            .unwrap();
    assert_eq!(video.destination, format!("{}/2025/04/VID-20250408-WA0022.mp4", out_s));
    assert_eq!(video.exif_date, None);
}

#[test]
fn metadata_date_wins_over_filename() {
    let r = read_with_fallback(Ok(at(2024, 3, 15)), "/in/IMG-20250626-WA0099.jpg").unwrap();
    assert_eq!(r, at(2024, 3, 15));
    let f = read_with_fallback(Err(ExifError::NoDateTimeOriginal), "/in/IMG-20250626-WA0099.jpg").unwrap();
    assert_eq!((f.local.year, f.local.month, f.local.day, f.local.hour), (2025, 6, 26, 12));
    let none = read_with_fallback(Err(ExifError::NoDateTimeOriginal), "/in/scan_001.jpg");
    assert_eq!(none, Err(ExifError::NoDateTimeOriginal));
}

#[test]
fn plan_skips_existing_destination() {
    let out = tempfile::TempDir::new().unwrap();
    let out_s = out.path().to_str().unwrap();
    let year = tempfile::Builder::new().prefix("2024").rand_bytes(0).tempdir_in(out.path()).unwrap();
    let month = tempfile::Builder::new().prefix("03").rand_bytes(0).tempdir_in(year.path()).unwrap();
    let _existing =
        tempfile::Builder::new().prefix("photo").suffix(".jpg").rand_bytes(0).tempfile_in(month.path()).unwrap();
    let cfg = make_cfg("/in", out_s, OnConflict::Skip);
    assert_eq!(plan_file("/in/photo.jpg", &cfg, false, "jpg", Ok(at(2024, 3, 15))).unwrap().is_none(), true);
    let cfg = make_cfg("/in", out_s, OnConflict::Rename);
    let plan = plan_file("/in/photo.jpg", &cfg, false, "jpg", Ok(at(2024, 3, 15))).unwrap().unwrap();
    assert_eq!(plan.destination, format!("{}/2024/03/photo_1.jpg", out_s));
    assert_eq!(plan.create_dir, None);
}

#[test]
fn destination_uses_prefix_by_kind() {
    let mut cfg = make_cfg("/in", "/out", OnConflict::Rename);
    cfg.pattern = "{prefix}{year}{month}{day}_{stem}{ext}".to_string();
    cfg.photo_prefix = "IMG_".to_string();
    cfg.video_prefix = "VID_".to_string();
    assert_eq!(destination_path(&cfg, "/in/a.JPG", &d(2024, 1, 2), "jpg"), "/out/IMG_20240102_a.JPG");
    assert_eq!(destination_path(&cfg, "/in/b.mp4", &d(2024, 1, 2), "mp4"), "/out/VID_20240102_b.mp4");
}

#[test]
fn readers_by_extension() {
    assert_eq!(for_extension("mp4"), DateSource::QuickTime);
    assert_eq!(for_extension("jpg"), DateSource::Exif);
}

#[test]
fn excluded_directories() {
    let ex = vec!["@eaDir".to_string(), "#recycle".to_string()];
    assert!(is_excluded("/in/@eaDir/video.mov/SYNOPHOTO_FILM_M.mp4", &ex));
    assert!(is_excluded("/in/#recycle/a.jpg", &ex));
    assert!(!is_excluded("/in/photos/a.jpg", &ex));
    assert!(!is_excluded("/in/@eaDirX/a.jpg", &ex));
    assert!(!is_excluded("/in/@eaDir/a.jpg", &vec![]));
}

#[test]
fn outcomes_update_the_cache() {
    let mut c = NoDateCache::new("/c.json".to_string(), true, 0);
    assert!(!record_outcome(&mut c, "/in/a.jpg".to_string(), 5, &Err(ProcessorError::CaptureDataNotFound)));
    assert!(c.should_skip("/in/a.jpg", 5));
    assert!(!record_outcome(&mut c, "/in/a.jpg".to_string(), 5, &Err(ProcessorError::Io("x".to_string()))));
    assert!(c.should_skip("/in/a.jpg", 5));
    assert!(record_outcome(&mut c, "/in/a.jpg".to_string(), 6, &Ok(())));
    assert!(!c.should_skip("/in/a.jpg", 5));
    assert_eq!(c.len(), 0);
}

#[test]
fn boottime_failure_retries_monotonic() {
    assert_eq!(retry_clock(CLOCK_BOOTTIME, -1), Some(CLOCK_MONOTONIC));
    assert_eq!(retry_clock(CLOCK_BOOTTIME, 0), None);
    assert_eq!(retry_clock(CLOCK_MONOTONIC, -1), None);
}

#[test]
fn polling_loop_decisions() {
    assert_eq!(loop_action(false, false, false), LoopAction::ScanFolders);
    assert_eq!(loop_action(false, true, false), LoopAction::Stop);
    assert_eq!(loop_action(true, false, false), LoopAction::Sleep);
    assert_eq!(loop_action(true, false, true), LoopAction::ScanFolders);
    assert_eq!(loop_action(true, true, true), LoopAction::Stop);
    assert_eq!(loop_action(true, true, false), LoopAction::Stop);
}

#[test]
fn planned_move_follows_the_answers() {
    let cfg = make_cfg("/in", "/out", OnConflict::Rename);
    let date = d(2024, 3, 15);
    let free = plan_move("/in/p.jpg", &cfg, false, "jpg", &date, false, &vec![false], false).unwrap().unwrap();
    assert_eq!(free.destination, "/out/2024/03/p.jpg");
    assert_eq!(free.create_dir, Some("/out/2024/03".to_string()));
    assert_eq!(free.exif_date, None);
    assert!(free.move_file);
    let renamed = plan_move("/in/p.jpg", &cfg, false, "jpg", &date, true, &vec![true, true, false], true).unwrap().unwrap();
    assert_eq!(renamed.destination, "/out/2024/03/p_2.jpg");
    assert_eq!(renamed.create_dir, None);
    assert_eq!(renamed.exif_date, Some("2024:03:15 10:30:00".to_string()));
    let dry = plan_move("/in/p.jpg", &cfg, true, "jpg", &date, true, &vec![false], false).unwrap().unwrap();
    assert_eq!(dry.create_dir, None);
    assert_eq!(dry.exif_date, None);
    assert!(!dry.move_file);
    let skip_cfg = make_cfg("/in", "/out", OnConflict::Skip);
    assert!(plan_move("/in/p.jpg", &skip_cfg, false, "jpg", &date, false, &vec![true], true).unwrap().is_none());
    let over_cfg = make_cfg("/in", "/out", OnConflict::Overwrite);
    let over = plan_move("/in/p.jpg", &over_cfg, false, "jpg", &date, false, &vec![true], true).unwrap().unwrap();
    assert_eq!(over.destination, "/out/2024/03/p.jpg");
    let full = plan_move("/in/p.jpg", &cfg, false, "jpg", &date, false, &vec![true; 10000], true).unwrap_err();
    assert_eq!(
        full,
        ProcessorError::Naming(syno_media_organizer::error::NamingError::ConflictUnresolvable(
            "Cannot find free name for /out/2024/03/p.jpg".to_string()
        ))
    );
}

#[test]
fn uppercase_extension_is_accepted() {
    let cfg = make_cfg("/in", "/out", OnConflict::Rename);
    assert_eq!(check_extension("/in/IMG-20250626-WA0002.JPG", &cfg), Ok("jpg".to_string()));
}

fn planned_destination(file: &str, ext: &str, primary: Result<CaptureTime, ExifError>) -> (String, Option<String>, String) {
    let out = tempfile::TempDir::new().unwrap();
    let out_s = out.path().to_str().unwrap().to_string();
    let mut cfg = make_cfg("/in", &out_s, OnConflict::Rename);
    cfg.extensions = vec!["jpg".to_string(), "mp4".to_string(), "jpeg".to_string()];
    let plan = plan_file(&format!("/in/{}", file), &cfg, false, ext, primary).unwrap().unwrap();
    assert!(plan.move_file);
    let rel = plan.destination.strip_prefix(&format!("{}/", out_s)).unwrap().to_string();
    (rel, plan.exif_date, out_s)
}

#[test]
fn test_whatsapp_photo_no_exif_moved_to_correct_year_month() {
    let (rel, exif, _) = planned_destination("IMG-20250626-WA0002.jpg", "jpg", Err(ExifError::NoDateTimeOriginal));
    assert!(rel.starts_with("2025/06/"), "expected 2025/06/, got {}", rel);
    assert_eq!(exif, Some("2025:06:26 12:00:00".to_string()));
}

#[test]
fn test_whatsapp_video_no_quicktime_moved_to_correct_year_month() {
    let (rel, exif, _) = planned_destination("VID-20250408-WA0022.mp4", "mp4", Err(ExifError::NoDateTimeOriginal));
    assert!(rel.starts_with("2025/04/"), "expected 2025/04/, got {}", rel);
    assert_eq!(exif, None);
}

#[test]
fn test_android_img_prefix_no_exif_moved_correctly() {
    let (rel, exif, _) = planned_destination("IMG_20190807_080939.jpg", "jpg", Err(ExifError::NoDateTimeOriginal));
    assert!(rel.starts_with("2019/08/"), "expected 2019/08/, got {}", rel);
    assert_eq!(exif, Some("2019:08:07 08:09:39".to_string()));
}

#[test]
fn test_android_bare_yyyymmdd_no_exif_moved_correctly() {
    let (rel, _, _) = planned_destination("20220630_211409_031.jpg", "jpg", Err(ExifError::NoDateTimeOriginal));
    assert!(rel.starts_with("2022/06/"), "expected 2022/06/, got {}", rel);
}

#[test]
fn test_facebook_timestamp_no_exif_moved_correctly() {
    let (rel, _, _) = planned_destination("FB_IMG_1484685560948.jpg", "jpg", Err(ExifError::NoDateTimeOriginal));
    assert!(rel.starts_with("2017/"), "expected 2017/xx/, got {}", rel);
}

#[test]
fn test_no_pattern_no_exif_still_returns_capture_data_not_found() {
    let cfg = make_cfg("/in", "/out", OnConflict::Rename);
    let r = plan_file("/in/scan_001.jpg", &cfg, false, "jpg", Err(ExifError::NoDateTimeOriginal));
    assert!(matches!(r, Err(ProcessorError::CaptureDataNotFound)), "expected CaptureDataNotFound, got {:?}", r);
}

#[test]
fn test_existing_exif_not_overwritten_by_filename_date() {
    let (rel, exif, _) = planned_destination("IMG-20250626-WA0099.jpg", "jpg", Ok(at(2024, 3, 15)));
    assert!(rel.starts_with("2024/03/"), "EXIF date must take priority over filename date — got {}", rel);
    assert_eq!(exif, None);
}

#[test]
fn test_dry_run_whatsapp_no_side_effects() {
    let cfg = make_cfg("/in", "/out", OnConflict::Rename);
    let plan = plan_file("/in/IMG-20250101-WA0001.jpg", &cfg, true, "jpg", Err(ExifError::NoDateTimeOriginal))
        .unwrap()
        .unwrap();
    assert!(!plan.move_file);
    assert_eq!(plan.create_dir, None);
    assert_eq!(plan.exif_date, None);
}
