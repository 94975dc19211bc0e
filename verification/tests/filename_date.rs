use chrono::{Datelike, Local, TimeZone, Timelike, Utc};
use syno_media_organizer::date_reader::{facebook_unix_seconds, parse_date_from_filename};
use syno_media_organizer::datetime::{CaptureTime, LocalDateTime};

fn local_of(t: CaptureTime) -> LocalDateTime {
    t.local
}

fn ymd(d: &LocalDateTime) -> String {
    format!("{:04}-{:02}-{:02}", d.year, d.month, d.day)
}

fn hms(d: &LocalDateTime) -> String {
    format!("{:02}:{:02}:{:02}", d.hour, d.minute, d.second)
}

#[test]
fn test_whatsapp_photo_date() {
    let dt = local_of(parse_date_from_filename("IMG-20250626-WA0002.jpg").unwrap());
    assert_eq!(ymd(&dt), "2025-06-26");
    assert_eq!(hms(&dt), "12:00:00");
}

#[test]
fn test_whatsapp_video_date() {
    let dt = local_of(parse_date_from_filename("VID-20250408-WA0022.mp4").unwrap());
    assert_eq!(ymd(&dt), "2025-04-08");
}

#[test]
fn test_whatsapp_audio_date() {
    let dt = local_of(parse_date_from_filename("AUD-20231115-WA0001.opus").unwrap());
    assert_eq!(ymd(&dt), "2023-11-15");
}

#[test]
fn test_whatsapp_with_suffix() {
    let dt = local_of(parse_date_from_filename("IMG-20250626-WA0003 (1).jpg").unwrap());
    assert_eq!(ymd(&dt), "2025-06-26");
}

#[test]
fn test_whatsapp_invalid_month_returns_none() {
    assert!(parse_date_from_filename("IMG-20251340-WA0001.jpg").is_none());
}

#[test]
fn test_android_with_img_prefix() {
    let dt = local_of(parse_date_from_filename("IMG_20190807_080939.jpg").unwrap());
    assert_eq!(format!("{} {}", ymd(&dt), hms(&dt)), "2019-08-07 08:09:39");
}

#[test]
fn test_android_with_img_prefix_extra_digits() {
    let dt = local_of(parse_date_from_filename("IMG_20190807_0809391.jpg").unwrap());
    assert_eq!(format!("{} {}", ymd(&dt), hms(&dt)), "2019-08-07 08:09:39");
}

#[test]
fn test_android_bare_yyyymmdd_hhmmss() {
    let dt = local_of(parse_date_from_filename("20220630_211409.jpg").unwrap());
    assert_eq!(format!("{} {}", ymd(&dt), hms(&dt)), "2022-06-30 21:14:09");
}

#[test]
fn test_android_bare_with_sequence_suffix() {
    let dt = local_of(parse_date_from_filename("20220630_211409_031.jpg").unwrap());
    assert_eq!(ymd(&dt), "2022-06-30");
}

#[test]
fn test_facebook_timestamp_ms() {
    // 1484685560948 ms -> 1484685560 s -> 2017-01-17 22:19:20 UTC
    let t = parse_date_from_filename("FB_IMG_1484685560948.jpg").unwrap();
    assert_eq!(t.unix_secs, 1484685560);
    let dt_utc = Utc.timestamp_opt(t.unix_secs, 0).unwrap();
    assert_eq!(dt_utc.format("%Y-%m-%d").to_string(), "2017-01-17");
    let local = Local.timestamp_opt(t.unix_secs, 0).unwrap();
    assert_eq!(
        (t.local.year, t.local.month, t.local.day, t.local.hour, t.local.minute, t.local.second),
        (local.year(), local.month(), local.day(), local.hour(), local.minute(), local.second())
    );
}

#[test]
fn test_no_pattern_returns_none() {
    assert!(parse_date_from_filename("random_file.jpg").is_none());
    assert!(parse_date_from_filename("4.jpg").is_none());
    assert!(parse_date_from_filename("no_exif.jpg").is_none());
    assert!(parse_date_from_filename("clip.mp4").is_none());
}

#[test]
fn facebook_milliseconds_become_seconds() {
    assert_eq!(facebook_unix_seconds(b"FB_IMG_1484685560948"), Some(1484685560));
    assert_eq!(facebook_unix_seconds(b"FB_IMG_1484685560948_x"), Some(1484685560));
    assert_eq!(facebook_unix_seconds(b"FB_IMG_"), None);
    assert_eq!(facebook_unix_seconds(b"IMG_1484685560948"), None);
}

#[test]
fn filename_date_with_directories_uses_the_stem() {
    let dt = local_of(parse_date_from_filename("/volume1/inbox/sub dir/IMG_20190807_080939.jpg").unwrap());
    assert_eq!(format!("{} {}", ymd(&dt), hms(&dt)), "2019-08-07 08:09:39");
}

#[test]
fn whatsapp_requires_wa_marker() {
    assert!(parse_date_from_filename("IMG-20250626-XX0002.jpg").is_none());
    assert!(parse_date_from_filename("IMG-2025062").is_none());
}

#[test]
fn android_rejects_non_digit_time() {
    assert!(parse_date_from_filename("IMG_20190807_08a939.jpg").is_none());
    assert!(parse_date_from_filename("20190807-080939.jpg").is_none());
}

#[test]
fn february_29_only_in_leap_years() {
    assert!(parse_date_from_filename("IMG-20240229-WA0001.jpg").is_some());
    assert!(parse_date_from_filename("IMG-20230229-WA0001.jpg").is_none());
}

#[test]
fn whatsapp_date_needs_eight_digits() {
    assert!(parse_date_from_filename("IMG-+0240101-WA0001.jpg").is_none());
    assert!(parse_date_from_filename("IMG-2025062a-WA0001.jpg").is_none());
}

#[test]
fn non_ascii_names_give_no_date() {
    assert!(parse_date_from_filename("1234567é_123456.jpg").is_none());
    assert!(parse_date_from_filename("IMG-2025062é-WA0001.jpg").is_none());
    assert!(parse_date_from_filename("IMG_20190807_08093é.jpg").is_none());
}
