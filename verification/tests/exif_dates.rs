use chrono::{DateTime, Local, TimeZone, Utc};
use syno_media_organizer::date_reader::{DateReader, ExifDateReader, QuickTimeDateReader};
use syno_media_organizer::datetime::LocalDateTime;
use syno_media_organizer::error::ExifError;
use syno_media_organizer::exif::{
    format_exif_datetime, parse_exif_datetime, parse_mvhd_creation_time, read_box_header, QtStage, QtStep,
    scan_creation_time, QuickTimeScan, QT_READ_LEN,
};

fn full(d: &LocalDateTime) -> String {
    format!(
        "{:04}-{:02}-{:02} {:02}:{:02}:{:02}",
        d.year, d.month, d.day, d.hour, d.minute, d.second
    )
}

/// Runs the `moov -> mvhd` scan over an in-memory file.
fn scan(data: &[u8]) -> Option<i64> {
    let mut st = QuickTimeScan::start();
    loop {
        let pos = st.pos as usize;
        let chunk: &[u8] = if pos >= data.len() {
            &[]
        } else {
            &data[pos..std::cmp::min(pos + QT_READ_LEN, data.len())]
        };
        match st.step(chunk) {
            QtStep::Continue(next) => st = next,
            QtStep::Found(u) => return Some(u),
            QtStep::NotFound => return None,
        }
    }
}

fn ftyp() -> Vec<u8> {
    vec![
        0x00, 0x00, 0x00, 0x14, b'f', b't', b'y', b'p', b'i', b's', b'o', b'm', 0x00, 0x00, 0x02, 0x00, b'i',
        b's', b'o', b'm',
    ]
}

fn movie(mac_secs: u32) -> Vec<u8> {
    let mut mvhd: Vec<u8> = Vec::new();
    mvhd.extend_from_slice(&108u32.to_be_bytes());
    mvhd.extend_from_slice(b"mvhd");
    mvhd.push(0);
    mvhd.extend_from_slice(&[0u8; 3]);
    mvhd.extend_from_slice(&mac_secs.to_be_bytes());
    mvhd.extend_from_slice(&mac_secs.to_be_bytes());
    mvhd.extend_from_slice(&1000u32.to_be_bytes());
    mvhd.extend_from_slice(&0u32.to_be_bytes());
    mvhd.extend_from_slice(&0x00010000u32.to_be_bytes());
    mvhd.extend_from_slice(&0x0100u16.to_be_bytes());
    mvhd.extend_from_slice(&[0u8; 10]);
    mvhd.extend_from_slice(&[
        0x00, 0x01, 0x00, 0x00, 0x00, 0x00, 0x00, 0x00, 0x00, 0x00, 0x00, 0x00, 0x00, 0x00, 0x00, 0x00, 0x00,
        0x01, 0x00, 0x00, 0x00, 0x00, 0x00, 0x00, 0x00, 0x00, 0x00, 0x00, 0x00, 0x00, 0x00, 0x00, 0x40, 0x00,
        0x00, 0x00,
    ]);
    mvhd.extend_from_slice(&[0u8; 24]);
    mvhd.extend_from_slice(&1u32.to_be_bytes());

    let mut moov: Vec<u8> = Vec::new();
    moov.extend_from_slice(&116u32.to_be_bytes());
    moov.extend_from_slice(b"moov");
    moov.extend_from_slice(&mvhd);

    let mut data = ftyp();
    data.extend_from_slice(&moov);
    data
}

#[test]
fn test_parse_exif_datetime_valid() {
    let dt = parse_exif_datetime("2024:03:15 10:30:45").unwrap().local;
    assert_eq!(full(&dt), "2024-03-15 10:30:45");
}

#[test]
fn test_parse_exif_datetime_invalid() {
    assert!(parse_exif_datetime("not a date").is_none());
    assert!(parse_exif_datetime("2024-03-15 10:30:45").is_none());
    assert!(parse_exif_datetime("").is_none());
}

#[test]
fn test_parse_exif_datetime_with_trailing_whitespace() {
    let dt = parse_exif_datetime("  2024:06:01 08:00:00  ").unwrap().local;
    assert_eq!(format!("{:04}", dt.year), "2024");
}

#[test]
fn parse_exif_datetime_rejects_impossible_dates() {
    assert!(parse_exif_datetime("2024:02:30 10:00:00").is_none());
    assert!(parse_exif_datetime("2024:13:01 10:00:00").is_none());
    assert!(parse_exif_datetime("2024:01:01 24:00:00").is_none());
}

#[test]
fn exif_text_round_trip() {
    let d = LocalDateTime { year: 2025, month: 6, day: 26, hour: 12, minute: 0, second: 0 };
    let text = format_exif_datetime(&d);
    assert_eq!(text, "2025:06:26 12:00:00");
    assert_eq!(parse_exif_datetime(&text).map(|t| t.local), Some(d));
}

#[test]
fn exif_text_of_early_year_is_padded() {
    let d = LocalDateTime { year: 7, month: 1, day: 2, hour: 3, minute: 4, second: 5 };
    assert_eq!(format_exif_datetime(&d), "0007:01:02 03:04:05");
}

#[test]
fn test_read_quicktime_date_no_mvhd_returns_error() {
    let found = scan(&ftyp());
    assert_eq!(found, None);
    let err = QuickTimeDateReader.date_from_creation_time(found).unwrap_err();
    assert!(matches!(err, ExifError::NoDateTimeOriginal));
}

#[test]
fn test_read_quicktime_date_valid() {
    // 2026-01-02 11:41:57 UTC: unix 1_767_354_117, mac 3_850_198_917
    let found = scan(&movie(3_850_198_917));
    assert_eq!(found, Some(1_767_354_117));
    let dt = QuickTimeDateReader.date_from_creation_time(found).unwrap();
    assert_eq!(dt.unix_secs, 1_767_354_117);
    let utc = Utc.timestamp_opt(dt.unix_secs, 0).unwrap();
    assert_eq!(utc.format("%Y-%m-%d %H:%M:%S").to_string(), "2026-01-02 11:41:57");
    let expected: DateTime<Local> = utc.with_timezone(&Local);
    assert_eq!(full(&dt.local), expected.format("%Y-%m-%d %H:%M:%S").to_string());
}

#[test]
fn test_read_quicktime_date_zero_creation_time_returns_error() {
    let found = scan(&movie(0));
    let err = QuickTimeDateReader.date_from_creation_time(found).unwrap_err();
    assert!(
        matches!(err, ExifError::NoDateTimeOriginal),
        "creation_time=0 must be treated as missing date, not 1970-01-01"
    );
}

#[test]
fn quicktime_scan_moves_through_the_boxes() {
    let data = movie(3_850_198_917);
    let st = QuickTimeScan::start();
    let next = st.step(&data[0..16]);
    assert_eq!(next, QtStep::Continue(QuickTimeScan { stage: QtStage::TopLevel, pos: 20 }));
    let st = QuickTimeScan { stage: QtStage::TopLevel, pos: 20 };
    let next = st.step(&data[20..36]);
    assert_eq!(next, QtStep::Continue(QuickTimeScan { stage: QtStage::InMoov { end: 136 }, pos: 28 }));
    let st = QuickTimeScan { stage: QtStage::InMoov { end: 136 }, pos: 28 };
    let next = st.step(&data[28..44]);
    assert_eq!(next, QtStep::Continue(QuickTimeScan { stage: QtStage::MovieHeader, pos: 36 }));
}

#[test]
fn mvhd_version_one_has_a_64_bit_time() {
    let mut body = vec![1u8, 0, 0, 0];
    body.extend_from_slice(&3_850_198_917u64.to_be_bytes());
    assert_eq!(parse_mvhd_creation_time(&body), Some(1_767_354_117));
    assert_eq!(parse_mvhd_creation_time(&[2u8, 0, 0, 0, 0, 0, 0, 1]), None);
    assert_eq!(parse_mvhd_creation_time(&[0u8, 0, 0]), None);
    // before the Unix epoch the time is negative
    assert_eq!(parse_mvhd_creation_time(&[0u8, 0, 0, 0, 0, 0, 0, 1]), Some(1 - 2_082_844_800));
}

#[test]
fn box_headers_small_and_extended() {
    let h = [0u8, 0, 0, 0x14, b'f', b't', b'y', b'p'];
    assert_eq!(read_box_header(&h), Some((false, false, 8, 12)));
    let mut ext = vec![0u8, 0, 0, 1, b'm', b'o', b'o', b'v'];
    ext.extend_from_slice(&40u64.to_be_bytes());
    assert_eq!(read_box_header(&ext), Some((true, false, 16, 24)));
    assert_eq!(read_box_header(&[0u8, 0, 0, 0, b'm', b'v', b'h', b'd']), None);
    assert_eq!(read_box_header(&[0u8, 0, 0]), None);
}

/// A minimal JPEG whose EXIF holds `DateTimeOriginal` (tag 0x9003) as `text`.
fn jpeg_with_exif(text: &[u8]) -> Vec<u8> {
    let count = (text.len() + 1) as u32;
    let mut tiff: Vec<u8> = Vec::new();
    tiff.extend_from_slice(b"II");
    tiff.extend_from_slice(&[0x2A, 0x00]);
    tiff.extend_from_slice(&8u32.to_le_bytes());
    tiff.extend_from_slice(&1u16.to_le_bytes());
    tiff.extend_from_slice(&[0x69, 0x87]);
    tiff.extend_from_slice(&[0x04, 0x00]);
    tiff.extend_from_slice(&1u32.to_le_bytes());
    tiff.extend_from_slice(&26u32.to_le_bytes());
    tiff.extend_from_slice(&0u32.to_le_bytes());
    tiff.extend_from_slice(&1u16.to_le_bytes());
    tiff.extend_from_slice(&[0x03, 0x90]);
    tiff.extend_from_slice(&[0x02, 0x00]);
    tiff.extend_from_slice(&count.to_le_bytes());
    tiff.extend_from_slice(&44u32.to_le_bytes());
    tiff.extend_from_slice(&0u32.to_le_bytes());
    tiff.extend_from_slice(text);
    tiff.push(0x00);

    let mut app1: Vec<u8> = Vec::new();
    app1.extend_from_slice(b"Exif\x00\x00");
    app1.extend_from_slice(&tiff);
    let len = (app1.len() + 2) as u16;

    let mut data: Vec<u8> = vec![0xFF, 0xD8, 0xFF, 0xE1];
    data.extend_from_slice(&len.to_be_bytes());
    data.extend_from_slice(&app1);
    data.extend_from_slice(&[0xFF, 0xD9]);
    data
}

fn jpeg_without_exif() -> Vec<u8> {
    let mut data: Vec<u8> = vec![0xFF, 0xD8, 0xFF, 0xE0, 0x00, 0x10];
    data.extend_from_slice(b"JFIF\x00");
    data.extend_from_slice(&[0x01, 0x01, 0x00, 0x00, 0x01, 0x00, 0x01, 0x00, 0x00]);
    data.extend_from_slice(&[0xFF, 0xD9]);
    data
}

#[test]
fn exif_reader_reads_date_time_original() {
    let data = jpeg_with_exif(b"2024:03:15 10:30:00");
    let reader = ExifDateReader;
    assert_eq!(reader.date_text(&data), Some("2024:03:15 10:30:00".to_string()));
    let d = reader.read_date(&data).unwrap().local;
    assert_eq!(full(&d), "2024-03-15 10:30:00");
}

#[test]
fn test_read_exif_date_no_exif_returns_error() {
    let reader = ExifDateReader;
    let err = reader.read_date(&[]).unwrap_err();
    assert!(matches!(err, ExifError::NoDateTimeOriginal));
    let err = reader.read_date(&jpeg_without_exif()).unwrap_err();
    assert!(matches!(err, ExifError::NoDateTimeOriginal));
}

#[test]
fn exif_reader_rejects_malformed_text() {
    let data = jpeg_with_exif(b"2024-03-15 10:30:00");
    let reader = ExifDateReader;
    assert_eq!(reader.read_date(&data), Err(ExifError::NoDateTimeOriginal));
}

#[test]
fn exif_fields_must_be_digits() {
    assert!(parse_exif_datetime("+024:03:15 10:30:45").is_none());
    assert!(parse_exif_datetime("2024:+3:15 10:30:45").is_none());
    assert!(parse_exif_datetime("2024:03:15 10:30:4é").is_none());
}

#[test]
fn wrapping_box_size_ends_the_scan() {
    let mut data = ftyp();
    data.extend_from_slice(&[0, 0, 0, 1]);
    data.extend_from_slice(b"free");
    data.extend_from_slice(&(u64::MAX - 19).to_be_bytes());
    assert_eq!(scan(&data), None);
    let st = QuickTimeScan { stage: QtStage::TopLevel, pos: 20 };
    assert_eq!(st.step(&data[20..36]), QtStep::NotFound);
}

#[test]
fn mvhd_time_before_1970_is_negative_and_huge_times_give_nothing() {
    let mut body = vec![0u8, 0, 0, 0];
    body.extend_from_slice(&1_000_000_000u32.to_be_bytes());
    assert_eq!(parse_mvhd_creation_time(&body), Some(1_000_000_000 - 2_082_844_800));
    let mut huge = vec![1u8, 0, 0, 0];
    huge.extend_from_slice(&u64::MAX.to_be_bytes());
    assert_eq!(parse_mvhd_creation_time(&huge), None);
    let dt = QuickTimeDateReader.date_from_creation_time(Some(1_000_000_000 - 2_082_844_800)).unwrap();
    assert_eq!(dt.unix_secs, 1_000_000_000 - 2_082_844_800);
    assert!(dt.local.year == 1935 || dt.local.year == 1936);
}

#[test]
fn quicktime_reader_reads_file_contents() {
    let data = movie(3_850_198_917);
    assert_eq!(scan_creation_time(&data), Some(1_767_354_117));
    let t = QuickTimeDateReader.read_date(&data).unwrap();
    assert_eq!(t.unix_secs, 1_767_354_117);
    assert_eq!(
        QuickTimeDateReader.read_date(&ftyp()),
        Err(ExifError::NoDateTimeOriginal)
    );
    assert_eq!(
        QuickTimeDateReader.read_date(&movie(0)),
        Err(ExifError::NoDateTimeOriginal)
    );
}
