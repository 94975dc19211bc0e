//! Where a capture date comes from: the metadata readers and the file-name patterns
//! used when metadata is absent.

use vstd::prelude::*;
use vstd::string::*;
use vstd::utf8::*;
use crate::datetime::{civil, local_from_civil, local_from_unix_seconds, CaptureTime, FieldsOutcome, LocalDateTime};
use crate::numeric::{all_digits, digits_value, parse_i64_digits};
use crate::path::{file_stem, path_file_stem};
use crate::text::{on_char_boundary, string_from_chars};
use crate::error::ExifError;
use crate::exif::{qt_scan, scan_creation_time, QuickTimeScan, exif_date_time_original_values, exif_text_outcome, parse_exif_datetime, read_date_time_original_values, string_from_utf8_lossy, utf8_lossy};
use crate::naming::{is_video, is_video_extension};
use crate::datetime::{local_time_of, unix_seconds_in_range};
use vstd::slice::slice_to_vec;

verus! {

/// `s` without the prefix `p`, if it starts with it (`str::strip_prefix`).
pub open spec fn strip_prefix(s: Seq<u8>, p: Seq<u8>) -> Option<Seq<u8>> {
    if s.len() >= p.len() && s.subrange(0, p.len() as int) == p {
        Some(s.subrange(p.len() as int, s.len() as int))
    } else {
        None
    }
}

/// The bytes of `IMG-`.
pub open spec fn img_dash() -> Seq<u8> {
    seq![73u8, 77u8, 71u8, 45u8]
}

/// The bytes of `VID-`.
pub open spec fn vid_dash() -> Seq<u8> {
    seq![86u8, 73u8, 68u8, 45u8]
}

/// The bytes of `AUD-`.
pub open spec fn aud_dash() -> Seq<u8> {
    seq![65u8, 85u8, 68u8, 45u8]
}

/// The bytes of `IMG_`.
pub open spec fn img_underscore() -> Seq<u8> {
    seq![73u8, 77u8, 71u8, 95u8]
}

/// The bytes of `FB_IMG_`.
pub open spec fn fb_img() -> Seq<u8> {
    seq![70u8, 66u8, 95u8, 73u8, 77u8, 71u8, 95u8]
}

/// The bytes of `-WA`.
pub open spec fn dash_wa() -> Seq<u8> {
    seq![45u8, 87u8, 65u8]
}

/// The date fields `YYYYMMDD` of `date` (eight bytes, all of them ASCII digits) with
/// the given time of day.
pub open spec fn ymd_outcome(date: Seq<u8>, hour: u32, minute: u32, second: u32) -> FieldsOutcome {
    if !all_digits(date) {
        FieldsOutcome::NoMatch
    } else {
        FieldsOutcome::Fields(
            civil(
                digits_value(date.subrange(0, 4)) as i32,
                digits_value(date.subrange(4, 6)) as u32,
                digits_value(date.subrange(6, 8)) as u32,
                hour,
                minute,
                second,
            ),
        )
    }
}

/// The part of a WhatsApp stem after `IMG-`, `VID-` or `AUD-`.
pub open spec fn whatsapp_rest(s: Seq<u8>) -> Option<Seq<u8>> {
    match strip_prefix(s, img_dash()) {
        Some(a) => Some(a),
        None => match strip_prefix(s, vid_dash()) {
            Some(a) => Some(a),
            None => strip_prefix(s, aud_dash()),
        },
    }
}

/// WhatsApp names `IMG-YYYYMMDD-WAxxxx` (also `VID-`, `AUD-`): the date at noon.
pub open spec fn whatsapp_outcome(s: Seq<u8>) -> FieldsOutcome {
    match whatsapp_rest(s) {
        None => FieldsOutcome::NoMatch,
        Some(a) => if a.len() < 11 {
            FieldsOutcome::NoMatch
        } else if !on_char_boundary(a, 8) {
            FieldsOutcome::SplitChar
        } else if a.subrange(8, 11) != dash_wa() {
            FieldsOutcome::NoMatch
        } else {
            ymd_outcome(a.subrange(0, 8), 12, 0, 0)
        },
    }
}

/// The stem with an `IMG_` prefix removed, if it has one.
pub open spec fn android_rest(s: Seq<u8>) -> Seq<u8> {
    match strip_prefix(s, img_underscore()) {
        Some(a) => a,
        None => s,
    }
}

/// Android camera names `IMG_YYYYMMDD_HHMMSS…` or bare `YYYYMMDD_HHMMSS…`.
pub open spec fn android_outcome(s: Seq<u8>) -> FieldsOutcome {
    let t = android_rest(s);
    if t.len() < 15 {
        FieldsOutcome::NoMatch
    } else if !on_char_boundary(t, 8) {
        FieldsOutcome::SplitChar
    } else if t[8] != 95 {
        FieldsOutcome::NoMatch
    } else if !on_char_boundary(t, 15) {
        FieldsOutcome::SplitChar
    } else if !all_digits(t.subrange(0, 8)) || !all_digits(t.subrange(9, 15)) {
        FieldsOutcome::NoMatch
    } else {
        FieldsOutcome::Fields(
            civil(
                digits_value(t.subrange(0, 4)) as i32,
                digits_value(t.subrange(4, 6)) as u32,
                digits_value(t.subrange(6, 8)) as u32,
                digits_value(t.subrange(9, 11)) as u32,
                digits_value(t.subrange(11, 13)) as u32,
                digits_value(t.subrange(13, 15)) as u32,
            ),
        )
    }
}

/// Length of the run of ASCII digits at the start of `s`.
pub open spec fn leading_digits(s: Seq<u8>) -> nat
    decreases s.len(),
{
    if s.len() > 0 && 48 <= s[0] <= 57 {
        1 + leading_digits(s.drop_first())
    } else {
        0
    }
}

/// Facebook names `FB_IMG_<unix milliseconds>…`: the Unix seconds, when the leading
/// digits after the prefix form a number that fits an `i64`.
pub open spec fn facebook_seconds(s: Seq<u8>) -> Option<int> {
    match strip_prefix(s, fb_img()) {
        None => None,
        Some(m) => {
            let k = leading_digits(m);
            let v = digits_value(m.subrange(0, k as int));
            if k == 0 || v > i64::MAX {
                None
            } else {
                Some(v / 1000)
            }
        },
    }
}

/// The pattern read calendar fields that name a valid date and time.
pub open spec fn yields_valid(o: FieldsOutcome) -> bool {
    o matches FieldsOutcome::Fields(f) && f.is_valid()
}

/// `t` is a moment that the file name of `path` can give: the valid fields of the
/// WhatsApp or Android pattern in the local time zone, or the instant of an in-range
/// Facebook timestamp.
pub open spec fn filename_date_candidate(path: Seq<char>, t: CaptureTime) -> bool {
    stem_bytes(path) matches Some(s) && {
        ||| (whatsapp_outcome(s) == FieldsOutcome::Fields(t.local) && t.local.is_valid() && local_time_of(
            t.local,
            t.unix_secs as int,
        ))
        ||| (android_outcome(s) == FieldsOutcome::Fields(t.local) && t.local.is_valid() && local_time_of(
            t.local,
            t.unix_secs as int,
        ))
        ||| (facebook_seconds(s) == Some(t.unix_secs as int) && unix_seconds_in_range(t.unix_secs as int)
            && t.local.fields_in_range() && local_time_of(t.local, t.unix_secs as int))
    }
}

/// Some pattern can give a date for the file name of `path`.
pub open spec fn filename_date_possible(path: Seq<char>) -> bool {
    stem_bytes(path) matches Some(s) && {
        ||| yields_valid(whatsapp_outcome(s))
        ||| yields_valid(android_outcome(s))
        ||| (facebook_seconds(s) matches Some(secs) && unix_seconds_in_range(secs))
    }
}

/// Only the Facebook pattern applies to the file name of `path`, with a timestamp in
/// range: the name gives a date whatever the time zone.
pub open spec fn facebook_date_only(path: Seq<char>) -> bool {
    stem_bytes(path) matches Some(s) && {
        &&& !yields_valid(whatsapp_outcome(s))
        &&& !yields_valid(android_outcome(s))
        &&& facebook_seconds(s) matches Some(secs)
        &&& unix_seconds_in_range(secs)
    }
}

/// The UTF-8 bytes of the file stem of `path`, if it has one.
pub open spec fn stem_bytes(path: Seq<char>) -> Option<Seq<u8>> {
    match file_stem(path) {
        Some(st) => Some(encode_utf8(st)),
        None => None,
    }
}

fn has_prefix(s: &[u8], off: usize, p: &[u8]) -> (r: bool)
    requires
        off <= s@.len(),
    ensures
        r == (s@.len() - off >= p@.len() && s@.subrange(off as int, off + p@.len()) == p@),
{
    if s.len() - off < p.len() {
        return false;
    }
    let mut i: usize = 0;
    while i < p.len()
        invariant
            off <= s@.len(),
            s@.len() == s.len(),
            s@.len() - off >= p@.len(),
            i <= p@.len(),
            forall|j: int| 0 <= j < i ==> s@[off + j] == p@[j],
        decreases p@.len() - i,
    {
        if s[off + i] != p[i] {
            assert(s@.subrange(off as int, off + p@.len())[i as int] != p@[i as int]);
            return false;
        }
        i = i + 1;
    }
    assert(s@.subrange(off as int, off + p@.len()) =~= p@);
    true
}

fn continuation_at(s: &[u8], i: usize) -> (r: bool)
    requires
        i < s@.len(),
    ensures
        r == (128 <= s@[i as int] <= 191),
{
    128 <= s[i] && s[i] <= 191
}

/// The date fields of `s[off..off + 8]` with a fixed time of day.
fn ymd_fields(s: &[u8], off: usize, hour: u32, minute: u32, second: u32) -> (r: FieldsOutcome)
    requires
        off + 8 <= s.len(),
    ensures
        r == ymd_outcome(s@.subrange(off as int, off + 8), hour, minute, second),
{
    let ghost date = s@.subrange(off as int, off + 8);
    if crate::numeric::digits_run_value(s, off, off + 8).is_none() {
        return FieldsOutcome::NoMatch;
    }
    proof {
        assert forall|k: int, m: int| 0 <= k <= m <= 8 implies all_digits(#[trigger] date.subrange(k, m)) by {
            assert forall|j: int| 0 <= j < m - k implies crate::numeric::is_digit(#[trigger] date.subrange(k, m)[j]) by {
                assert(date.subrange(k, m)[j] == date[k + j]);
            }
        }
        assert(date.subrange(0, 4) =~= s@.subrange(off as int, off + 4));
        assert(date.subrange(4, 6) =~= s@.subrange(off + 4, off + 6));
        assert(date.subrange(6, 8) =~= s@.subrange(off + 6, off + 8));
        crate::numeric::lemma_digits_value_bounds(s@.subrange(off as int, off + 4));
        crate::numeric::lemma_digits_value_bounds(s@.subrange(off + 4, off + 6));
        crate::numeric::lemma_digits_value_bounds(s@.subrange(off + 6, off + 8));
        crate::numeric::lemma_pow10_values();
    }
    let y = match crate::numeric::digits_run_value(s, off, off + 4) {
        Some(v) => v,
        None => return FieldsOutcome::NoMatch,
    };
    let mo = match crate::numeric::digits_run_value(s, off + 4, off + 6) {
        Some(v) => v,
        None => return FieldsOutcome::NoMatch,
    };
    let d = match crate::numeric::digits_run_value(s, off + 6, off + 8) {
        Some(v) => v,
        None => return FieldsOutcome::NoMatch,
    };
    FieldsOutcome::Fields(LocalDateTime { year: y as i32, month: mo as u32, day: d as u32, hour, minute, second })
}

/// The WhatsApp pattern read from the stem bytes `s`.
pub fn whatsapp_fields(s: &[u8]) -> (r: FieldsOutcome)
    ensures
        r == whatsapp_outcome(s@),
{
    let img: [u8; 4] = [73, 77, 71, 45];
    let vid: [u8; 4] = [86, 73, 68, 45];
    let aud: [u8; 4] = [65, 85, 68, 45];
    let wa: [u8; 3] = [45, 87, 65];
    assert(img@ =~= img_dash());
    assert(vid@ =~= vid_dash());
    assert(aud@ =~= aud_dash());
    assert(wa@ =~= dash_wa());
    if !(has_prefix(s, 0, img.as_slice()) || has_prefix(s, 0, vid.as_slice()) || has_prefix(s, 0, aud.as_slice())) {
        return FieldsOutcome::NoMatch;
    }
    let ghost a = s@.subrange(4, s@.len() as int);
    assert(whatsapp_rest(s@) == Some(a));
    if s.len() - 4 < 11 {
        return FieldsOutcome::NoMatch;
    }
    assert(a[8] == s@[12]);
    if continuation_at(s, 12) {
        return FieldsOutcome::SplitChar;
    }
    assert(a.subrange(8, 11) =~= s@.subrange(12, 15));
    if !has_prefix(s, 12, wa.as_slice()) {
        return FieldsOutcome::NoMatch;
    }
    assert(a.subrange(0, 8) =~= s@.subrange(4, 12));
    ymd_fields(s, 4, 12, 0, 0)
}

/// The Android camera pattern read from the stem bytes `s`.
pub fn android_fields(s: &[u8]) -> (r: FieldsOutcome)
    ensures
        r == android_outcome(s@),
{
    let img: [u8; 4] = [73, 77, 71, 95];
    assert(img@ =~= img_underscore());
    let o: usize = if has_prefix(s, 0, img.as_slice()) {
        4
    } else {
        0
    };
    let ghost t = android_rest(s@);
    assert(t =~= s@.subrange(o as int, s@.len() as int));
    if s.len() - o < 15 {
        return FieldsOutcome::NoMatch;
    }
    assert(t[8] == s@[o + 8]);
    if continuation_at(s, o + 8) {
        return FieldsOutcome::SplitChar;
    }
    if s[o + 8] != 95 {
        return FieldsOutcome::NoMatch;
    }
    if s.len() - o > 15 && continuation_at(s, o + 15) {
        assert(t[15] == s@[o + 15]);
        return FieldsOutcome::SplitChar;
    }
    assert(t.subrange(0, 8) =~= s@.subrange(o as int, o + 8));
    assert(t.subrange(9, 15) =~= s@.subrange(o + 9, o + 15));
    assert(t.subrange(0, 4) =~= s@.subrange(o as int, o + 4));
    assert(t.subrange(4, 6) =~= s@.subrange(o + 4, o + 6));
    assert(t.subrange(6, 8) =~= s@.subrange(o + 6, o + 8));
    assert(t.subrange(9, 11) =~= s@.subrange(o + 9, o + 11));
    assert(t.subrange(11, 13) =~= s@.subrange(o + 11, o + 13));
    assert(t.subrange(13, 15) =~= s@.subrange(o + 13, o + 15));
    if crate::numeric::digits_run_value(s, o, o + 8).is_none() || crate::numeric::digits_run_value(
        s,
        o + 9,
        o + 15,
    ).is_none() {
        return FieldsOutcome::NoMatch;
    }
    proof {
        let d = s@.subrange(o as int, o + 8);
        let tm = s@.subrange(o + 9, o + 15);
        assert forall|k: int, m: int| 0 <= k <= m <= 8 implies all_digits(#[trigger] d.subrange(k, m)) by {
            assert forall|j: int| 0 <= j < m - k implies crate::numeric::is_digit(#[trigger] d.subrange(k, m)[j]) by {
                assert(d.subrange(k, m)[j] == d[k + j]);
            }
        }
        assert forall|k: int, m: int| 0 <= k <= m <= 6 implies all_digits(#[trigger] tm.subrange(k, m)) by {
            assert forall|j: int| 0 <= j < m - k implies crate::numeric::is_digit(#[trigger] tm.subrange(k, m)[j]) by {
                assert(tm.subrange(k, m)[j] == tm[k + j]);
            }
        }
        assert(d.subrange(0, 4) =~= s@.subrange(o as int, o + 4));
        assert(d.subrange(4, 6) =~= s@.subrange(o + 4, o + 6));
        assert(d.subrange(6, 8) =~= s@.subrange(o + 6, o + 8));
        assert(tm.subrange(0, 2) =~= s@.subrange(o + 9, o + 11));
        assert(tm.subrange(2, 4) =~= s@.subrange(o + 11, o + 13));
        assert(tm.subrange(4, 6) =~= s@.subrange(o + 13, o + 15));
        crate::numeric::lemma_digits_value_bounds(s@.subrange(o as int, o + 4));
        crate::numeric::lemma_digits_value_bounds(s@.subrange(o + 4, o + 6));
        crate::numeric::lemma_digits_value_bounds(s@.subrange(o + 6, o + 8));
        crate::numeric::lemma_digits_value_bounds(s@.subrange(o + 9, o + 11));
        crate::numeric::lemma_digits_value_bounds(s@.subrange(o + 11, o + 13));
        crate::numeric::lemma_digits_value_bounds(s@.subrange(o + 13, o + 15));
        crate::numeric::lemma_pow10_values();
        assert(crate::numeric::pow10(2) == 100) by {
            reveal_with_fuel(crate::numeric::pow10, 3);
        }
    }
    let y = crate::numeric::digits_run_value(s, o, o + 4).unwrap();
    let mo = crate::numeric::digits_run_value(s, o + 4, o + 6).unwrap();
    let d = crate::numeric::digits_run_value(s, o + 6, o + 8).unwrap();
    let h = crate::numeric::digits_run_value(s, o + 9, o + 11).unwrap();
    let mi = crate::numeric::digits_run_value(s, o + 11, o + 13).unwrap();
    let se = crate::numeric::digits_run_value(s, o + 13, o + 15).unwrap();
    FieldsOutcome::Fields(
        LocalDateTime {
            year: y as i32,
            month: mo as u32,
            day: d as u32,
            hour: h as u32,
            minute: mi as u32,
            second: se as u32,
        },
    )
}

/// The Unix seconds of the Facebook pattern read from the stem bytes `s`.
pub fn facebook_unix_seconds(s: &[u8]) -> (r: Option<i64>)
    ensures
        r matches Some(v) ==> facebook_seconds(s@) == Some(v as int),
        r is None ==> facebook_seconds(s@) is None,
{
    let fb: [u8; 7] = [70, 66, 95, 73, 77, 71, 95];
    assert(fb@ =~= fb_img());
    if !has_prefix(s, 0, fb.as_slice()) {
        return None;
    }
    let ghost m = s@.subrange(7, s@.len() as int);
    assert(strip_prefix(s@, fb_img()) == Some(m));
    let mut k: usize = 0;
    assert(m.subrange(0, m.len() as int) =~= m);
    while 7 + k < s.len() && 48 <= s[7 + k] && s[7 + k] <= 57
        invariant
            7 + k <= s@.len(),
            s@.len() == s.len(),
            m == s@.subrange(7, s@.len() as int),
            leading_digits(m) == k + leading_digits(m.subrange(k as int, m.len() as int)),
            all_digits(m.subrange(0, k as int)),
        decreases s@.len() - k,
    {
        let ghost rest = m.subrange(k as int, m.len() as int);
        assert(rest[0] == s@[7 + k]);
        assert(rest.drop_first() =~= m.subrange(k + 1, m.len() as int));
        assert(all_digits(m.subrange(0, k + 1))) by {
            assert forall|j: int| 0 <= j < k + 1 implies crate::numeric::is_digit(#[trigger] m.subrange(0, k + 1)[j]) by {
                if j < k {
                    assert(m.subrange(0, k + 1)[j] == m.subrange(0, k as int)[j]);
                }
            }
        }
        k = k + 1;
    }
    proof {
        let rest = m.subrange(k as int, m.len() as int);
        if rest.len() > 0 {
            assert(rest[0] == s@[7 + k]);
        }
        assert(leading_digits(rest) == 0);
        assert(m.subrange(0, k as int) =~= s@.subrange(7, 7 + k));
        assert(leading_digits(m) == k);
    }
    if k == 0 {
        return None;
    }
    match parse_i64_digits(s, 7, 7 + k) {
        Some(ms) => {
            proof {
                crate::numeric::lemma_digits_value_bounds(s@.subrange(7, 7 + k));
            }
            assert(ms >= 0);
            Some(ms / 1000)
        },
        None => None,
    }
}

/// The UTF-8 bytes of the file stem of `path`.
pub fn stem_bytes_of(path: &str) -> (r: Option<Vec<u8>>)
    ensures
        r matches Some(b) ==> stem_bytes(path@) == Some(b@),
        r is None ==> stem_bytes(path@) is None,
{
    match path_file_stem(path) {
        None => None,
        Some(st) => {
            let s = string_from_chars(&st, 0, st.len());
            assert(s@ =~= st@);
            let b = s.as_str().as_bytes();
            Some(slice_to_vec(b))
        },
    }
}

/// Reads a capture date from the file name of `path` when no metadata is available.
///
/// Patterns tried in order: WhatsApp (`IMG-YYYYMMDD-WAxxxx`, `VID-…`, `AUD-…`, at noon),
/// Android camera (`IMG_YYYYMMDD_HHMMSS…` or bare `YYYYMMDD_HHMMSS…`) and Facebook
/// (`FB_IMG_<unix milliseconds>…`). Fields that are not a valid date give nothing.
/// A Facebook timestamp gives its instant exactly. Whether valid fields name a time of
/// the machine's time zone (a daylight-saving gap names none, and the next pattern is
/// tried), and the offset between local fields and instant, depend on that zone.
pub fn parse_date_from_filename(path: &str) -> (r: Option<CaptureTime>)
    ensures
        r matches Some(t) ==> filename_date_candidate(path@, t),
        !filename_date_possible(path@) ==> r is None,
        facebook_date_only(path@) ==> r is Some,
{
    let b = match stem_bytes_of(path) {
        None => return None,
        Some(b) => b,
    };
    if let FieldsOutcome::Fields(f) = whatsapp_fields(b.as_slice()) {
        if let Some(t) = local_from_civil(f.year, f.month, f.day, f.hour, f.minute, f.second) {
            return Some(t);
        }
    }
    if let FieldsOutcome::Fields(f) = android_fields(b.as_slice()) {
        if let Some(t) = local_from_civil(f.year, f.month, f.day, f.hour, f.minute, f.second) {
            return Some(t);
        }
    }
    match facebook_unix_seconds(b.as_slice()) {
        Some(secs) => local_from_unix_seconds(secs),
        None => None,
    }
}

/// The metadata reader used for a file, by its lowercase extension.
#[derive(Debug, Clone, Copy, PartialEq, Eq, Structural)]
pub enum DateSource {
    /// EXIF `DateTimeOriginal` (photos).
    Exif,
    /// QuickTime `mvhd` creation time (videos).
    QuickTime,
}

/// Chooses the metadata reader for the lowercase extension `ext_lower`: QuickTime for
/// video extensions, EXIF for every other one. The file name is the fallback in both cases.
pub fn for_extension(ext_lower: &str) -> (r: DateSource)
    ensures
        r == (if is_video_extension(ext_lower@) { DateSource::QuickTime } else { DateSource::Exif }),
{
    if is_video(ext_lower) {
        DateSource::QuickTime
    } else {
        DateSource::Exif
    }
}

/// Reads EXIF `DateTimeOriginal` (tag 0x9003) — for photos (JPEG, HEIC, PNG, TIFF…).
pub struct ExifDateReader;

/// Reads the QuickTime `mvhd` creation time (UTC, Mac epoch 1904-01-01) — for MP4, MOV…
pub struct QuickTimeDateReader;

/// The text of the first `DateTimeOriginal` value in the file contents `data`,
/// decoded as UTF-8 with invalid sequences replaced.
pub open spec fn exif_date_text(data: Seq<u8>) -> Option<Seq<char>> {
    match exif_date_time_original_values(data) {
        Some(v) => if v.len() > 0 { Some(utf8_lossy(v[0])) } else { None },
        None => None,
    }
}

impl ExifDateReader {
    /// The `DateTimeOriginal` text of the file contents `data`.
    pub fn date_text(&self, data: &[u8]) -> (r: Option<String>)
        ensures
            r matches Some(t) ==> exif_date_text(data@) == Some(t@),
            r is None ==> exif_date_text(data@) is None,
    {
        match read_date_time_original_values(data) {
            None => None,
            Some(values) => {
                if values.len() == 0 {
                    None
                } else {
                    assert(values.deep_view().len() == values@.len());
                    assert(values.deep_view()[0] =~= values@[0]@);
                    let t = string_from_utf8_lossy(values[0].as_slice());
                    Some(t)
                }
            },
        }
    }
}

impl QuickTimeDateReader {
    /// The capture moment of an `mvhd` creation time (Unix seconds) found by a
    /// [`QuickTimeScan`] (`None` when the scan found none): that instant, with its
    /// fields in the machine's time zone.
    pub fn date_from_creation_time(&self, unix_secs: Option<i64>) -> (r: Result<CaptureTime, ExifError>)
        ensures
            r is Err ==> r == Err::<CaptureTime, ExifError>(ExifError::NoDateTimeOriginal),
            unix_secs is None ==> r is Err,
            unix_secs matches Some(u) ==> (r is Ok <==> unix_seconds_in_range(u as int)),
            r matches Ok(d) ==> (d.local.fields_in_range() && (unix_secs matches Some(u) && d.unix_secs == u
                && local_time_of(d.local, u as int))),
    {
        match unix_secs {
            None => Err(ExifError::NoDateTimeOriginal),
            Some(u) => match local_from_unix_seconds(u) {
                Some(d) => Ok(d),
                None => Err(ExifError::NoDateTimeOriginal),
            },
        }
    }
}

/// Reads a capture moment from the contents of a file; each container format has a
/// reader of its own, and the pipeline picks one by extension ([`for_extension`]).
pub trait DateReader {
    /// The capture moment held in the file contents `data`.
    fn read_date(&self, data: &[u8]) -> Result<CaptureTime, ExifError>;
}

impl DateReader for ExifDateReader {
    /// Reads the capture moment from the EXIF `DateTimeOriginal` of the file contents
    /// `data`: its fields in the machine's time zone.
    fn read_date(&self, data: &[u8]) -> (r: Result<CaptureTime, ExifError>)
        ensures
            r is Err ==> r == Err::<CaptureTime, ExifError>(ExifError::NoDateTimeOriginal),
            exif_date_text(data@) is None ==> r is Err,
            exif_date_text(data@) matches Some(t) ==> {
                &&& exif_text_outcome(t) is NoMatch ==> r is Err
                &&& exif_text_outcome(t) is SplitChar ==> r is Err
                &&& exif_text_outcome(t) matches FieldsOutcome::Fields(f) ==> {
                    &&& r matches Ok(d) ==> d.local == f && local_time_of(d.local, d.unix_secs as int)
                    &&& !f.is_valid() ==> r is Err
                }
            },
    {
        match self.date_text(data) {
            None => Err(ExifError::NoDateTimeOriginal),
            Some(t) => match parse_exif_datetime(t.as_str()) {
                Some(d) => Ok(d),
                None => Err(ExifError::NoDateTimeOriginal),
            },
        }
    }
}

impl DateReader for QuickTimeDateReader {
    /// Reads the capture moment from the `mvhd` creation time of the file contents
    /// `data`, by running the `moov → mvhd` scan over them.
    fn read_date(&self, data: &[u8]) -> (r: Result<CaptureTime, ExifError>)
        ensures
            r is Err ==> r == Err::<CaptureTime, ExifError>(ExifError::NoDateTimeOriginal),
            qt_scan(QuickTimeScan::start_spec(), data@) is None ==> r is Err,
            qt_scan(QuickTimeScan::start_spec(), data@) matches Some(u) ==> {
                &&& (r is Ok <==> unix_seconds_in_range(u))
                &&& r matches Ok(d) ==> d.unix_secs == u && d.local.fields_in_range() && local_time_of(d.local, u)
            },
    {
        self.date_from_creation_time(scan_creation_time(data))
    }
}

/// Falls back to the file name when the metadata reader found no date: a date from
/// the metadata always wins over one from the file name.
pub fn read_with_fallback(primary: Result<CaptureTime, ExifError>, path: &str) -> (r: Result<CaptureTime, ExifError>)
    ensures
        primary matches Ok(d) ==> r == Ok::<CaptureTime, ExifError>(d),
        primary is Err ==> {
            &&& r is Err ==> r == Err::<CaptureTime, ExifError>(ExifError::NoDateTimeOriginal)
            &&& r matches Ok(t) ==> filename_date_candidate(path@, t)
            &&& !filename_date_possible(path@) ==> r is Err
            &&& facebook_date_only(path@) ==> r is Ok
        },
{
    match primary {
        Ok(d) => Ok(d),
        Err(_) => match parse_date_from_filename(path) {
            Some(t) => Ok(t),
            None => Err(ExifError::NoDateTimeOriginal),
        },
    }
}

} // verus!
