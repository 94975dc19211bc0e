//! Capture dates stored inside media files: the QuickTime `mvhd` creation time
//! and the EXIF `DateTimeOriginal` text.

use vstd::prelude::*;
use vstd::string::*;
use vstd::utf8::*;
use crate::datetime::{civil, local_from_civil, local_time_of, CaptureTime, FieldsOutcome, LocalDateTime};
use crate::numeric::{all_digits, digits_value};
use crate::text::{
    ascii_of, chars_of, is_white_space, lemma_padded_digits, on_char_boundary, padded, push_padded,
    trim, trim_bounds, trim_start, year_text,
};

verus! {

/// Seconds between the Mac epoch (1904-01-01 UTC) and the Unix epoch (1970-01-01 UTC).
pub const MAC_EPOCH_OFFSET_SECS: u64 = 2082844800;

/// Big-endian value of the four bytes at `i`.
pub open spec fn be_u32_at(b: Seq<u8>, i: int) -> int {
    b[i] * 16777216 + b[i + 1] * 65536 + b[i + 2] * 256 + b[i + 3]
}

/// Big-endian value of the eight bytes at `i`.
pub open spec fn be_u64_at(b: Seq<u8>, i: int) -> int {
    be_u32_at(b, i) * 4294967296 + be_u32_at(b, i + 4)
}

/// `a - b`, or 0 when `b` exceeds `a`.
pub open spec fn saturating_sub(a: int, b: int) -> int {
    if a >= b { a - b } else { 0 }
}

/// The value of an unsigned 64-bit quantity reinterpreted as `i64`.
pub open spec fn as_i64(v: int) -> int {
    if v <= i64::MAX { v } else { v - 18446744073709551616 }
}

/// The four-byte box type `moov`.
pub open spec fn moov_tag() -> Seq<u8> {
    seq![109u8, 111u8, 111u8, 118u8]
}

/// The four-byte box type `mvhd`.
pub open spec fn mvhd_tag() -> Seq<u8> {
    seq![109u8, 118u8, 104u8, 100u8]
}

/// An ISOBMFF / QuickTime box header read from the start of `b`:
/// the box type, the header length and the payload length.
/// A 32-bit size of 0 (box running to the end of the file) is not supported;
/// a size of 1 announces a 64-bit size in the next eight bytes.
pub open spec fn box_header(b: Seq<u8>) -> Option<(Seq<u8>, int, int)> {
    if b.len() < 8 {
        None
    } else {
        let size = be_u32_at(b, 0);
        if size == 0 {
            None
        } else if size == 1 {
            if b.len() < 16 {
                None
            } else {
                Some((b.subrange(4, 8), 16, saturating_sub(be_u64_at(b, 8), 16)))
            }
        } else {
            Some((b.subrange(4, 8), 8, saturating_sub(size, 8)))
        }
    }
}

/// Where a relative seek of `payload` bytes (reinterpreted as `i64`) from `from` lands,
/// or `None` when the target is not a valid file offset.
pub open spec fn seek_target(from: int, payload: int) -> Option<int> {
    let t = from + as_i64(payload);
    if 0 <= t <= i64::MAX { Some(t) } else { None }
}

/// The Unix time of an `mvhd` creation time, from the bytes that follow the box header:
/// the version/flags word, then a 32-bit (version 0) or 64-bit (version 1) creation time
/// in seconds since the Mac epoch, which is `MAC_EPOCH_OFFSET_SECS` less as Unix seconds
/// (negative before 1970). A creation time of 0 means the field was never set; one
/// whose Unix seconds do not fit an `i64` gives nothing.
pub open spec fn mvhd_unix_seconds(b: Seq<u8>) -> Option<int> {
    if b.len() < 4 {
        None
    } else {
        let mac = if b[0] == 0 {
            if b.len() < 8 { None } else { Some(be_u32_at(b, 4)) }
        } else if b[0] == 1 {
            if b.len() < 12 { None } else { Some(be_u64_at(b, 4)) }
        } else {
            None
        };
        match mac {
            Some(m) => if m == 0 || m - MAC_EPOCH_OFFSET_SECS > i64::MAX {
                None
            } else {
                Some(m - MAC_EPOCH_OFFSET_SECS)
            },
            None => None,
        }
    }
}

/// Which part of the file the scan is reading.
#[derive(Debug, Clone, Copy, PartialEq, Eq, Structural)]
pub enum QtStage {
    /// Top-level boxes, looking for `moov`.
    TopLevel,
    /// Children of `moov`, looking for `mvhd`; `end` is the offset where `moov` ends.
    InMoov { end: u64 },
    /// The body of `mvhd`.
    MovieHeader,
}

/// The state of a scan for the `moov → mvhd` creation time: the stage and the
/// current stream offset.
#[derive(Debug, Clone, Copy, PartialEq, Eq, Structural)]
pub struct QuickTimeScan {
    pub stage: QtStage,
    pub pos: u64,
}

/// What a scan step leads to.
#[derive(Debug, Clone, Copy, PartialEq, Eq, Structural)]
pub enum QtStep {
    /// Read again at the new state.
    Continue(QuickTimeScan),
    /// The creation time, as Unix seconds.
    Found(i64),
    /// The file holds no usable creation time.
    NotFound,
}

/// The number of bytes a scan step reads at the current offset.
pub const QT_READ_LEN: usize = 16;

/// The step from `st` given the bytes `data` that the file holds at `st.pos`
/// (fewer than asked only where the file ends).
pub open spec fn qt_step(st: QuickTimeScan, data: Seq<u8>) -> QtStep {
    match st.stage {
        QtStage::MovieHeader => match mvhd_unix_seconds(data) {
            Some(u) => QtStep::Found(u as i64),
            None => QtStep::NotFound,
        },
        _ => {
            if (st.stage matches QtStage::InMoov { end } && st.pos + 8 > end) {
                QtStep::NotFound
            } else {
                match box_header(data) {
                    None => QtStep::NotFound,
                    Some((ty, hlen, payload)) => {
                        let after = st.pos + hlen;
                        if st.stage is TopLevel && ty == moov_tag() {
                            if after + payload > u64::MAX {
                                QtStep::NotFound
                            } else {
                                QtStep::Continue(
                                    QuickTimeScan {
                                        stage: QtStage::InMoov { end: (after + payload) as u64 },
                                        pos: after as u64,
                                    },
                                )
                            }
                        } else if st.stage is InMoov && ty == mvhd_tag() {
                            QtStep::Continue(
                                QuickTimeScan { stage: QtStage::MovieHeader, pos: after as u64 },
                            )
                        } else {
                            match seek_target(after, payload) {
                                Some(t) => if t > st.pos {
                                    QtStep::Continue(QuickTimeScan { stage: st.stage, pos: t as u64 })
                                } else {
                                    QtStep::NotFound
                                },
                                None => QtStep::NotFound,
                            }
                        }
                    },
                }
            }
        },
    }
}

fn be_u32(b: &[u8], i: usize) -> (r: u64)
    requires
        i + 4 <= b@.len(),
    ensures
        r == be_u32_at(b@, i as int),
        r < 4294967296,
{
    (b[i] as u64) * 16777216 + (b[i + 1] as u64) * 65536 + (b[i + 2] as u64) * 256 + (b[i + 3] as u64)
}

fn be_u64(b: &[u8], i: usize) -> (r: u64)
    requires
        i + 8 <= b.len(),
    ensures
        r == be_u64_at(b@, i as int),
{
    let hi = be_u32(b, i);
    let lo = be_u32(b, i + 4);
    hi * 4294967296 + lo
}

fn tag_is(b: &[u8], t0: u8, t1: u8, t2: u8, t3: u8) -> (r: bool)
    requires
        b@.len() >= 8,
    ensures
        r == (b@.subrange(4, 8) == seq![t0, t1, t2, t3]),
{
    let r = b[4] == t0 && b[5] == t1 && b[6] == t2 && b[7] == t3;
    assert(r ==> b@.subrange(4, 8) =~= seq![t0, t1, t2, t3]);
    assert(b@.subrange(4, 8) == seq![t0, t1, t2, t3] ==> {
        &&& b@.subrange(4, 8)[0] == t0
        &&& b@.subrange(4, 8)[1] == t1
        &&& b@.subrange(4, 8)[2] == t2
        &&& b@.subrange(4, 8)[3] == t3
    });
    r
}

/// Reads the `mvhd` creation time from the bytes after the box header.
pub fn parse_mvhd_creation_time(b: &[u8]) -> (r: Option<i64>)
    ensures
        r matches Some(u) ==> mvhd_unix_seconds(b@) == Some(u as int),
        r is None ==> mvhd_unix_seconds(b@) is None,
{
    if b.len() < 4 {
        return None;
    }
    let mac = if b[0] == 0 {
        if b.len() < 8 {
            return None;
        }
        be_u32(b, 4)
    } else if b[0] == 1 {
        if b.len() < 12 {
            return None;
        }
        be_u64(b, 4)
    } else {
        return None;
    };
    if mac == 0 {
        return None;
    }
    if mac >= MAC_EPOCH_OFFSET_SECS {
        let unix = mac - MAC_EPOCH_OFFSET_SECS;
        if unix > 9223372036854775807u64 {
            return None;
        }
        Some(unix as i64)
    } else {
        let before = (MAC_EPOCH_OFFSET_SECS - mac) as i64;
        Some(-before)
    }
}

/// Reads a box header from the start of `b`: `(type is moov, type is mvhd,
/// header length, payload length)`.
pub fn read_box_header(b: &[u8]) -> (r: Option<(bool, bool, u64, u64)>)
    ensures
        r is None <==> box_header(b@) is None,
        r matches Some((is_moov, is_mvhd, hlen, payload)) ==> box_header(b@) matches Some((ty, h, p))
            && is_moov == (ty == moov_tag()) && is_mvhd == (ty == mvhd_tag()) && hlen == h && payload
            == p,
{
    if b.len() < 8 {
        return None;
    }
    let size = be_u32(b, 0);
    if size == 0 {
        return None;
    }
    let is_moov = tag_is(b, 109, 111, 111, 118);
    let is_mvhd = tag_is(b, 109, 118, 104, 100);
    if size == 1 {
        if b.len() < 16 {
            return None;
        }
        let ext = be_u64(b, 8);
        Some((is_moov, is_mvhd, 16, ext.saturating_sub(16)))
    } else {
        Some((is_moov, is_mvhd, 8, size.saturating_sub(8)))
    }
}

impl QuickTimeScan {
    /// The scan at the start of a file.
    pub open spec fn start_spec() -> Self {
        QuickTimeScan { stage: QtStage::TopLevel, pos: 0 }
    }

    /// The scan at the start of a file.
    pub fn start() -> (r: Self)
        ensures
            r == Self::start_spec(),
    {
        QuickTimeScan { stage: QtStage::TopLevel, pos: 0 }
    }

    /// A stream offset that a file can have.
    pub open spec fn wf(self) -> bool {
        self.pos <= i64::MAX
    }

    /// One step of the `moov → mvhd` scan: `data` holds the bytes that the file has
    /// at `self.pos`, at most [`QT_READ_LEN`] of them and fewer only where the file ends.
    /// Top-level boxes other than `moov` and `moov` children other than `mvhd` are
    /// skipped by seeking over their payload; a skip that would not move forward (a
    /// size that wraps round) ends the scan with `NotFound`, so every step moves on.
    pub fn step(&self, data: &[u8]) -> (r: QtStep)
        requires
            self.wf(),
            data@.len() <= QT_READ_LEN,
            self.pos + data@.len() <= i64::MAX,
        ensures
            r == qt_step(*self, data@),
            r matches QtStep::Continue(next) ==> next.wf() && next.pos > self.pos,
    {
        match self.stage {
            QtStage::MovieHeader => match parse_mvhd_creation_time(data) {
                Some(u) => QtStep::Found(u),
                None => QtStep::NotFound,
            },
            QtStage::TopLevel | QtStage::InMoov { .. } => {
                if let QtStage::InMoov { end } = self.stage {
                    if self.pos + 8 > end {
                        return QtStep::NotFound;
                    }
                }
                match read_box_header(data) {
                    None => QtStep::NotFound,
                    Some((is_moov, is_mvhd, hlen, payload)) => {
                        let after = self.pos + hlen;
                        let top = match self.stage {
                            QtStage::TopLevel => true,
                            _ => false,
                        };
                        if top && is_moov {
                            if payload > u64::MAX - after {
                                return QtStep::NotFound;
                            }
                            QtStep::Continue(
                                QuickTimeScan {
                                    stage: QtStage::InMoov { end: after + payload },
                                    pos: after,
                                },
                            )
                        } else if !top && is_mvhd {
                            QtStep::Continue(
                                QuickTimeScan { stage: QtStage::MovieHeader, pos: after },
                            )
                        } else {
                            let delta = payload as i64;
                            assert(delta == as_i64(payload as int)) by (bit_vector)
                                requires
                                    delta == payload as i64,
                            ;
                            let target = after as i128 + delta as i128;
                            if target <= self.pos as i128 || target > 9223372036854775807i128 {
                                QtStep::NotFound
                            } else {
                                QtStep::Continue(
                                    QuickTimeScan { stage: self.stage, pos: target as u64 },
                                )
                            }
                        }
                    },
                }
            },
        }
    }
}

/// A well-formed box other than `moov` at the top level, or other than `mvhd` inside
/// `moov`, is skipped whatever its payload length, an empty box included: the scan goes
/// on in the same stage just past the box (header and payload).
pub proof fn law_other_boxes_are_skipped(st: QuickTimeScan, data: Seq<u8>)
    requires
        st.wf(),
        box_header(data) is Some,
        st.pos + box_header(data)->Some_0.1 + box_header(data)->Some_0.2 <= i64::MAX,
        st.stage is TopLevel ==> box_header(data)->Some_0.0 != moov_tag(),
        st.stage matches QtStage::InMoov { end } ==> box_header(data)->Some_0.0 != mvhd_tag() && st.pos + 8
            <= end,
        !(st.stage is MovieHeader),
    ensures
        qt_step(st, data) == QtStep::Continue(
            QuickTimeScan {
                stage: st.stage,
                pos: (st.pos + box_header(data)->Some_0.1 + box_header(data)->Some_0.2) as u64,
            },
        ),
{
    let (ty, h, p) = box_header(data)->Some_0;
    assert(h >= 8 && p >= 0);
    assert(as_i64(p) == p);
}

/// The scan enters `moov` at the top level (remembering where it ends), enters `mvhd`
/// inside `moov`, stops inside `moov` once no box header fits before its end, and in
/// `mvhd` reads a version-0 creation time `c` (seconds since 1904) as the Unix time
/// `c − 2082844800`, a zero time giving none.
pub proof fn law_scan_stages(st: QuickTimeScan, data: Seq<u8>)
    requires
        st.wf(),
    ensures
        st.stage is TopLevel && box_header(data) is Some && box_header(data)->Some_0.0 == moov_tag()
            && st.pos + box_header(data)->Some_0.1 + box_header(data)->Some_0.2 <= u64::MAX ==> qt_step(st, data)
            == QtStep::Continue(
            QuickTimeScan {
                stage: QtStage::InMoov {
                    end: (st.pos + box_header(data)->Some_0.1 + box_header(data)->Some_0.2) as u64,
                },
                pos: (st.pos + box_header(data)->Some_0.1) as u64,
            },
        ),
        (st.stage matches QtStage::InMoov { end } && st.pos + 8 <= end) && box_header(data) is Some
            && box_header(data)->Some_0.0 == mvhd_tag() ==> qt_step(st, data) == QtStep::Continue(
            QuickTimeScan { stage: QtStage::MovieHeader, pos: (st.pos + box_header(data)->Some_0.1) as u64 },
        ),
        (st.stage matches QtStage::InMoov { end } && st.pos + 8 > end) ==> qt_step(st, data) == QtStep::NotFound,
        st.stage is MovieHeader && data.len() >= 8 && data[0] == 0 ==> qt_step(st, data) == (if data[4] == 0
            && data[5] == 0 && data[6] == 0 && data[7] == 0 {
            QtStep::NotFound
        } else {
            QtStep::Found(
                (data[4] * 16777216 + data[5] * 65536 + data[6] * 256 + data[7] - 2082844800) as i64,
            )
        }),
{
}

/// The bytes that a file with contents `data` holds at `pos`: at most
/// [`QT_READ_LEN`] of them, fewer where the file ends.
pub open spec fn qt_chunk(data: Seq<u8>, pos: int) -> Seq<u8> {
    if pos >= data.len() {
        Seq::empty()
    } else if pos + QT_READ_LEN <= data.len() {
        data.subrange(pos, pos + QT_READ_LEN)
    } else {
        data.subrange(pos, data.len() as int)
    }
}

/// The `mvhd` creation time (Unix seconds) that the scan from `st` finds in the file
/// contents `data`, if any.
pub open spec fn qt_scan(st: QuickTimeScan, data: Seq<u8>) -> Option<int>
    decreases i64::MAX - st.pos,
{
    if !st.wf() || st.pos + qt_chunk(data, st.pos as int).len() > i64::MAX {
        None
    } else {
        match qt_step(st, qt_chunk(data, st.pos as int)) {
            QtStep::Continue(next) => if st.pos < next.pos <= i64::MAX {
                qt_scan(next, data)
            } else {
                None
            },
            QtStep::Found(u) => Some(u as int),
            QtStep::NotFound => None,
        }
    }
}

fn read_chunk(data: &[u8], pos: u64) -> (r: Vec<u8>)
    ensures
        r@ == qt_chunk(data@, pos as int),
{
    let mut out: Vec<u8> = Vec::new();
    if pos >= data.len() as u64 {
        assert(out@ =~= qt_chunk(data@, pos as int));
        return out;
    }
    let start = pos as usize;
    let end = if data.len() - start >= QT_READ_LEN {
        start + QT_READ_LEN
    } else {
        data.len()
    };
    let mut i = start;
    while i < end
        invariant
            start <= i <= end <= data@.len(),
            out@ == data@.subrange(start as int, i as int),
        decreases end - i,
    {
        out.push(data[i]);
        i = i + 1;
        assert(out@ =~= data@.subrange(start as int, i as int));
    }
    assert(out@ =~= qt_chunk(data@, pos as int));
    out
}

/// Runs the `moov → mvhd` scan over the whole file contents `data` and gives the
/// creation time it finds, as Unix seconds.
pub fn scan_creation_time(data: &[u8]) -> (r: Option<i64>)
    ensures
        r matches Some(u) ==> qt_scan(QuickTimeScan::start_spec(), data@) == Some(u as int),
        r is None ==> qt_scan(QuickTimeScan::start_spec(), data@) is None,
{
    let mut st = QuickTimeScan::start();
    loop
        invariant
            qt_scan(st, data@) == qt_scan(QuickTimeScan::start_spec(), data@),
        decreases i64::MAX - st.pos,
    {
        let chunk = read_chunk(data, st.pos);
        if st.pos > 9223372036854775807u64 || chunk.len() as u64 > 9223372036854775807u64 - st.pos {
            return None;
        }
        match st.step(chunk.as_slice()) {
            QtStep::Continue(next) => {
                st = next;
            },
            QtStep::Found(u) => return Some(u),
            QtStep::NotFound => return None,
        }
    }
}

} // verus!

verus! {

/// The shape `YYYY:MM:DD HH:MM:SS` read from the bytes `b` of the trimmed text,
/// field by field: the text is cut at byte offsets and each field must be ASCII
/// digits only (no sign), read as a decimal number.
pub open spec fn exif_datetime_outcome(b: Seq<u8>) -> FieldsOutcome {
    if b.len() < 19 || b[4] != 58 || b[7] != 58 || b[10] != 32 || b[13] != 58 || b[16] != 58 {
        FieldsOutcome::NoMatch
    } else if !(all_digits(b.subrange(0, 4)) && all_digits(b.subrange(5, 7)) && all_digits(b.subrange(8, 10))
        && all_digits(b.subrange(11, 13)) && all_digits(b.subrange(14, 16)) && all_digits(b.subrange(17, 19))) {
        FieldsOutcome::NoMatch
    } else {
        FieldsOutcome::Fields(
            civil(
                digits_value(b.subrange(0, 4)) as i32,
                digits_value(b.subrange(5, 7)) as u32,
                digits_value(b.subrange(8, 10)) as u32,
                digits_value(b.subrange(11, 13)) as u32,
                digits_value(b.subrange(14, 16)) as u32,
                digits_value(b.subrange(17, 19)) as u32,
            ),
        )
    }
}

/// The outcome of reading an EXIF date-time string `s`, after trimming white space.
pub open spec fn exif_text_outcome(s: Seq<char>) -> FieldsOutcome {
    exif_datetime_outcome(encode_utf8(trim(s)))
}

/// The bytes of `s` after trimming, with the facts linking them.
fn trimmed_bytes(s: &str) -> (r: Vec<u8>)
    ensures
        r@ == encode_utf8(trim(s@)),
{
    let c = chars_of(s);
    let (lo, hi) = trim_bounds(&c);
    let t = s.substring_char(lo, hi);
    let b = t.as_bytes();
    let mut v: Vec<u8> = Vec::new();
    let mut i: usize = 0;
    while i < b.len()
        invariant
            i <= b@.len(),
            v@ == b@.subrange(0, i as int),
        decreases b@.len() - i,
    {
        v.push(b[i]);
        i = i + 1;
        assert(v@ =~= b@.subrange(0, i as int));
    }
    assert(v@ =~= b@);
    v
}

fn digit_field(b: &Vec<u8>, start: usize, end: usize) -> (r: Option<u32>)
    requires
        start <= end <= b@.len(),
        end - start <= 4,
    ensures
        r matches Some(v) ==> all_digits(b@.subrange(start as int, end as int)) && v == digits_value(
            b@.subrange(start as int, end as int),
        ),
        r is None ==> !all_digits(b@.subrange(start as int, end as int)),
{
    match crate::numeric::digits_run_value(b.as_slice(), start, end) {
        Some(v) => {
            proof {
                crate::numeric::lemma_digits_value_bounds(b@.subrange(start as int, end as int));
                crate::numeric::lemma_pow10_values();
                crate::numeric::lemma_pow10_mono((end - start) as nat, 4);
            }
            Some(v as u32)
        },
        None => None,
    }
}

fn exif_fields(b: &Vec<u8>) -> (r: FieldsOutcome)
    ensures
        r == exif_datetime_outcome(b@),
{
    if b.len() < 19 || b[4] != 58 || b[7] != 58 || b[10] != 32 || b[13] != 58 || b[16] != 58 {
        return FieldsOutcome::NoMatch;
    }
    let y = match digit_field(b, 0, 4) {
        Some(v) => v,
        None => return FieldsOutcome::NoMatch,
    };
    let mo = match digit_field(b, 5, 7) {
        Some(v) => v,
        None => return FieldsOutcome::NoMatch,
    };
    let d = match digit_field(b, 8, 10) {
        Some(v) => v,
        None => return FieldsOutcome::NoMatch,
    };
    let h = match digit_field(b, 11, 13) {
        Some(v) => v,
        None => return FieldsOutcome::NoMatch,
    };
    let mi = match digit_field(b, 14, 16) {
        Some(v) => v,
        None => return FieldsOutcome::NoMatch,
    };
    let s = match digit_field(b, 17, 19) {
        Some(v) => v,
        None => return FieldsOutcome::NoMatch,
    };
    proof {
        crate::numeric::lemma_digits_value_bounds(b@.subrange(0, 4));
        crate::numeric::lemma_pow10_values();
    }
    FieldsOutcome::Fields(LocalDateTime { year: y as i32, month: mo, day: d, hour: h, minute: mi, second: s })
}

/// Parses an EXIF date-time string `YYYY:MM:DD HH:MM:SS` (surrounding white space
/// ignored) into a local moment: those fields in the machine's time zone.
pub fn parse_exif_datetime(s: &str) -> (r: Option<CaptureTime>)
    ensures
        exif_text_outcome(s@) is NoMatch ==> r is None,
        exif_text_outcome(s@) is SplitChar ==> r is None,
        exif_text_outcome(s@) matches FieldsOutcome::Fields(f) ==> {
            &&& r matches Some(t) ==> t.local == f && local_time_of(t.local, t.unix_secs as int)
            &&& !f.is_valid() ==> r is None
        },
{
    let b = trimmed_bytes(s);
    match exif_fields(&b) {
        FieldsOutcome::Fields(f) => local_from_civil(f.year, f.month, f.day, f.hour, f.minute, f.second),
        _ => None,
    }
}

/// A date-time as the EXIF `DateTimeOriginal` text `YYYY:MM:DD HH:MM:SS`
/// (chrono's `%Y:%m:%d %H:%M:%S`).
pub open spec fn exif_text(d: LocalDateTime) -> Seq<char> {
    year_text(d.year as int) + seq![':'] + padded(d.month as nat, 2) + seq![':'] + padded(
        d.day as nat,
        2,
    ) + seq![' '] + padded(d.hour as nat, 2) + seq![':'] + padded(d.minute as nat, 2) + seq![':']
        + padded(d.second as nat, 2)
}

/// Appends a year as chrono's `%Y` writes it.
pub fn push_year(out: &mut String, y: i32)
    ensures
        final(out)@ == old(out)@ + year_text(y as int),
{
    if 0 <= y && y <= 9999 {
        push_padded(out, y as u64, 4);
    } else if y > 9999 {
        out.push('+');
        push_padded(out, y as u64, 4);
        assert(final(out)@ =~= old(out)@ + year_text(y as int));
    } else {
        out.push('-');
        let m = -(y as i64);
        push_padded(out, m as u64, 4);
        assert(final(out)@ =~= old(out)@ + year_text(y as int));
    }
}

/// Renders a date-time as the EXIF `DateTimeOriginal` text.
pub fn format_exif_datetime(d: &LocalDateTime) -> (r: String)
    requires
        d.fields_in_range(),
    ensures
        r@ == exif_text(*d),
{
    let mut s = String::new();
    push_year(&mut s, d.year);
    s.push(':');
    push_padded(&mut s, d.month as u64, 2);
    s.push(':');
    push_padded(&mut s, d.day as u64, 2);
    s.push(' ');
    push_padded(&mut s, d.hour as u64, 2);
    s.push(':');
    push_padded(&mut s, d.minute as u64, 2);
    s.push(':');
    push_padded(&mut s, d.second as u64, 2);
    assert(s@ =~= exif_text(*d));
    s
}

} // verus!

verus! {

proof fn lemma_no_trim(t: Seq<char>)
    requires
        t.len() > 0,
        !is_white_space(t[0]),
        !is_white_space(t.last()),
    ensures
        trim(t) == t,
{
    assert(trim_start(t) == t);
}

/// What the EXIF date-time text of a date-time reads back as: writing a valid date
/// with a four-digit year and reading it again gives the same fields.
pub proof fn lemma_exif_datetime_roundtrip(d: LocalDateTime)
    requires
        d.is_valid(),
        0 <= d.year <= 9999,
    ensures
        exif_text_outcome(exif_text(d)) == FieldsOutcome::Fields(d),
{
    let y = padded(d.year as nat, 4);
    let mo = padded(d.month as nat, 2);
    let da = padded(d.day as nat, 2);
    let h = padded(d.hour as nat, 2);
    let mi = padded(d.minute as nat, 2);
    let se = padded(d.second as nat, 2);
    lemma_padded_digits(d.year as nat, 4);
    lemma_padded_digits(d.month as nat, 2);
    lemma_padded_digits(d.day as nat, 2);
    lemma_padded_digits(d.hour as nat, 2);
    lemma_padded_digits(d.minute as nat, 2);
    lemma_padded_digits(d.second as nat, 2);
    let t = exif_text(d);
    assert(t =~= y + seq![':'] + mo + seq![':'] + da + seq![' '] + h + seq![':'] + mi + seq![':'] + se);
    assert(t.len() == 19);
    assert(is_ascii_chars(t)) by {
        assert forall|i: int| 0 <= i < t.len() implies '\0' <= #[trigger] t[i] <= '\u{7f}' by {
            if i < 4 {
                assert(t[i] == y[i]);
            } else if 5 <= i < 7 {
                assert(t[i] == mo[i - 5]);
            } else if 8 <= i < 10 {
                assert(t[i] == da[i - 8]);
            } else if 11 <= i < 13 {
                assert(t[i] == h[i - 11]);
            } else if 14 <= i < 16 {
                assert(t[i] == mi[i - 14]);
            } else if 17 <= i < 19 {
                assert(t[i] == se[i - 17]);
            }
        }
    }
    let by = ascii_of(y);
    let bse = ascii_of(se);
    assert(crate::numeric::is_digit(by[0]));
    assert(crate::numeric::is_digit(bse[1]));
    assert(t[0] == y[0]);
    assert(t[18] == se[1]);
    assert(t[0] as u8 == by[0]);
    assert(t[18] as u8 == bse[1]);
    lemma_no_trim(t);
    is_ascii_chars_encode_utf8(t);
    let b = encode_utf8(t);
    assert(b =~= ascii_of(t));
    assert(b.subrange(0, 4) =~= by);
    assert(b.subrange(5, 7) =~= ascii_of(mo));
    assert(b.subrange(8, 10) =~= ascii_of(da));
    assert(b.subrange(11, 13) =~= ascii_of(h));
    assert(b.subrange(14, 16) =~= ascii_of(mi));
    assert(b.subrange(17, 19) =~= bse);
    assert(ascii_of(mo)[0] != 43);
    assert(ascii_of(da)[0] != 43);
    assert(ascii_of(h)[0] != 43);
    assert(ascii_of(mi)[0] != 43);
    assert(bse[0] != 43);
    assert(by[0] != 43 && by[0] != 45);
}

/// The ASCII values of the primary-image `DateTimeOriginal` field (tag 0x9003) that
/// kamadak-exif reads from the file contents `data`, if the container parses and the
/// field is present with ASCII type.
pub uninterp spec fn exif_date_time_original_values(data: Seq<u8>) -> Option<Seq<Seq<u8>>>;

/// What `String::from_utf8_lossy` makes of the bytes `b`.
pub uninterp spec fn utf8_lossy(b: Seq<u8>) -> Seq<char>;

/// Calls `exif::Reader::read_from_container` on the bytes `data` and looks up
/// `DateTimeOriginal` in the primary image with `Exif::get_field`; an ASCII value
/// gives its strings. The contract states only that the result is a function of the
/// bytes, named [`exif_date_time_original_values`]; what kamadak-exif reads from a
/// container is left unsaid.
#[verifier::external_body]
pub(crate) fn read_date_time_original_values(data: &[u8]) -> (r: Option<Vec<Vec<u8>>>)
    ensures
        r is Some <==> exif_date_time_original_values(data@) is Some,
        r matches Some(v) ==> v.deep_view() == exif_date_time_original_values(data@)->Some_0,
{
    let exif = exif::Reader::new().read_from_container(&mut std::io::Cursor::new(data)).ok()?;
    let field = exif.get_field(exif::Tag::DateTimeOriginal, exif::In::PRIMARY)?;
    match &field.value {
        exif::Value::Ascii(values) => Some(values.clone()),
        _ => None,
    }
}

/// Calls `String::from_utf8_lossy` and takes the owned string. As its documentation
/// says, valid UTF-8 is decoded unchanged; how invalid sequences are replaced by
/// U+FFFD is left to the name [`utf8_lossy`].
#[verifier::external_body]
pub(crate) fn string_from_utf8_lossy(b: &[u8]) -> (r: String)
    ensures
        r@ == utf8_lossy(b@),
        valid_utf8(b@) ==> r@ == decode_utf8(b@),
{
    String::from_utf8_lossy(b).into_owned()
}

} // verus!
