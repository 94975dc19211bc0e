//! Destination naming: media kinds, pattern tokens and conflict resolution.

use vstd::prelude::*;
use crate::config::OnConflict;
use crate::error::NamingError;
use crate::path::{
    chars_equal, extend_chars, extension, file_stem, join, join_chars, parent_components, path_exists,
    path_extension, path_file_stem, path_parent, render, render_parts,
};
use vstd::string::*;
use crate::datetime::LocalDateTime;
use crate::exif::push_year;
use crate::text::{chars_of, decimal, padded, push_decimal, push_padded, replace_all, replace_chars, string_from_chars, year_text};

verus! {

/// The lowercase extensions treated as videos; every other allowed extension is a photo.
pub open spec fn video_extensions() -> Seq<Seq<char>> {
    seq![
        seq!['m', 'p', '4'],
        seq!['m', 'o', 'v'],
        seq!['a', 'v', 'i'],
        seq!['m', 'k', 'v'],
        seq!['3', 'g', 'p'],
        seq!['m', '4', 'v'],
        seq!['w', 'm', 'v'],
        seq!['f', 'l', 'v'],
        seq!['w', 'e', 'b', 'm'],
        seq!['t', 's'],
        seq!['m', 't', 's'],
        seq!['m', '2', 't', 's'],
    ]
}

/// `e` is one of the video extensions.
pub open spec fn is_video_extension(e: Seq<char>) -> bool {
    video_extensions().contains(e)
}

/// The video extensions are exactly mp4, mov, avi, mkv, 3gp, m4v, wmv, flv, webm, ts,
/// mts and m2ts: each of them picks the QuickTime reader and the video prefix, and every
/// other extension is a photo's.
pub proof fn law_video_extensions(e: Seq<char>)
    ensures
        is_video_extension(e) <==> (
            e == seq!['m', 'p', '4']
            || e == seq!['m', 'o', 'v']
            || e == seq!['a', 'v', 'i']
            || e == seq!['m', 'k', 'v']
            || e == seq!['3', 'g', 'p']
            || e == seq!['m', '4', 'v']
            || e == seq!['w', 'm', 'v']
            || e == seq!['f', 'l', 'v']
            || e == seq!['w', 'e', 'b', 'm']
            || e == seq!['t', 's']
            || e == seq!['m', 't', 's']
            || e == seq!['m', '2', 't', 's']
        ),
{
    let v = video_extensions();
    assert(v[0] == seq!['m', 'p', '4']);
    assert(v[1] == seq!['m', 'o', 'v']);
    assert(v[2] == seq!['a', 'v', 'i']);
    assert(v[3] == seq!['m', 'k', 'v']);
    assert(v[4] == seq!['3', 'g', 'p']);
    assert(v[5] == seq!['m', '4', 'v']);
    assert(v[6] == seq!['w', 'm', 'v']);
    assert(v[7] == seq!['f', 'l', 'v']);
    assert(v[8] == seq!['w', 'e', 'b', 'm']);
    assert(v[9] == seq!['t', 's']);
    assert(v[10] == seq!['m', 't', 's']);
    assert(v[11] == seq!['m', '2', 't', 's']);
    if is_video_extension(e) {
        let i = choose|i: int| 0 <= i < v.len() && v[i] == e;
        assert(0 <= i < 12);
    }
}

/// Whether the lowercase extension `ext_lower` (without dot) is a video extension.
pub fn is_video(ext_lower: &str) -> (r: bool)
    ensures
        r == is_video_extension(ext_lower@),
{
    let e = chars_of(ext_lower);
    let cands: Vec<Vec<char>> = vec![
        vec!['m', 'p', '4'],
        vec!['m', 'o', 'v'],
        vec!['a', 'v', 'i'],
        vec!['m', 'k', 'v'],
        vec!['3', 'g', 'p'],
        vec!['m', '4', 'v'],
        vec!['w', 'm', 'v'],
        vec!['f', 'l', 'v'],
        vec!['w', 'e', 'b', 'm'],
        vec!['t', 's'],
        vec!['m', 't', 's'],
        vec!['m', '2', 't', 's'],
    ];
    let ghost want = video_extensions();
    assert(cands@.len() == 12);
    assert(forall|k: int| 0 <= k < 12 ==> #[trigger] cands@[k]@ == want[k]);
    let mut i: usize = 0;
    while i < cands.len()
        invariant
            i <= cands@.len() == 12,
            e@ == ext_lower@,
            want == video_extensions(),
            forall|k: int| 0 <= k < 12 ==> #[trigger] cands@[k]@ == want[k],
            forall|k: int| 0 <= k < i ==> e@ != want[k],
        decreases cands@.len() - i,
    {
        if chars_equal(&e, &cands[i]) {
            assert(want[i as int] == e@);
            return true;
        }
        i = i + 1;
    }
    assert(!is_video_extension(ext_lower@));
    false
}

/// The token `{name}` as characters.
pub open spec fn token(name: Seq<char>) -> Seq<char> {
    seq!['{'] + name + seq!['}']
}

/// The text of the optional camera model: the model, or `unknown`.
pub open spec fn camera_text(camera: Option<Seq<char>>) -> Seq<char> {
    match camera {
        Some(c) => c,
        None => seq!['u', 'n', 'k', 'n', 'o', 'w', 'n'],
    }
}

/// The relative destination that `pattern` yields: each token replaced in turn —
/// `{year}` (chrono `%Y`), `{month}`, `{day}`, `{hour}`, `{min}`, `{sec}` (two digits),
/// `{stem}`, `{ext}`, `{camera}` (or `unknown`), `{counter}` (at least four digits)
/// and `{prefix}`.
pub open spec fn pattern_result(
    pattern: Seq<char>,
    date: LocalDateTime,
    stem: Seq<char>,
    ext: Seq<char>,
    camera: Option<Seq<char>>,
    counter: u32,
    prefix: Seq<char>,
) -> Seq<char> {
    let s1 = replace_all(pattern, token(seq!['y', 'e', 'a', 'r']), year_text(date.year as int));
    let s2 = replace_all(s1, token(seq!['m', 'o', 'n', 't', 'h']), padded(date.month as nat, 2));
    let s3 = replace_all(s2, token(seq!['d', 'a', 'y']), padded(date.day as nat, 2));
    let s4 = replace_all(s3, token(seq!['h', 'o', 'u', 'r']), padded(date.hour as nat, 2));
    let s5 = replace_all(s4, token(seq!['m', 'i', 'n']), padded(date.minute as nat, 2));
    let s6 = replace_all(s5, token(seq!['s', 'e', 'c']), padded(date.second as nat, 2));
    let s7 = replace_all(s6, token(seq!['s', 't', 'e', 'm']), stem);
    let s8 = replace_all(s7, token(seq!['e', 'x', 't']), ext);
    let s9 = replace_all(s8, token(seq!['c', 'a', 'm', 'e', 'r', 'a']), camera_text(camera));
    let s10 = replace_all(s9, token(seq!['c', 'o', 'u', 'n', 't', 'e', 'r']), padded(counter as nat, 4));
    replace_all(s10, token(seq!['p', 'r', 'e', 'f', 'i', 'x']), prefix)
}

fn padded_chars(n: u64, w: usize) -> (r: Vec<char>)
    ensures
        r@ == padded(n as nat, w as nat),
{
    let mut s = String::new();
    push_padded(&mut s, n, w);
    assert(s@ =~= padded(n as nat, w as nat));
    chars_of(s.as_str())
}

fn replace_token(s: &Vec<char>, tok: Vec<char>, rep: &Vec<char>) -> (r: Vec<char>)
    requires
        tok@.len() > 0,
    ensures
        r@ == replace_all(s@, tok@, rep@),
{
    replace_chars(s, &tok, rep)
}

/// Applies a naming pattern to produce a relative destination path.
///
/// Supported tokens: `{year}` (4-digit year), `{month}` (01–12), `{day}` (01–31),
/// `{hour}` (00–23), `{min}`, `{sec}`, `{stem}` (file name without extension),
/// `{ext}` (extension with leading dot), `{camera}` (camera model, or `unknown`),
/// `{counter}` (zero-padded 4-digit counter) and `{prefix}` (photo or video prefix).
pub fn apply_pattern(
    pattern: &str,
    date: &LocalDateTime,
    stem: &str,
    ext: &str,
    camera: Option<&str>,
    counter: u32,
    prefix: &str,
) -> (r: String)
    requires
        date.fields_in_range(),
    ensures
        r@ == pattern_result(
            pattern@,
            *date,
            stem@,
            ext@,
            match camera {
                Some(c) => Some(c@),
                None => None,
            },
            counter,
            prefix@,
        ),
{
    let mut ys = String::new();
    push_year(&mut ys, date.year);
    assert(ys@ =~= year_text(date.year as int));
    let year = chars_of(ys.as_str());
    let month = padded_chars(date.month as u64, 2);
    let day = padded_chars(date.day as u64, 2);
    let hour = padded_chars(date.hour as u64, 2);
    let minute = padded_chars(date.minute as u64, 2);
    let second = padded_chars(date.second as u64, 2);
    let stem_c = chars_of(stem);
    let ext_c = chars_of(ext);
    let camera_c = match camera {
        Some(c) => chars_of(c),
        None => {
            let v = vec!['u', 'n', 'k', 'n', 'o', 'w', 'n'];
            v
        },
    };
    let counter_c = padded_chars(counter as u64, 4);
    let prefix_c = chars_of(prefix);
    let p = chars_of(pattern);
    let s1 = replace_token(&p, vec!['{', 'y', 'e', 'a', 'r', '}'], &year);
    let s2 = replace_token(&s1, vec!['{', 'm', 'o', 'n', 't', 'h', '}'], &month);
    let s3 = replace_token(&s2, vec!['{', 'd', 'a', 'y', '}'], &day);
    let s4 = replace_token(&s3, vec!['{', 'h', 'o', 'u', 'r', '}'], &hour);
    let s5 = replace_token(&s4, vec!['{', 'm', 'i', 'n', '}'], &minute);
    let s6 = replace_token(&s5, vec!['{', 's', 'e', 'c', '}'], &second);
    let s7 = replace_token(&s6, vec!['{', 's', 't', 'e', 'm', '}'], &stem_c);
    let s8 = replace_token(&s7, vec!['{', 'e', 'x', 't', '}'], &ext_c);
    let s9 = replace_token(&s8, vec!['{', 'c', 'a', 'm', 'e', 'r', 'a', '}'], &camera_c);
    let s10 = replace_token(&s9, vec!['{', 'c', 'o', 'u', 'n', 't', 'e', 'r', '}'], &counter_c);
    let s11 = replace_token(&s10, vec!['{', 'p', 'r', 'e', 'f', 'i', 'x', '}'], &prefix_c);
    assert(seq!['{', 'y', 'e', 'a', 'r', '}'] =~= token(seq!['y', 'e', 'a', 'r']));
    assert(seq!['{', 'm', 'o', 'n', 't', 'h', '}'] =~= token(seq!['m', 'o', 'n', 't', 'h']));
    assert(seq!['{', 'd', 'a', 'y', '}'] =~= token(seq!['d', 'a', 'y']));
    assert(seq!['{', 'h', 'o', 'u', 'r', '}'] =~= token(seq!['h', 'o', 'u', 'r']));
    assert(seq!['{', 'm', 'i', 'n', '}'] =~= token(seq!['m', 'i', 'n']));
    assert(seq!['{', 's', 'e', 'c', '}'] =~= token(seq!['s', 'e', 'c']));
    assert(seq!['{', 's', 't', 'e', 'm', '}'] =~= token(seq!['s', 't', 'e', 'm']));
    assert(seq!['{', 'e', 'x', 't', '}'] =~= token(seq!['e', 'x', 't']));
    assert(seq!['{', 'c', 'a', 'm', 'e', 'r', 'a', '}'] =~= token(seq!['c', 'a', 'm', 'e', 'r', 'a']));
    assert(seq!['{', 'c', 'o', 'u', 'n', 't', 'e', 'r', '}'] =~= token(seq!['c', 'o', 'u', 'n', 't', 'e', 'r']));
    assert(seq!['{', 'p', 'r', 'e', 'f', 'i', 'x', '}'] =~= token(seq!['p', 'r', 'e', 'f', 'i', 'x']));
    string_from_chars(&s11, 0, s11.len())
}

proof fn lemma_replace_other(s: Seq<char>, pat: Seq<char>, rep: Seq<char>, j: int)
    requires
        pat.len() > 0,
        s.len() > 0,
        s[0] == pat[0],
        !s.drop_first().contains(pat[0]),
        s.len() < pat.len() || (0 <= j < pat.len() && s[j] != pat[j]),
    ensures
        replace_all(s, pat, rep) == s,
{
    if s.len() >= pat.len() {
        assert(s.subrange(0, pat.len() as int)[j] != pat[j]);
        crate::text::lemma_replace_absent(s.drop_first(), pat, rep);
        assert(seq![s[0]] + s.drop_first() =~= s);
    }
}

proof fn lemma_replace_self(s: Seq<char>, rep: Seq<char>)
    requires
        s.len() > 0,
    ensures
        replace_all(s, s, rep) == rep,
{
    assert(s.subrange(0, s.len() as int) =~= s);
    let e = s.subrange(s.len() as int, s.len() as int);
    assert(e =~= Seq::<char>::empty());
    assert(replace_all(e, s, rep) == e);
    assert(replace_all(s, s, rep) == rep + replace_all(e, s, rep));
    assert(rep + e =~= rep);
}

proof fn lemma_no_brace_padded(n: nat, w: nat)
    ensures
        !padded(n, w).contains('{'),
{
    crate::text::lemma_padded_digits(n, w);
    if padded(n, w).contains('{') {
        let k = choose|k: int| 0 <= k < padded(n, w).len() && padded(n, w)[k] == '{';
        assert(crate::text::ascii_of(padded(n, w))[k] == 123u8);
        assert(crate::numeric::is_digit(crate::text::ascii_of(padded(n, w))[k]));
    }
}

proof fn lemma_no_brace_year(y: int)
    ensures
        !year_text(y).contains('{'),
{
    if y < 0 {
        lemma_no_brace_padded((-y) as nat, 4);
        if year_text(y).contains('{') {
            let k = choose|k: int| 0 <= k < year_text(y).len() && year_text(y)[k] == '{';
            assert(year_text(y) == seq!['-'] + padded((-y) as nat, 4));
            assert(padded((-y) as nat, 4)[k - 1] == '{');
        }
    } else if y > 9999 {
        lemma_no_brace_padded(y as nat, 4);
        if year_text(y).contains('{') {
            let k = choose|k: int| 0 <= k < year_text(y).len() && year_text(y)[k] == '{';
            assert(padded(y as nat, 4)[k - 1] == '{');
        }
    } else {
        lemma_no_brace_padded(y as nat, 4);
    }
}

/// A pattern that is one date token gives that field of the capture date itself:
/// `{year}` as chrono's `%Y`, `{month}`, `{day}`, `{hour}` (00–23), `{min}` and `{sec}`
/// as two digits; the other inputs play no part.
pub proof fn law_single_date_token(
    date: LocalDateTime,
    stem: Seq<char>,
    ext: Seq<char>,
    camera: Option<Seq<char>>,
    counter: u32,
    prefix: Seq<char>,
)
    ensures
        pattern_result(token(seq!['y', 'e', 'a', 'r']), date, stem, ext, camera, counter, prefix) == year_text(date.year as int),
        pattern_result(token(seq!['m', 'o', 'n', 't', 'h']), date, stem, ext, camera, counter, prefix) == padded(date.month as nat, 2),
        pattern_result(token(seq!['d', 'a', 'y']), date, stem, ext, camera, counter, prefix) == padded(date.day as nat, 2),
        pattern_result(token(seq!['h', 'o', 'u', 'r']), date, stem, ext, camera, counter, prefix) == padded(date.hour as nat, 2),
        pattern_result(token(seq!['m', 'i', 'n']), date, stem, ext, camera, counter, prefix) == padded(date.minute as nat, 2),
        pattern_result(token(seq!['s', 'e', 'c']), date, stem, ext, camera, counter, prefix) == padded(date.second as nat, 2),
{
    lemma_single_date_token_year(date, stem, ext, camera, counter, prefix);
    lemma_single_date_token_month(date, stem, ext, camera, counter, prefix);
    lemma_single_date_token_day(date, stem, ext, camera, counter, prefix);
    lemma_single_date_token_hour(date, stem, ext, camera, counter, prefix);
    lemma_single_date_token_min(date, stem, ext, camera, counter, prefix);
    lemma_single_date_token_sec(date, stem, ext, camera, counter, prefix);
}

proof fn lemma_single_date_token_year(
    date: LocalDateTime,
    stem: Seq<char>,
    ext: Seq<char>,
    camera: Option<Seq<char>>,
    counter: u32,
    prefix: Seq<char>,
)
    ensures
        pattern_result(token(seq!['y', 'e', 'a', 'r']), date, stem, ext, camera, counter, prefix) == year_text(date.year as int),
{
    let p = token(seq!['y', 'e', 'a', 'r']);
    assert(p[0] == '{');
    assert(!p.drop_first().contains('{')) by {
        if p.drop_first().contains('{') {
            let k = choose|k: int| 0 <= k < p.drop_first().len() && p.drop_first()[k] == '{';
            assert(p.drop_first()[k] == p[k + 1]);
        }
    }
    lemma_no_brace_year(date.year as int);
    lemma_replace_self(p, year_text(date.year as int));
    assert(token(seq!['m', 'o', 'n', 't', 'h'])[0] == '{');
    crate::text::lemma_replace_absent(year_text(date.year as int), token(seq!['m', 'o', 'n', 't', 'h']), padded(date.month as nat, 2));
    assert(token(seq!['d', 'a', 'y'])[0] == '{');
    crate::text::lemma_replace_absent(year_text(date.year as int), token(seq!['d', 'a', 'y']), padded(date.day as nat, 2));
    assert(token(seq!['h', 'o', 'u', 'r'])[0] == '{');
    crate::text::lemma_replace_absent(year_text(date.year as int), token(seq!['h', 'o', 'u', 'r']), padded(date.hour as nat, 2));
    assert(token(seq!['m', 'i', 'n'])[0] == '{');
    crate::text::lemma_replace_absent(year_text(date.year as int), token(seq!['m', 'i', 'n']), padded(date.minute as nat, 2));
    assert(token(seq!['s', 'e', 'c'])[0] == '{');
    crate::text::lemma_replace_absent(year_text(date.year as int), token(seq!['s', 'e', 'c']), padded(date.second as nat, 2));
    assert(token(seq!['s', 't', 'e', 'm'])[0] == '{');
    crate::text::lemma_replace_absent(year_text(date.year as int), token(seq!['s', 't', 'e', 'm']), stem);
    assert(token(seq!['e', 'x', 't'])[0] == '{');
    crate::text::lemma_replace_absent(year_text(date.year as int), token(seq!['e', 'x', 't']), ext);
    assert(token(seq!['c', 'a', 'm', 'e', 'r', 'a'])[0] == '{');
    crate::text::lemma_replace_absent(year_text(date.year as int), token(seq!['c', 'a', 'm', 'e', 'r', 'a']), camera_text(camera));
    assert(token(seq!['c', 'o', 'u', 'n', 't', 'e', 'r'])[0] == '{');
    crate::text::lemma_replace_absent(year_text(date.year as int), token(seq!['c', 'o', 'u', 'n', 't', 'e', 'r']), padded(counter as nat, 4));
    assert(token(seq!['p', 'r', 'e', 'f', 'i', 'x'])[0] == '{');
    crate::text::lemma_replace_absent(year_text(date.year as int), token(seq!['p', 'r', 'e', 'f', 'i', 'x']), prefix);
}

proof fn lemma_single_date_token_month(
    date: LocalDateTime,
    stem: Seq<char>,
    ext: Seq<char>,
    camera: Option<Seq<char>>,
    counter: u32,
    prefix: Seq<char>,
)
    ensures
        pattern_result(token(seq!['m', 'o', 'n', 't', 'h']), date, stem, ext, camera, counter, prefix) == padded(date.month as nat, 2),
{
    let p = token(seq!['m', 'o', 'n', 't', 'h']);
    assert(p[0] == '{');
    assert(!p.drop_first().contains('{')) by {
        if p.drop_first().contains('{') {
            let k = choose|k: int| 0 <= k < p.drop_first().len() && p.drop_first()[k] == '{';
            assert(p.drop_first()[k] == p[k + 1]);
        }
    }
    lemma_no_brace_padded(date.month as nat, 2);
    assert(p[1] != token(seq!['y', 'e', 'a', 'r'])[1]);
    lemma_replace_other(p, token(seq!['y', 'e', 'a', 'r']), year_text(date.year as int), 1);
    lemma_replace_self(p, padded(date.month as nat, 2));
    assert(token(seq!['d', 'a', 'y'])[0] == '{');
    crate::text::lemma_replace_absent(padded(date.month as nat, 2), token(seq!['d', 'a', 'y']), padded(date.day as nat, 2));
    assert(token(seq!['h', 'o', 'u', 'r'])[0] == '{');
    crate::text::lemma_replace_absent(padded(date.month as nat, 2), token(seq!['h', 'o', 'u', 'r']), padded(date.hour as nat, 2));
    assert(token(seq!['m', 'i', 'n'])[0] == '{');
    crate::text::lemma_replace_absent(padded(date.month as nat, 2), token(seq!['m', 'i', 'n']), padded(date.minute as nat, 2));
    assert(token(seq!['s', 'e', 'c'])[0] == '{');
    crate::text::lemma_replace_absent(padded(date.month as nat, 2), token(seq!['s', 'e', 'c']), padded(date.second as nat, 2));
    assert(token(seq!['s', 't', 'e', 'm'])[0] == '{');
    crate::text::lemma_replace_absent(padded(date.month as nat, 2), token(seq!['s', 't', 'e', 'm']), stem);
    assert(token(seq!['e', 'x', 't'])[0] == '{');
    crate::text::lemma_replace_absent(padded(date.month as nat, 2), token(seq!['e', 'x', 't']), ext);
    assert(token(seq!['c', 'a', 'm', 'e', 'r', 'a'])[0] == '{');
    crate::text::lemma_replace_absent(padded(date.month as nat, 2), token(seq!['c', 'a', 'm', 'e', 'r', 'a']), camera_text(camera));
    assert(token(seq!['c', 'o', 'u', 'n', 't', 'e', 'r'])[0] == '{');
    crate::text::lemma_replace_absent(padded(date.month as nat, 2), token(seq!['c', 'o', 'u', 'n', 't', 'e', 'r']), padded(counter as nat, 4));
    assert(token(seq!['p', 'r', 'e', 'f', 'i', 'x'])[0] == '{');
    crate::text::lemma_replace_absent(padded(date.month as nat, 2), token(seq!['p', 'r', 'e', 'f', 'i', 'x']), prefix);
}

proof fn lemma_single_date_token_day(
    date: LocalDateTime,
    stem: Seq<char>,
    ext: Seq<char>,
    camera: Option<Seq<char>>,
    counter: u32,
    prefix: Seq<char>,
)
    ensures
        pattern_result(token(seq!['d', 'a', 'y']), date, stem, ext, camera, counter, prefix) == padded(date.day as nat, 2),
{
    let p = token(seq!['d', 'a', 'y']);
    assert(p[0] == '{');
    assert(!p.drop_first().contains('{')) by {
        if p.drop_first().contains('{') {
            let k = choose|k: int| 0 <= k < p.drop_first().len() && p.drop_first()[k] == '{';
            assert(p.drop_first()[k] == p[k + 1]);
        }
    }
    lemma_no_brace_padded(date.day as nat, 2);
    lemma_replace_other(p, token(seq!['y', 'e', 'a', 'r']), year_text(date.year as int), 0);
    lemma_replace_other(p, token(seq!['m', 'o', 'n', 't', 'h']), padded(date.month as nat, 2), 0);
    lemma_replace_self(p, padded(date.day as nat, 2));
    assert(token(seq!['h', 'o', 'u', 'r'])[0] == '{');
    crate::text::lemma_replace_absent(padded(date.day as nat, 2), token(seq!['h', 'o', 'u', 'r']), padded(date.hour as nat, 2));
    assert(token(seq!['m', 'i', 'n'])[0] == '{');
    crate::text::lemma_replace_absent(padded(date.day as nat, 2), token(seq!['m', 'i', 'n']), padded(date.minute as nat, 2));
    assert(token(seq!['s', 'e', 'c'])[0] == '{');
    crate::text::lemma_replace_absent(padded(date.day as nat, 2), token(seq!['s', 'e', 'c']), padded(date.second as nat, 2));
    assert(token(seq!['s', 't', 'e', 'm'])[0] == '{');
    crate::text::lemma_replace_absent(padded(date.day as nat, 2), token(seq!['s', 't', 'e', 'm']), stem);
    assert(token(seq!['e', 'x', 't'])[0] == '{');
    crate::text::lemma_replace_absent(padded(date.day as nat, 2), token(seq!['e', 'x', 't']), ext);
    assert(token(seq!['c', 'a', 'm', 'e', 'r', 'a'])[0] == '{');
    crate::text::lemma_replace_absent(padded(date.day as nat, 2), token(seq!['c', 'a', 'm', 'e', 'r', 'a']), camera_text(camera));
    assert(token(seq!['c', 'o', 'u', 'n', 't', 'e', 'r'])[0] == '{');
    crate::text::lemma_replace_absent(padded(date.day as nat, 2), token(seq!['c', 'o', 'u', 'n', 't', 'e', 'r']), padded(counter as nat, 4));
    assert(token(seq!['p', 'r', 'e', 'f', 'i', 'x'])[0] == '{');
    crate::text::lemma_replace_absent(padded(date.day as nat, 2), token(seq!['p', 'r', 'e', 'f', 'i', 'x']), prefix);
}

proof fn lemma_single_date_token_hour(
    date: LocalDateTime,
    stem: Seq<char>,
    ext: Seq<char>,
    camera: Option<Seq<char>>,
    counter: u32,
    prefix: Seq<char>,
)
    ensures
        pattern_result(token(seq!['h', 'o', 'u', 'r']), date, stem, ext, camera, counter, prefix) == padded(date.hour as nat, 2),
{
    let p = token(seq!['h', 'o', 'u', 'r']);
    assert(p[0] == '{');
    assert(!p.drop_first().contains('{')) by {
        if p.drop_first().contains('{') {
            let k = choose|k: int| 0 <= k < p.drop_first().len() && p.drop_first()[k] == '{';
            assert(p.drop_first()[k] == p[k + 1]);
        }
    }
    lemma_no_brace_padded(date.hour as nat, 2);
    assert(p[1] != token(seq!['y', 'e', 'a', 'r'])[1]);
    lemma_replace_other(p, token(seq!['y', 'e', 'a', 'r']), year_text(date.year as int), 1);
    lemma_replace_other(p, token(seq!['m', 'o', 'n', 't', 'h']), padded(date.month as nat, 2), 0);
    assert(p[1] != token(seq!['d', 'a', 'y'])[1]);
    lemma_replace_other(p, token(seq!['d', 'a', 'y']), padded(date.day as nat, 2), 1);
    lemma_replace_self(p, padded(date.hour as nat, 2));
    assert(token(seq!['m', 'i', 'n'])[0] == '{');
    crate::text::lemma_replace_absent(padded(date.hour as nat, 2), token(seq!['m', 'i', 'n']), padded(date.minute as nat, 2));
    assert(token(seq!['s', 'e', 'c'])[0] == '{');
    crate::text::lemma_replace_absent(padded(date.hour as nat, 2), token(seq!['s', 'e', 'c']), padded(date.second as nat, 2));
    assert(token(seq!['s', 't', 'e', 'm'])[0] == '{');
    crate::text::lemma_replace_absent(padded(date.hour as nat, 2), token(seq!['s', 't', 'e', 'm']), stem);
    assert(token(seq!['e', 'x', 't'])[0] == '{');
    crate::text::lemma_replace_absent(padded(date.hour as nat, 2), token(seq!['e', 'x', 't']), ext);
    assert(token(seq!['c', 'a', 'm', 'e', 'r', 'a'])[0] == '{');
    crate::text::lemma_replace_absent(padded(date.hour as nat, 2), token(seq!['c', 'a', 'm', 'e', 'r', 'a']), camera_text(camera));
    assert(token(seq!['c', 'o', 'u', 'n', 't', 'e', 'r'])[0] == '{');
    crate::text::lemma_replace_absent(padded(date.hour as nat, 2), token(seq!['c', 'o', 'u', 'n', 't', 'e', 'r']), padded(counter as nat, 4));
    assert(token(seq!['p', 'r', 'e', 'f', 'i', 'x'])[0] == '{');
    crate::text::lemma_replace_absent(padded(date.hour as nat, 2), token(seq!['p', 'r', 'e', 'f', 'i', 'x']), prefix);
}

proof fn lemma_single_date_token_min(
    date: LocalDateTime,
    stem: Seq<char>,
    ext: Seq<char>,
    camera: Option<Seq<char>>,
    counter: u32,
    prefix: Seq<char>,
)
    ensures
        pattern_result(token(seq!['m', 'i', 'n']), date, stem, ext, camera, counter, prefix) == padded(date.minute as nat, 2),
{
    let p = token(seq!['m', 'i', 'n']);
    assert(p[0] == '{');
    assert(!p.drop_first().contains('{')) by {
        if p.drop_first().contains('{') {
            let k = choose|k: int| 0 <= k < p.drop_first().len() && p.drop_first()[k] == '{';
            assert(p.drop_first()[k] == p[k + 1]);
        }
    }
    lemma_no_brace_padded(date.minute as nat, 2);
    lemma_replace_other(p, token(seq!['y', 'e', 'a', 'r']), year_text(date.year as int), 0);
    lemma_replace_other(p, token(seq!['m', 'o', 'n', 't', 'h']), padded(date.month as nat, 2), 0);
    assert(p[1] != token(seq!['d', 'a', 'y'])[1]);
    lemma_replace_other(p, token(seq!['d', 'a', 'y']), padded(date.day as nat, 2), 1);
    lemma_replace_other(p, token(seq!['h', 'o', 'u', 'r']), padded(date.hour as nat, 2), 0);
    lemma_replace_self(p, padded(date.minute as nat, 2));
    assert(token(seq!['s', 'e', 'c'])[0] == '{');
    crate::text::lemma_replace_absent(padded(date.minute as nat, 2), token(seq!['s', 'e', 'c']), padded(date.second as nat, 2));
    assert(token(seq!['s', 't', 'e', 'm'])[0] == '{');
    crate::text::lemma_replace_absent(padded(date.minute as nat, 2), token(seq!['s', 't', 'e', 'm']), stem);
    assert(token(seq!['e', 'x', 't'])[0] == '{');
    crate::text::lemma_replace_absent(padded(date.minute as nat, 2), token(seq!['e', 'x', 't']), ext);
    assert(token(seq!['c', 'a', 'm', 'e', 'r', 'a'])[0] == '{');
    crate::text::lemma_replace_absent(padded(date.minute as nat, 2), token(seq!['c', 'a', 'm', 'e', 'r', 'a']), camera_text(camera));
    assert(token(seq!['c', 'o', 'u', 'n', 't', 'e', 'r'])[0] == '{');
    crate::text::lemma_replace_absent(padded(date.minute as nat, 2), token(seq!['c', 'o', 'u', 'n', 't', 'e', 'r']), padded(counter as nat, 4));
    assert(token(seq!['p', 'r', 'e', 'f', 'i', 'x'])[0] == '{');
    crate::text::lemma_replace_absent(padded(date.minute as nat, 2), token(seq!['p', 'r', 'e', 'f', 'i', 'x']), prefix);
}

proof fn lemma_single_date_token_sec(
    date: LocalDateTime,
    stem: Seq<char>,
    ext: Seq<char>,
    camera: Option<Seq<char>>,
    counter: u32,
    prefix: Seq<char>,
)
    ensures
        pattern_result(token(seq!['s', 'e', 'c']), date, stem, ext, camera, counter, prefix) == padded(date.second as nat, 2),
{
    let p = token(seq!['s', 'e', 'c']);
    assert(p[0] == '{');
    assert(!p.drop_first().contains('{')) by {
        if p.drop_first().contains('{') {
            let k = choose|k: int| 0 <= k < p.drop_first().len() && p.drop_first()[k] == '{';
            assert(p.drop_first()[k] == p[k + 1]);
        }
    }
    lemma_no_brace_padded(date.second as nat, 2);
    lemma_replace_other(p, token(seq!['y', 'e', 'a', 'r']), year_text(date.year as int), 0);
    lemma_replace_other(p, token(seq!['m', 'o', 'n', 't', 'h']), padded(date.month as nat, 2), 0);
    assert(p[1] != token(seq!['d', 'a', 'y'])[1]);
    lemma_replace_other(p, token(seq!['d', 'a', 'y']), padded(date.day as nat, 2), 1);
    lemma_replace_other(p, token(seq!['h', 'o', 'u', 'r']), padded(date.hour as nat, 2), 0);
    assert(p[1] != token(seq!['m', 'i', 'n'])[1]);
    lemma_replace_other(p, token(seq!['m', 'i', 'n']), padded(date.minute as nat, 2), 1);
    lemma_replace_self(p, padded(date.second as nat, 2));
    assert(token(seq!['s', 't', 'e', 'm'])[0] == '{');
    crate::text::lemma_replace_absent(padded(date.second as nat, 2), token(seq!['s', 't', 'e', 'm']), stem);
    assert(token(seq!['e', 'x', 't'])[0] == '{');
    crate::text::lemma_replace_absent(padded(date.second as nat, 2), token(seq!['e', 'x', 't']), ext);
    assert(token(seq!['c', 'a', 'm', 'e', 'r', 'a'])[0] == '{');
    crate::text::lemma_replace_absent(padded(date.second as nat, 2), token(seq!['c', 'a', 'm', 'e', 'r', 'a']), camera_text(camera));
    assert(token(seq!['c', 'o', 'u', 'n', 't', 'e', 'r'])[0] == '{');
    crate::text::lemma_replace_absent(padded(date.second as nat, 2), token(seq!['c', 'o', 'u', 'n', 't', 'e', 'r']), padded(counter as nat, 4));
    assert(token(seq!['p', 'r', 'e', 'f', 'i', 'x'])[0] == '{');
    crate::text::lemma_replace_absent(padded(date.second as nat, 2), token(seq!['p', 'r', 'e', 'f', 'i', 'x']), prefix);
}

/// A pattern that is the `{stem}`, `{ext}` or `{prefix}` token gives that text itself,
/// when the text holds no `{` of its own.
pub proof fn law_single_text_token(
    date: LocalDateTime,
    stem: Seq<char>,
    ext: Seq<char>,
    camera: Option<Seq<char>>,
    counter: u32,
    prefix: Seq<char>,
)
    ensures
        !stem.contains('{') ==> pattern_result(token(seq!['s', 't', 'e', 'm']), date, stem, ext, camera, counter, prefix) == stem,
        !ext.contains('{') ==> pattern_result(token(seq!['e', 'x', 't']), date, stem, ext, camera, counter, prefix) == ext,
        !prefix.contains('{') ==> pattern_result(token(seq!['p', 'r', 'e', 'f', 'i', 'x']), date, stem, ext, camera, counter, prefix) == prefix,
{
    if !stem.contains('{') {
        lemma_single_text_token_stem(date, stem, ext, camera, counter, prefix);
    }
    if !ext.contains('{') {
        lemma_single_text_token_ext(date, stem, ext, camera, counter, prefix);
    }
    if !prefix.contains('{') {
        lemma_single_text_token_prefix(date, stem, ext, camera, counter, prefix);
    }
}

proof fn lemma_single_text_token_stem(
    date: LocalDateTime,
    stem: Seq<char>,
    ext: Seq<char>,
    camera: Option<Seq<char>>,
    counter: u32,
    prefix: Seq<char>,
)
    requires
        !stem.contains('{'),
    ensures
        pattern_result(token(seq!['s', 't', 'e', 'm']), date, stem, ext, camera, counter, prefix) == stem,
{
    let p = token(seq!['s', 't', 'e', 'm']);
    assert(p[0] == '{');
    assert(!p.drop_first().contains('{')) by {
        if p.drop_first().contains('{') {
            let k = choose|k: int| 0 <= k < p.drop_first().len() && p.drop_first()[k] == '{';
            assert(p.drop_first()[k] == p[k + 1]);
        }
    }
    assert(p[1] != token(seq!['y', 'e', 'a', 'r'])[1]);
    lemma_replace_other(p, token(seq!['y', 'e', 'a', 'r']), year_text(date.year as int), 1);
    lemma_replace_other(p, token(seq!['m', 'o', 'n', 't', 'h']), padded(date.month as nat, 2), 0);
    assert(p[1] != token(seq!['d', 'a', 'y'])[1]);
    lemma_replace_other(p, token(seq!['d', 'a', 'y']), padded(date.day as nat, 2), 1);
    assert(p[1] != token(seq!['h', 'o', 'u', 'r'])[1]);
    lemma_replace_other(p, token(seq!['h', 'o', 'u', 'r']), padded(date.hour as nat, 2), 1);
    assert(p[1] != token(seq!['m', 'i', 'n'])[1]);
    lemma_replace_other(p, token(seq!['m', 'i', 'n']), padded(date.minute as nat, 2), 1);
    assert(p[2] != token(seq!['s', 'e', 'c'])[2]);
    lemma_replace_other(p, token(seq!['s', 'e', 'c']), padded(date.second as nat, 2), 2);
    lemma_replace_self(p, stem);
    assert(token(seq!['e', 'x', 't'])[0] == '{');
    crate::text::lemma_replace_absent(stem, token(seq!['e', 'x', 't']), ext);
    assert(token(seq!['c', 'a', 'm', 'e', 'r', 'a'])[0] == '{');
    crate::text::lemma_replace_absent(stem, token(seq!['c', 'a', 'm', 'e', 'r', 'a']), camera_text(camera));
    assert(token(seq!['c', 'o', 'u', 'n', 't', 'e', 'r'])[0] == '{');
    crate::text::lemma_replace_absent(stem, token(seq!['c', 'o', 'u', 'n', 't', 'e', 'r']), padded(counter as nat, 4));
    assert(token(seq!['p', 'r', 'e', 'f', 'i', 'x'])[0] == '{');
    crate::text::lemma_replace_absent(stem, token(seq!['p', 'r', 'e', 'f', 'i', 'x']), prefix);
}

proof fn lemma_single_text_token_ext(
    date: LocalDateTime,
    stem: Seq<char>,
    ext: Seq<char>,
    camera: Option<Seq<char>>,
    counter: u32,
    prefix: Seq<char>,
)
    requires
        !ext.contains('{'),
    ensures
        pattern_result(token(seq!['e', 'x', 't']), date, stem, ext, camera, counter, prefix) == ext,
{
    let p = token(seq!['e', 'x', 't']);
    assert(p[0] == '{');
    assert(!p.drop_first().contains('{')) by {
        if p.drop_first().contains('{') {
            let k = choose|k: int| 0 <= k < p.drop_first().len() && p.drop_first()[k] == '{';
            assert(p.drop_first()[k] == p[k + 1]);
        }
    }
    lemma_replace_other(p, token(seq!['y', 'e', 'a', 'r']), year_text(date.year as int), 0);
    lemma_replace_other(p, token(seq!['m', 'o', 'n', 't', 'h']), padded(date.month as nat, 2), 0);
    assert(p[1] != token(seq!['d', 'a', 'y'])[1]);
    lemma_replace_other(p, token(seq!['d', 'a', 'y']), padded(date.day as nat, 2), 1);
    lemma_replace_other(p, token(seq!['h', 'o', 'u', 'r']), padded(date.hour as nat, 2), 0);
    assert(p[1] != token(seq!['m', 'i', 'n'])[1]);
    lemma_replace_other(p, token(seq!['m', 'i', 'n']), padded(date.minute as nat, 2), 1);
    assert(p[1] != token(seq!['s', 'e', 'c'])[1]);
    lemma_replace_other(p, token(seq!['s', 'e', 'c']), padded(date.second as nat, 2), 1);
    lemma_replace_other(p, token(seq!['s', 't', 'e', 'm']), stem, 0);
    lemma_replace_self(p, ext);
    assert(token(seq!['c', 'a', 'm', 'e', 'r', 'a'])[0] == '{');
    crate::text::lemma_replace_absent(ext, token(seq!['c', 'a', 'm', 'e', 'r', 'a']), camera_text(camera));
    assert(token(seq!['c', 'o', 'u', 'n', 't', 'e', 'r'])[0] == '{');
    crate::text::lemma_replace_absent(ext, token(seq!['c', 'o', 'u', 'n', 't', 'e', 'r']), padded(counter as nat, 4));
    assert(token(seq!['p', 'r', 'e', 'f', 'i', 'x'])[0] == '{');
    crate::text::lemma_replace_absent(ext, token(seq!['p', 'r', 'e', 'f', 'i', 'x']), prefix);
}

proof fn lemma_single_text_token_prefix(
    date: LocalDateTime,
    stem: Seq<char>,
    ext: Seq<char>,
    camera: Option<Seq<char>>,
    counter: u32,
    prefix: Seq<char>,
)
    requires
        !prefix.contains('{'),
    ensures
        pattern_result(token(seq!['p', 'r', 'e', 'f', 'i', 'x']), date, stem, ext, camera, counter, prefix) == prefix,
{
    let p = token(seq!['p', 'r', 'e', 'f', 'i', 'x']);
    assert(p[0] == '{');
    assert(!p.drop_first().contains('{')) by {
        if p.drop_first().contains('{') {
            let k = choose|k: int| 0 <= k < p.drop_first().len() && p.drop_first()[k] == '{';
            assert(p.drop_first()[k] == p[k + 1]);
        }
    }
    assert(p[1] != token(seq!['y', 'e', 'a', 'r'])[1]);
    lemma_replace_other(p, token(seq!['y', 'e', 'a', 'r']), year_text(date.year as int), 1);
    assert(p[1] != token(seq!['m', 'o', 'n', 't', 'h'])[1]);
    lemma_replace_other(p, token(seq!['m', 'o', 'n', 't', 'h']), padded(date.month as nat, 2), 1);
    assert(p[1] != token(seq!['d', 'a', 'y'])[1]);
    lemma_replace_other(p, token(seq!['d', 'a', 'y']), padded(date.day as nat, 2), 1);
    assert(p[1] != token(seq!['h', 'o', 'u', 'r'])[1]);
    lemma_replace_other(p, token(seq!['h', 'o', 'u', 'r']), padded(date.hour as nat, 2), 1);
    assert(p[1] != token(seq!['m', 'i', 'n'])[1]);
    lemma_replace_other(p, token(seq!['m', 'i', 'n']), padded(date.minute as nat, 2), 1);
    assert(p[1] != token(seq!['s', 'e', 'c'])[1]);
    lemma_replace_other(p, token(seq!['s', 'e', 'c']), padded(date.second as nat, 2), 1);
    assert(p[1] != token(seq!['s', 't', 'e', 'm'])[1]);
    lemma_replace_other(p, token(seq!['s', 't', 'e', 'm']), stem, 1);
    assert(p[1] != token(seq!['e', 'x', 't'])[1]);
    lemma_replace_other(p, token(seq!['e', 'x', 't']), ext, 1);
    assert(p[1] != token(seq!['c', 'a', 'm', 'e', 'r', 'a'])[1]);
    lemma_replace_other(p, token(seq!['c', 'a', 'm', 'e', 'r', 'a']), camera_text(camera), 1);
    lemma_replace_other(p, token(seq!['c', 'o', 'u', 'n', 't', 'e', 'r']), padded(counter as nat, 4), 0);
    lemma_replace_self(p, prefix);
}

/// A pattern without `{` has no token and is its own destination.
pub proof fn lemma_pattern_without_tokens(
    pattern: Seq<char>,
    date: LocalDateTime,
    stem: Seq<char>,
    ext: Seq<char>,
    camera: Option<Seq<char>>,
    counter: u32,
    prefix: Seq<char>,
)
    requires
        !pattern.contains('{'),
    ensures
        pattern_result(pattern, date, stem, ext, camera, counter, prefix) == pattern,
{
    assert(token(seq!['y', 'e', 'a', 'r'])[0] == '{');
    assert(token(seq!['m', 'o', 'n', 't', 'h'])[0] == '{');
    assert(token(seq!['d', 'a', 'y'])[0] == '{');
    assert(token(seq!['h', 'o', 'u', 'r'])[0] == '{');
    assert(token(seq!['m', 'i', 'n'])[0] == '{');
    assert(token(seq!['s', 'e', 'c'])[0] == '{');
    assert(token(seq!['s', 't', 'e', 'm'])[0] == '{');
    assert(token(seq!['e', 'x', 't'])[0] == '{');
    assert(token(seq!['c', 'a', 'm', 'e', 'r', 'a'])[0] == '{');
    assert(token(seq!['c', 'o', 'u', 'n', 't', 'e', 'r'])[0] == '{');
    assert(token(seq!['p', 'r', 'e', 'f', 'i', 'x'])[0] == '{');
    crate::text::lemma_replace_absent(pattern, token(seq!['y', 'e', 'a', 'r']), year_text(date.year as int));
    crate::text::lemma_replace_absent(pattern, token(seq!['m', 'o', 'n', 't', 'h']), padded(date.month as nat, 2));
    crate::text::lemma_replace_absent(pattern, token(seq!['d', 'a', 'y']), padded(date.day as nat, 2));
    crate::text::lemma_replace_absent(pattern, token(seq!['h', 'o', 'u', 'r']), padded(date.hour as nat, 2));
    crate::text::lemma_replace_absent(pattern, token(seq!['m', 'i', 'n']), padded(date.minute as nat, 2));
    crate::text::lemma_replace_absent(pattern, token(seq!['s', 'e', 'c']), padded(date.second as nat, 2));
    crate::text::lemma_replace_absent(pattern, token(seq!['s', 't', 'e', 'm']), stem);
    crate::text::lemma_replace_absent(pattern, token(seq!['e', 'x', 't']), ext);
    crate::text::lemma_replace_absent(pattern, token(seq!['c', 'a', 'm', 'e', 'r', 'a']), camera_text(camera));
    crate::text::lemma_replace_absent(pattern, token(seq!['c', 'o', 'u', 'n', 't', 'e', 'r']), padded(counter as nat, 4));
    crate::text::lemma_replace_absent(pattern, token(seq!['p', 'r', 'e', 'f', 'i', 'x']), prefix);
}

/// The stem used for renamed copies: the file stem, or `file`.
pub open spec fn rename_stem(dest: Seq<char>) -> Seq<char> {
    match file_stem(dest) {
        Some(st) => st,
        None => seq!['f', 'i', 'l', 'e'],
    }
}

/// The extension used for renamed copies: `.` and the extension, or nothing.
pub open spec fn rename_ext(dest: Seq<char>) -> Seq<char> {
    match extension(dest) {
        Some(e) => seq!['.'] + e,
        None => seq![],
    }
}

/// The directory of renamed copies: the parent of `dest`, or `.`.
pub open spec fn rename_dir(dest: Seq<char>) -> Seq<char> {
    match parent_components(dest) {
        Some(c) => render(c),
        None => seq!['.'],
    }
}

/// The `i`-th renamed copy of `dest`: `<parent>/<stem>_<i><.ext>`.
pub open spec fn rename_candidate(dest: Seq<char>, i: nat) -> Seq<char> {
    join(rename_dir(dest), rename_stem(dest) + seq!['_'] + decimal(i) + rename_ext(dest))
}

/// The `i`-th renamed copy of `dest`.
pub fn rename_candidate_path(dest: &str, i: u32) -> (r: String)
    ensures
        r@ == rename_candidate(dest@, i as nat),
{
    let stem = match path_file_stem(dest) {
        Some(st) => st,
        None => vec!['f', 'i', 'l', 'e'],
    };
    let mut name: Vec<char> = Vec::new();
    extend_chars(&mut name, &stem);
    name.push('_');
    let mut num = String::new();
    push_decimal(&mut num, i as u64);
    assert(num@ =~= decimal(i as nat));
    let digits = chars_of(num.as_str());
    extend_chars(&mut name, &digits);
    match path_extension(dest) {
        Some(e) => {
            name.push('.');
            extend_chars(&mut name, &e);
        },
        None => {},
    }
    assert(name@ =~= rename_stem(dest@) + seq!['_'] + decimal(i as nat) + rename_ext(dest@));
    let dir = match path_parent(dest) {
        Some(c) => render_parts(&c),
        None => vec!['.'],
    };
    let full = join_chars(&dir, &name);
    string_from_chars(&full, 0, full.len())
}

/// The message of an unresolvable conflict on `dest`.
pub open spec fn unresolvable_message(dest: Seq<char>) -> Seq<char> {
    "Cannot find free name for "@ + dest
}

/// Position `i` of the existence checks is taken: 0 stands for the destination itself,
/// `i >= 1` for its `i`-th renamed copy; positions past the checks are free.
pub open spec fn taken(occupied: Seq<bool>, i: int) -> bool {
    0 <= i < occupied.len() && occupied[i]
}

/// The first renamed copy from `i` up to 9999 that is not taken.
pub open spec fn first_free(occupied: Seq<bool>, i: int) -> Option<nat>
    decreases 10000 - i,
{
    if i < 1 || i > 9999 {
        None
    } else if !taken(occupied, i) {
        Some(i as nat)
    } else {
        first_free(occupied, i + 1)
    }
}

/// Where a file bound for `dest` goes under `strategy`, given which of the destination
/// and its renamed copies are taken: `Some(Some(p))` to move to `p`, `Some(None)` to
/// leave the file where it is, `None` when no free name is left.
pub open spec fn resolution(dest: Seq<char>, strategy: OnConflict, occupied: Seq<bool>) -> Option<Option<Seq<char>>> {
    if !taken(occupied, 0) {
        Some(Some(dest))
    } else {
        match strategy {
            OnConflict::Overwrite => Some(Some(dest)),
            OnConflict::Skip => Some(None),
            OnConflict::Rename => match first_free(occupied, 1) {
                Some(i) => Some(Some(rename_candidate(dest, i))),
                None => None,
            },
        }
    }
}

/// The result `r` carries the resolution `res` of `dest`.
pub open spec fn resolves_to(r: Result<Option<String>, NamingError>, dest: Seq<char>, res: Option<Option<Seq<char>>>) -> bool {
    match res {
        Some(Some(p)) => r matches Ok(Some(q)) && q@ == p,
        Some(None) => r matches Ok(None),
        None => r matches Err(NamingError::ConflictUnresolvable(m)) && m@ == unresolvable_message(dest),
    }
}

proof fn lemma_first_free_all_taken(occupied: Seq<bool>, k: int)
    requires
        1 <= k <= occupied.len(),
        forall|j: int| 0 <= j < occupied.len() ==> #[trigger] occupied[j],
    ensures
        first_free(occupied, k) == (if occupied.len() <= 9999 {
            Some(occupied.len() as nat)
        } else {
            None::<nat>
        }),
    decreases 10000 - k,
{
    if k > 9999 {
    } else if k < occupied.len() {
        assert(taken(occupied, k));
        lemma_first_free_all_taken(occupied, k + 1);
    } else {
        assert(!taken(occupied, k));
    }
}

proof fn lemma_first_free_is_first(occupied: Seq<bool>, k: int)
    requires
        1 <= k,
        first_free(occupied, k) is Some,
    ensures
        k <= first_free(occupied, k)->Some_0 <= 9999,
        !taken(occupied, first_free(occupied, k)->Some_0 as int),
        forall|j: int| k <= j < first_free(occupied, k)->Some_0 ==> #[trigger] taken(occupied, j),
    decreases 10000 - k,
{
    if k <= 9999 && taken(occupied, k) {
        lemma_first_free_is_first(occupied, k + 1);
    }
}

/// A destination that is free is used as is, whatever the strategy.
pub proof fn law_free_destination_is_used(dest: Seq<char>, strategy: OnConflict, occupied: Seq<bool>)
    requires
        !taken(occupied, 0),
    ensures
        resolution(dest, strategy, occupied) == Some(Some(dest)),
{
}

/// Renaming picks the first renamed copy that is free: every copy before it is taken.
pub proof fn law_rename_picks_first_free(dest: Seq<char>, occupied: Seq<bool>, p: Seq<char>)
    requires
        taken(occupied, 0),
        resolution(dest, OnConflict::Rename, occupied) == Some(Some(p)),
    ensures
        exists|i: int| {
            &&& 1 <= i <= 9999
            &&& p == rename_candidate(dest, i as nat)
            &&& !taken(occupied, i)
            &&& forall|j: int| 1 <= j < i ==> #[trigger] taken(occupied, j)
        },
{
    lemma_first_free_is_first(occupied, 1);
    let i = first_free(occupied, 1)->Some_0 as int;
    assert(p == rename_candidate(dest, i as nat));
}

/// Renaming fails only when the destination and all 9999 renamed copies are taken.
pub proof fn law_rename_fails_only_when_all_taken(dest: Seq<char>, occupied: Seq<bool>)
    requires
        resolution(dest, OnConflict::Rename, occupied) is None,
    ensures
        forall|j: int| 0 <= j <= 9999 ==> #[trigger] taken(occupied, j),
{
    assert forall|j: int| 0 <= j <= 9999 implies #[trigger] taken(occupied, j) by {
        if j >= 1 && !taken(occupied, j) {
            lemma_first_free_none(occupied, 1, j);
        }
    }
}

proof fn lemma_first_free_none(occupied: Seq<bool>, k: int, j: int)
    requires
        1 <= k <= j <= 9999,
        !taken(occupied, j),
    ensures
        first_free(occupied, k) is Some,
    decreases j - k,
{
    if taken(occupied, k) {
        lemma_first_free_none(occupied, k + 1, j);
    }
}

fn unresolvable(dest: &str) -> (e: NamingError)
    ensures
        e matches NamingError::ConflictUnresolvable(m) && m@ == unresolvable_message(dest@),
{
    let mut msg = String::from_str("Cannot find free name for ");
    msg.append(dest);
    NamingError::ConflictUnresolvable(msg)
}

/// Resolves a destination path according to the conflict strategy, given the answers
/// of the existence checks: `occupied[0]` for `dest`, `occupied[i]` for its `i`-th
/// renamed copy (a check past the end of `occupied` counts as free).
///
/// A free destination is returned as is. Otherwise `Overwrite` returns it as is (the
/// caller overwrites), `Skip` returns `None`, and `Rename` returns the first of
/// `<stem>_1<.ext>` … `<stem>_9999<.ext>` next to it that is free, or an error.
pub fn resolve_among(dest: &str, strategy: &OnConflict, occupied: &Vec<bool>) -> (r: Result<Option<String>, NamingError>)
    ensures
        resolves_to(r, dest@, resolution(dest@, *strategy, occupied@)),
{
    if !(occupied.len() > 0 && occupied[0]) {
        return Ok(Some(String::from_str(dest)));
    }
    match strategy {
        OnConflict::Overwrite => Ok(Some(String::from_str(dest))),
        OnConflict::Skip => Ok(None),
        OnConflict::Rename => {
            let mut i: u32 = 1;
            while i <= 9999
                invariant
                    1 <= i <= 10000,
                    taken(occupied@, 0),
                    *strategy == OnConflict::Rename,
                    first_free(occupied@, 1) == first_free(occupied@, i as int),
                decreases 10000 - i,
            {
                if !((i as usize) < occupied.len() && occupied[i as usize]) {
                    assert(first_free(occupied@, i as int) == Some(i as nat));
                    return Ok(Some(rename_candidate_path(dest, i)));
                }
                i = i + 1;
            }
            assert(first_free(occupied@, 10000) == None::<nat>);
            Err(unresolvable(dest))
        },
    }
}

/// The existence checks `answers` were asked to the end under `strategy`: the first is
/// for the destination; only `Rename` of a taken destination goes on, through the
/// renamed copies in order, until one is free or all 9999 have been asked. Every
/// answer but the last is "taken".
pub open spec fn answers_complete(answers: Seq<bool>, strategy: OnConflict) -> bool {
    &&& 1 <= answers.len() <= 10000
    &&& (!answers[0] || strategy != OnConflict::Rename) ==> answers.len() == 1
    &&& (strategy == OnConflict::Rename && answers[0]) ==> (answers.len() == 10000 || !answers[answers.len() - 1])
    &&& forall|j: int| 0 <= j < answers.len() - 1 ==> #[trigger] answers[j]
}

/// Under complete answers, Rename of a taken destination gives the least renamed copy
/// found free, or the unresolvable error when all 9999 are taken; Skip leaves the file
/// where it is and Overwrite keeps the destination.
pub proof fn law_taken_destination(dest: Seq<char>, strategy: OnConflict, answers: Seq<bool>)
    requires
        answers_complete(answers, strategy),
        answers[0],
    ensures
        strategy == OnConflict::Skip ==> resolution(dest, strategy, answers) == Some(None::<Seq<char>>),
        strategy == OnConflict::Overwrite ==> resolution(dest, strategy, answers) == Some(Some(dest)),
        strategy == OnConflict::Rename && answers.len() == 10000 && answers[9999] ==> resolution(
            dest,
            strategy,
            answers,
        ) is None,
        strategy == OnConflict::Rename && !(answers.len() == 10000 && answers[9999]) ==> {
            let k = answers.len() - 1;
            &&& 1 <= k <= 9999
            &&& resolution(dest, strategy, answers) == Some(Some(rename_candidate(dest, k as nat)))
            &&& !taken(answers, k)
            &&& forall|j: int| 1 <= j < k ==> #[trigger] taken(answers, j)
        },
{
    assert(taken(answers, 0));
    if strategy == OnConflict::Rename {
        if answers.len() == 10000 && answers[9999] {
            assert forall|j: int| 0 <= j <= 9999 implies #[trigger] taken(answers, j) by {
                if j < 9999 {
                    assert(answers[j]);
                }
            }
            lemma_first_free_all_taken(answers, 1);
        } else {
            let k = answers.len() - 1;
            assert(!answers[k]);
            lemma_first_free_at(answers, 1, k);
        }
    }
}

proof fn lemma_first_free_at(answers: Seq<bool>, i: int, k: int)
    requires
        1 <= i <= k <= 9999,
        k < answers.len(),
        !answers[k],
        forall|j: int| 0 <= j < k ==> #[trigger] answers[j],
    ensures
        first_free(answers, i) == Some(k as nat),
    decreases k - i,
{
    if i < k {
        assert(answers[i]);
        lemma_first_free_at(answers, i + 1, k);
    }
}

/// Resolves a destination path according to the conflict strategy, asking the
/// filesystem, and returns the answers it got with the result.
///
/// The answers are, in order: whether `dest` exists, then (for `Rename` when it does)
/// whether `<stem>_1<.ext>`, `<stem>_2<.ext>`, … exist, up to the first that does not
/// or up to the 9999th. The result is the resolution for exactly those answers.
pub fn resolve_conflict_with_answers(dest: &str, strategy: &OnConflict) -> (r: (
    Result<Option<String>, NamingError>,
    Vec<bool>,
))
    ensures
        resolves_to(r.0, dest@, resolution(dest@, *strategy, r.1@)),
        answers_complete(r.1@, *strategy),
{
    let mut answers: Vec<bool> = Vec::new();
    answers.push(path_exists(dest));
    if answers[0] && *strategy == OnConflict::Rename {
        let mut i: u32 = 1;
        let mut free = false;
        while i <= 9999 && !free
            invariant
                1 <= i <= 10000,
                free ==> i <= 9999,
                free ==> !answers@[answers@.len() - 1],
                answers@[0],
                answers@.len() == (if free { i + 1 } else { i as int }),
                forall|j: int| 0 <= j < answers@.len() - 1 ==> #[trigger] answers@[j],
                !free ==> forall|j: int| 0 <= j < answers@.len() ==> #[trigger] answers@[j],
            decreases 10000 - i + (if free { 0int } else { 1int }),
        {
            let candidate = rename_candidate_path(dest, i);
            let taken = path_exists(candidate.as_str());
            answers.push(taken);
            if taken {
                i = i + 1;
            } else {
                free = true;
            }
        }
    }
    let r = resolve_among(dest, strategy, &answers);
    (r, answers)
}

/// Resolves a destination path according to the conflict strategy.
///
/// A destination that does not exist is returned as is. Otherwise `Overwrite` returns
/// it as is (the caller overwrites), `Skip` returns `None`, and `Rename` returns the
/// first of `<stem>_1<.ext>` … `<stem>_9999<.ext>` next to it that does not exist.
/// Whether a path exists is asked of the filesystem at each check, so the result is
/// the resolution for the answers of those checks (see
/// [`resolve_conflict_with_answers`], which returns them).
pub fn resolve_conflict(dest: &str, strategy: &OnConflict) -> (r: Result<Option<String>, NamingError>)
    ensures
        exists|occupied: Seq<bool>|
            answers_complete(occupied, *strategy) && resolves_to(r, dest@, #[trigger] resolution(dest@, *strategy, occupied)),
{
    let (r, answers) = resolve_conflict_with_answers(dest, strategy);
    assert(resolves_to(r, dest@, resolution(dest@, *strategy, answers@)));
    r
}

} // verus!
