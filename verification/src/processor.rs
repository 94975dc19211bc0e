//! The processing pipeline of one file: extension check, capture date, destination,
//! conflict resolution and the filesystem steps that follow.

use vstd::prelude::*;
use vstd::string::*;
use vstd::utf8::*;
use crate::config::FolderConfig;
use crate::date_reader::{
    facebook_date_only, filename_date_candidate, filename_date_possible, read_with_fallback,
};
use crate::datetime::{CaptureTime, LocalDateTime};
use crate::error::{ExifError, NamingError, ProcessorError};
use crate::exif::{exif_text, format_exif_datetime};
use crate::naming::{
    answers_complete, apply_pattern, token, is_video, is_video_extension, pattern_result, resolution, resolve_among,
    resolve_conflict_with_answers, unresolvable_message,
};
use crate::path::{
    extension, file_stem, join, join_chars, parent_components, path_exists, path_extension,
    path_file_stem, path_parent, render, render_parts,
};
use crate::text::{chars_of, padded, string_from_chars, year_text};

verus! {

/// What `str::to_lowercase` makes of `s` (Unicode lowercase mapping).
pub uninterp spec fn lowercase(s: Seq<char>) -> Seq<char>;

/// ASCII text with `A`–`Z` turned into `a`–`z`.
pub open spec fn ascii_lowercase(s: Seq<char>) -> Seq<char> {
    Seq::new(s.len(), |i: int| if 'A' <= s[i] <= 'Z' { ((s[i] as u32) + 32) as char } else { s[i] })
}

/// The lowercase form of `s`: for ASCII text its ASCII lowercase, otherwise the Unicode
/// lowercase mapping of `str::to_lowercase`.
pub open spec fn lower_text(s: Seq<char>) -> Seq<char> {
    if is_ascii_chars(s) {
        ascii_lowercase(s)
    } else {
        lowercase(s)
    }
}

/// Calls `str::to_lowercase`. The Unicode lowercase mapping it applies is left to the
/// name [`lowercase`]; as its documentation says, each ASCII letter maps to its ASCII
/// lowercase and other ASCII characters stay, so ASCII text gets its ASCII lowercase.
#[verifier::external_body]
pub(crate) fn to_lowercase(s: &str) -> (r: String)
    ensures
        r@ == lowercase(s@),
        is_ascii_chars(s@) ==> r@ == ascii_lowercase(s@),
{
    s.to_lowercase()
}

/// The lowercase extension of `path` (empty when it has none).
pub open spec fn extension_lower(path: Seq<char>) -> Seq<char> {
    match extension(path) {
        Some(e) => lower_text(e),
        None => seq![],
    }
}

/// `ext_lower` is one of the allowed extensions, compared in lowercase.
pub open spec fn extension_allowed(allowed: Seq<String>, ext_lower: Seq<char>) -> bool {
    exists|i: int| 0 <= i < allowed.len() && lower_text(#[trigger] allowed[i]@) == ext_lower
}

fn equal_strings(a: &str, b: &str) -> (r: bool)
    ensures
        r == (a@ == b@),
{
    let ca = chars_of(a);
    let cb = chars_of(b);
    crate::path::chars_equal(&ca, &cb)
}

/// An extension is allowed exactly when it equals, in lowercase, one of the entries of
/// the list, wherever that entry stands (the first, the last or any other).
pub proof fn law_extension_allowed(allowed: Seq<String>, ext_lower: Seq<char>, i: int)
    ensures
        (0 <= i < allowed.len() && lower_text(allowed[i]@) == ext_lower) ==> extension_allowed(allowed, ext_lower),
        (forall|k: int| 0 <= k < allowed.len() ==> lower_text(#[trigger] allowed[k]@) != ext_lower)
            ==> !extension_allowed(allowed, ext_lower),
{
}

/// Checks the extension of `path` against the folder's allowed list, in lowercase.
/// Returns the lowercase extension.
pub fn check_extension(path: &str, cfg: &FolderConfig) -> (r: Result<String, ProcessorError>)
    ensures
        r matches Ok(e) ==> e@ == extension_lower(path@) && extension_allowed(cfg.extensions@, e@),
        r matches Err(err) ==> !extension_allowed(cfg.extensions@, extension_lower(path@)) && (
        err matches ProcessorError::ExtensionNotAllowed(e) && e@ == extension_lower(path@)),
        r is Ok <==> extension_allowed(cfg.extensions@, extension_lower(path@)),
{
    let ext_lower = match path_extension(path) {
        Some(e) => {
            let s = string_from_chars(&e, 0, e.len());
            assert(s@ =~= e@);
            to_lowercase(s.as_str())
        },
        None => String::new(),
    };
    let mut i: usize = 0;
    while i < cfg.extensions.len()
        invariant
            i <= cfg.extensions@.len(),
            ext_lower@ == extension_lower(path@),
            forall|j: int| 0 <= j < i ==> lower_text(#[trigger] cfg.extensions@[j]@) != ext_lower@,
        decreases cfg.extensions@.len() - i,
    {
        let l = to_lowercase(cfg.extensions[i].as_str());
        if equal_strings(l.as_str(), ext_lower.as_str()) {
            return Ok(ext_lower);
        }
        i = i + 1;
    }
    Err(ProcessorError::ExtensionNotAllowed(ext_lower))
}

/// The stem used in destination names: the file stem, or `file`.
pub open spec fn name_stem(path: Seq<char>) -> Seq<char> {
    match file_stem(path) {
        Some(s) => s,
        None => seq!['f', 'i', 'l', 'e'],
    }
}

/// The extension used in destination names: `.` and the extension as written, or nothing.
pub open spec fn name_ext(path: Seq<char>) -> Seq<char> {
    match extension(path) {
        Some(e) => seq!['.'] + e,
        None => seq![],
    }
}

/// The `{prefix}` text of a file: the video prefix for video extensions, the photo
/// prefix otherwise.
pub open spec fn name_prefix(cfg: FolderConfig, ext_lower: Seq<char>) -> Seq<char> {
    if is_video_extension(ext_lower) {
        cfg.video_prefix@
    } else {
        cfg.photo_prefix@
    }
}

/// The destination of `path` captured at `date`: the folder's pattern applied, under
/// the output folder.
pub open spec fn destination(cfg: FolderConfig, path: Seq<char>, date: LocalDateTime, ext_lower: Seq<char>) -> Seq<char> {
    join(
        cfg.output@,
        pattern_result(cfg.pattern@, date, name_stem(path), name_ext(path), None, 0, name_prefix(cfg, ext_lower)),
    )
}

/// The destination under a one-token pattern is the output folder joined with that
/// field of the capture date itself: `{year}` as chrono's `%Y`, `{month}`, `{day}`,
/// `{hour}` (00–23), `{min}` and `{sec}` as two digits.
pub proof fn law_destination_of_date_token(cfg: FolderConfig, path: Seq<char>, d: LocalDateTime, ext_lower: Seq<char>)
    ensures
        cfg.pattern@ == token(seq!['y', 'e', 'a', 'r']) ==> destination(cfg, path, d, ext_lower) == join(
            cfg.output@,
            year_text(d.year as int),
        ),
        cfg.pattern@ == token(seq!['m', 'o', 'n', 't', 'h']) ==> destination(cfg, path, d, ext_lower) == join(
            cfg.output@,
            padded(d.month as nat, 2),
        ),
        cfg.pattern@ == token(seq!['d', 'a', 'y']) ==> destination(cfg, path, d, ext_lower) == join(
            cfg.output@,
            padded(d.day as nat, 2),
        ),
        cfg.pattern@ == token(seq!['h', 'o', 'u', 'r']) ==> destination(cfg, path, d, ext_lower) == join(
            cfg.output@,
            padded(d.hour as nat, 2),
        ),
        cfg.pattern@ == token(seq!['m', 'i', 'n']) ==> destination(cfg, path, d, ext_lower) == join(
            cfg.output@,
            padded(d.minute as nat, 2),
        ),
        cfg.pattern@ == token(seq!['s', 'e', 'c']) ==> destination(cfg, path, d, ext_lower) == join(
            cfg.output@,
            padded(d.second as nat, 2),
        ),
{
    crate::naming::law_single_date_token(d, name_stem(path), name_ext(path), None, 0, name_prefix(cfg, ext_lower));
}

/// The destination under a `{stem}`, `{ext}` or `{prefix}` pattern is the output folder
/// joined with the file's stem (or `file`), its extension with the dot, or the photo or
/// video prefix that its kind calls for (when that text holds no `{`).
pub proof fn law_destination_of_text_token(cfg: FolderConfig, path: Seq<char>, d: LocalDateTime, ext_lower: Seq<char>)
    ensures
        cfg.pattern@ == token(seq!['s', 't', 'e', 'm']) && !name_stem(path).contains('{') ==> destination(
            cfg,
            path,
            d,
            ext_lower,
        ) == join(cfg.output@, name_stem(path)),
        cfg.pattern@ == token(seq!['e', 'x', 't']) && !name_ext(path).contains('{') ==> destination(
            cfg,
            path,
            d,
            ext_lower,
        ) == join(cfg.output@, name_ext(path)),
        cfg.pattern@ == token(seq!['p', 'r', 'e', 'f', 'i', 'x']) && !name_prefix(cfg, ext_lower).contains('{')
            ==> destination(cfg, path, d, ext_lower) == join(
            cfg.output@,
            if is_video_extension(ext_lower) { cfg.video_prefix@ } else { cfg.photo_prefix@ },
        ),
{
    crate::naming::law_single_text_token(d, name_stem(path), name_ext(path), None, 0, name_prefix(cfg, ext_lower));
}

/// The destination path of `path` captured at `date`.
pub fn destination_path(cfg: &FolderConfig, path: &str, date: &LocalDateTime, ext_lower: &str) -> (r: String)
    requires
        date.fields_in_range(),
    ensures
        r@ == destination(*cfg, path@, *date, ext_lower@),
{
    let stem = match path_file_stem(path) {
        Some(s) => s,
        None => vec!['f', 'i', 'l', 'e'],
    };
    let mut ext: Vec<char> = Vec::new();
    match path_extension(path) {
        Some(e) => {
            ext.push('.');
            crate::path::extend_chars(&mut ext, &e);
        },
        None => {},
    }
    assert(ext@ =~= name_ext(path@));
    let stem_s = string_from_chars(&stem, 0, stem.len());
    let ext_s = string_from_chars(&ext, 0, ext.len());
    assert(stem_s@ =~= name_stem(path@));
    assert(ext_s@ =~= name_ext(path@));
    let prefix = if is_video(ext_lower) {
        cfg.video_prefix.as_str()
    } else {
        cfg.photo_prefix.as_str()
    };
    let relative = apply_pattern(cfg.pattern.as_str(), date, stem_s.as_str(), ext_s.as_str(), None, 0, prefix);
    let out = chars_of(cfg.output.as_str());
    let rel = chars_of(relative.as_str());
    let full = join_chars(&out, &rel);
    let r = string_from_chars(&full, 0, full.len());
    assert(r@ =~= full@);
    r
}

/// The filesystem steps left for one file.
#[derive(Debug)]
pub struct FilePlan {
    /// Where the file goes.
    pub destination: String,
    /// A directory to create first (with its parents), if any.
    pub create_dir: Option<String>,
    /// The EXIF `DateTimeOriginal` text to write into the file before it moves, if any.
    pub exif_date: Option<String>,
    /// Move the file (false in a dry run, where nothing is changed).
    pub move_file: bool,
}

/// The directory that a destination lives in, as text.
pub open spec fn destination_dir(dest: Seq<char>) -> Option<Seq<char>> {
    match parent_components(dest) {
        Some(c) => Some(render(c)),
        None => None,
    }
}

/// The plan `r` for `path`, captured at `d`, is the one that the existence answers
/// `occupied` (for the destination and its renamed copies, as [`resolution`] reads
/// them) and `dir_exists` (for the directory of the resolved destination) call for.
pub open spec fn move_plan(
    r: Result<Option<FilePlan>, ProcessorError>,
    cfg: FolderConfig,
    path: Seq<char>,
    dry_run: bool,
    ext_lower: Seq<char>,
    d: LocalDateTime,
    from_filename: bool,
    occupied: Seq<bool>,
    dir_exists: bool,
) -> bool {
    let dest = destination(cfg, path, d, ext_lower);
    match resolution(dest, cfg.on_conflict, occupied) {
        Some(Some(p)) => r matches Ok(Some(plan)) && {
            &&& plan.destination@ == p
            &&& plan.move_file == !dry_run
            &&& (plan.exif_date is Some <==> (from_filename && !is_video_extension(ext_lower) && !dry_run))
            &&& (plan.exif_date matches Some(t) ==> t@ == exif_text(d))
            &&& (plan.create_dir is Some <==> (!dry_run && !dir_exists && destination_dir(p) is Some))
            &&& (plan.create_dir matches Some(dir) ==> destination_dir(p) == Some(dir@))
        },
        Some(None) => r matches Ok(None),
        None => r matches Err(ProcessorError::Naming(NamingError::ConflictUnresolvable(m))) && m@
            == unresolvable_message(dest),
    }
}

/// Plans the move of `path`, captured at `date` (taken from the file name when
/// `from_filename`), given the existence answers: `occupied` for the destination and
/// its renamed copies (see [`resolve_among`]) and `dir_exists` for the directory of the
/// resolved destination.
///
/// The destination comes from the folder's pattern; a conflict resolved to "skip"
/// gives `Ok(None)`. A date taken from the file name of a photo is to be written into
/// its EXIF before the move; a missing directory is to be created. In a dry run
/// nothing is created, written or moved.
pub fn plan_move(
    path: &str,
    cfg: &FolderConfig,
    dry_run: bool,
    ext_lower: &str,
    date: &LocalDateTime,
    from_filename: bool,
    occupied: &Vec<bool>,
    dir_exists: bool,
) -> (r: Result<Option<FilePlan>, ProcessorError>)
    requires
        date.fields_in_range(),
    ensures
        move_plan(r, *cfg, path@, dry_run, ext_lower@, *date, from_filename, occupied@, dir_exists),
{
    let dest = destination_path(cfg, path, date, ext_lower);
    let final_dest = match resolve_among(dest.as_str(), &cfg.on_conflict, occupied) {
        Ok(Some(p)) => p,
        Ok(None) => return Ok(None),
        Err(e) => return Err(ProcessorError::Naming(e)),
    };
    let create_dir = if dry_run || dir_exists {
        None
    } else {
        match path_parent(final_dest.as_str()) {
            Some(c) => {
                let dir = render_parts(&c);
                let dir_s = string_from_chars(&dir, 0, dir.len());
                assert(dir_s@ =~= dir@);
                Some(dir_s)
            },
            None => None,
        }
    };
    let exif_date = if from_filename && !is_video(ext_lower) && !dry_run {
        Some(format_exif_datetime(date))
    } else {
        None
    };
    Ok(Some(FilePlan { destination: final_dest, create_dir, exif_date, move_file: !dry_run }))
}

/// Whether the directory of `dest` exists (a destination without a directory counts
/// as having one). Asked of the filesystem, so nothing is stated of the answer.
fn destination_dir_exists(dest: &str) -> bool {
    match path_parent(dest) {
        Some(c) => {
            let dir = render_parts(&c);
            let dir_s = string_from_chars(&dir, 0, dir.len());
            path_exists(dir_s.as_str())
        },
        None => true,
    }
}

/// Plans the processing of `path` once its metadata reader has answered `primary`.
///
/// Without a metadata date the file name is tried; with neither the file is left in
/// place with `CaptureDataNotFound`. Otherwise the filesystem is asked whether the
/// destination and its renamed copies exist, and (outside a dry run) whether the
/// directory of the resolved destination exists, and the plan is [`plan_move`]'s for
/// those answers.
pub fn plan_file(
    path: &str,
    cfg: &FolderConfig,
    dry_run: bool,
    ext_lower: &str,
    primary: Result<CaptureTime, ExifError>,
) -> (r: Result<Option<FilePlan>, ProcessorError>)
    requires
        primary matches Ok(d) ==> d.local.fields_in_range(),
    ensures
        primary is Ok ==> !(r matches Err(ProcessorError::CaptureDataNotFound)),
        (primary is Err && !filename_date_possible(path@)) ==> r matches Err(ProcessorError::CaptureDataNotFound),
        (primary is Err && facebook_date_only(path@)) ==> !(r matches Err(ProcessorError::CaptureDataNotFound)),
        !(r matches Err(ProcessorError::CaptureDataNotFound)) ==> exists|
            d: CaptureTime,
            occupied: Seq<bool>,
            dir_exists: bool,
        | {
            &&& (primary matches Ok(p) ==> d == p)
            &&& (primary is Err ==> filename_date_candidate(path@, d))
            &&& d.local.fields_in_range()
            &&& answers_complete(occupied, cfg.on_conflict)
            &&& #[trigger] move_plan(r, *cfg, path@, dry_run, ext_lower@, d.local, primary is Err, occupied, dir_exists)
        },
{
    let from_filename = primary.is_err();
    let date = match read_with_fallback(primary, path) {
        Ok(d) => d,
        Err(_) => return Err(ProcessorError::CaptureDataNotFound),
    };
    let dest = destination_path(cfg, path, &date.local, ext_lower);
    let (resolved, answers) = resolve_conflict_with_answers(dest.as_str(), &cfg.on_conflict);
    let dir_exists = match &resolved {
        Ok(Some(p)) => if dry_run {
            true
        } else {
            destination_dir_exists(p.as_str())
        },
        _ => true,
    };
    let r = plan_move(path, cfg, dry_run, ext_lower, &date.local, from_filename, &answers, dir_exists);
    assert(move_plan(r, *cfg, path@, dry_run, ext_lower@, date.local, from_filename, answers@, dir_exists));
    r
}

} // verus!
