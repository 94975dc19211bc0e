//! The decisions of a folder scan: which files are looked at and what the outcome of
//! processing a file does to the no-date cache.

use vstd::prelude::*;
use crate::error::ProcessorError;
use crate::no_date_cache::{model_insert, model_remove, NoDateCache};
use crate::path::{chars_equal, component_text, components, parts_view, path_components, PathPart};
use crate::text::chars_of;

verus! {

/// Some component of `path`, as text, is one of the excluded directory names.
pub open spec fn excluded(path: Seq<char>, excluded_dirs: Seq<String>) -> bool {
    exists|i: int, j: int|
        0 <= i < components(path).len() && 0 <= j < excluded_dirs.len() && component_text(
            #[trigger] components(path)[i],
        ) == #[trigger] excluded_dirs[j]@
}

fn part_chars(c: &PathPart) -> (r: Vec<char>)
    ensures
        r@ == component_text(c@),
{
    match c {
        PathPart::RootDir => vec!['/'],
        PathPart::CurDir => vec!['.'],
        PathPart::ParentDir => vec!['.', '.'],
        PathPart::Normal(s) => {
            let mut v: Vec<char> = Vec::new();
            crate::path::extend_chars(&mut v, s);
            assert(v@ =~= s@);
            v
        },
    }
}

/// Whether `path` lies inside one of the excluded directories (such as Synology's
/// `@eaDir`): some component of the path equals one of the names.
pub fn is_excluded(path: &str, excluded_dirs: &Vec<String>) -> (r: bool)
    ensures
        r == excluded(path@, excluded_dirs@),
{
    let comps = path_components(path);
    let mut i: usize = 0;
    while i < comps.len()
        invariant
            i <= comps@.len(),
            parts_view(comps@) == components(path@),
            forall|a: int, b: int|
                0 <= a < i && 0 <= b < excluded_dirs@.len() ==> component_text(
                    #[trigger] components(path@)[a],
                ) != #[trigger] excluded_dirs@[b]@,
        decreases comps@.len() - i,
    {
        let t = part_chars(&comps[i]);
        assert(parts_view(comps@)[i as int] == comps@[i as int]@);
        assert(comps@.len() == components(path@).len());
        let mut j: usize = 0;
        while j < excluded_dirs.len()
            invariant
                i < comps@.len(),
                comps@.len() == components(path@).len(),
                j <= excluded_dirs@.len(),
                t@ == component_text(components(path@)[i as int]),
                forall|b: int| 0 <= b < j ==> t@ != #[trigger] excluded_dirs@[b]@,
            decreases excluded_dirs@.len() - j,
        {
            let e = chars_of(excluded_dirs[j].as_str());
            if chars_equal(&t, &e) {
                assert(component_text(components(path@)[i as int]) == excluded_dirs@[j as int]@);
                return true;
            }
            j = j + 1;
        }
        i = i + 1;
    }
    false
}

/// Updates the no-date cache with the outcome of processing `path` (modification time
/// `mtime`) and says whether the file counts as processed: a processed file is
/// forgotten by the cache, a file without a capture date is recorded, and other
/// outcomes leave the cache as it was.
pub fn record_outcome(
    cache: &mut NoDateCache,
    path: String,
    mtime: u64,
    outcome: &Result<(), ProcessorError>,
) -> (counted: bool)
    requires
        old(cache).wf(),
    ensures
        final(cache).wf(),
        counted == (outcome is Ok),
        match outcome {
            Ok(()) => final(cache).model() == model_remove(old(cache).model(), path@),
            Err(ProcessorError::CaptureDataNotFound) => exists|now: u64|
                final(cache).model() == model_insert(old(cache).model(), path@, mtime, now),
            Err(_) => final(cache).model() == old(cache).model(),
        },
{
    match outcome {
        Ok(()) => {
            cache.remove(path.as_str());
            true
        },
        Err(ProcessorError::CaptureDataNotFound) => {
            cache.insert(path, mtime);
            false
        },
        Err(_) => false,
    }
}

/// What the polling loop does next.
#[derive(Debug, Clone, Copy, PartialEq, Eq, Structural)]
pub enum LoopAction {
    /// Scan every input folder, then start waiting for the next interval.
    ScanFolders,
    /// Sleep one second and look again.
    Sleep,
    /// Leave the loop.
    Stop,
}

/// The polling loop's decision: a raised shutdown flag stops it (checked before every
/// scan and after every second of waiting); otherwise it scans at the start
/// (`waiting` false) and whenever the interval since the last scan has elapsed, and
/// sleeps in between.
pub fn loop_action(waiting: bool, shutdown: bool, interval_elapsed: bool) -> (r: LoopAction)
    ensures
        r == (if shutdown {
            LoopAction::Stop
        } else if !waiting || interval_elapsed {
            LoopAction::ScanFolders
        } else {
            LoopAction::Sleep
        }),
{
    if shutdown {
        LoopAction::Stop
    } else if !waiting || interval_elapsed {
        LoopAction::ScanFolders
    } else {
        LoopAction::Sleep
    }
}

} // verus!
