//! A persistent record of files that had no capture date, so that each scan does
//! not try them again until they change or the record expires.

use vstd::prelude::*;
use vstd::string::*;
use crate::path::{components, paths_equal, PathComponent};

verus! {

/// When a file was found without a capture date.
#[derive(Debug, Clone, Copy, PartialEq, Eq, Structural)]
pub struct CacheEntry {
    /// The file's modification time (Unix seconds) when it was recorded.
    pub mtime: u64,
    /// When the file was recorded (Unix seconds).
    pub cached_at: u64,
}

/// The recorded entries by path, with the settings that decide skipping.
pub struct CacheModel {
    pub enabled: bool,
    pub ttl_secs: u64,
    pub entries: Map<Seq<PathComponent>, CacheEntry>,
}

/// A record that has outlived the time-to-live at time `now` (a TTL of 0 never expires).
pub open spec fn expired(e: CacheEntry, ttl_secs: u64, now: u64) -> bool {
    ttl_secs > 0 && e.cached_at + ttl_secs < now
}

/// The expiry test `cached_at + ttl` would add past `u64::MAX`: an input that the
/// cache's operations require away (callers test for it first).
pub open spec fn expiry_overflows(e: CacheEntry, ttl_secs: u64) -> bool {
    ttl_secs > 0 && e.cached_at + ttl_secs > u64::MAX
}

/// A file recorded with modification time `mtime` is skipped at time `now`:
/// the cache is on, holds the file with that same mtime, and the record has not expired.
pub open spec fn skips(m: CacheModel, file: Seq<char>, mtime: u64, now: u64) -> bool {
    &&& m.enabled
    &&& m.entries.contains_key(components(file))
    &&& m.entries[components(file)].mtime == mtime
    &&& !expired(m.entries[components(file)], m.ttl_secs, now)
}

/// The skip test on `file` would overflow.
pub open spec fn skip_overflows(m: CacheModel, file: Seq<char>, mtime: u64) -> bool {
    &&& m.enabled
    &&& m.entries.contains_key(components(file))
    &&& m.entries[components(file)].mtime == mtime
    &&& expiry_overflows(m.entries[components(file)], m.ttl_secs)
}

/// Recording `file` (when the cache is on).
pub open spec fn model_insert(m: CacheModel, file: Seq<char>, mtime: u64, now: u64) -> CacheModel {
    if m.enabled {
        CacheModel {
            entries: m.entries.insert(components(file), CacheEntry { mtime, cached_at: now }),
            ..m
        }
    } else {
        m
    }
}

/// Forgetting `file`.
pub open spec fn model_remove(m: CacheModel, file: Seq<char>) -> CacheModel {
    CacheModel { entries: m.entries.remove(components(file)), ..m }
}

/// The entries that a stored list of records gives: one per path, a later record
/// for a path replacing an earlier one.
pub open spec fn loaded_entries(raw: Seq<(String, CacheEntry)>) -> Map<Seq<PathComponent>, CacheEntry>
    decreases raw.len(),
{
    if raw.len() == 0 {
        Map::empty()
    } else {
        loaded_entries(raw.drop_last()).insert(components(raw.last().0@), raw.last().1)
    }
}

/// The entries that the stored records `raw` leave after loading at time `now`: those
/// not of a file in `gone` (no longer on disk) and not expired.
pub open spec fn live_entries(
    raw: Seq<(String, CacheEntry)>,
    ttl_secs: u64,
    now: u64,
    gone: Set<Seq<PathComponent>>,
) -> Map<Seq<PathComponent>, CacheEntry> {
    loaded_entries(raw).restrict(
        Set::new(|p: Seq<PathComponent>| !gone.contains(p) && !expired(loaded_entries(raw)[p], ttl_secs, now)),
    )
}

/// Persistent cache of files that had no capture date.
///
/// Entries are keyed by path (as `PathBuf` compares paths) and are invalidated when
/// the file's modification time changes or when the configured TTL expires.
pub struct NoDateCache {
    path: String,
    enabled: bool,
    ttl_secs: u64,
    keys: Vec<String>,
    records: Vec<CacheEntry>,
    dirty: bool,
}

impl NoDateCache {
    /// The record for the path components `c`, if any.
    pub closed spec fn entry_index(self, c: Seq<PathComponent>) -> int {
        choose|i: int| 0 <= i < self.keys@.len() && components(self.keys@[i]@) == c
    }

    /// Whether some record has the path components `c`.
    pub closed spec fn has(self, c: Seq<PathComponent>) -> bool {
        exists|i: int| 0 <= i < self.keys@.len() && components(self.keys@[i]@) == c
    }

    /// The abstract cache.
    pub closed spec fn model(self) -> CacheModel {
        CacheModel {
            enabled: self.enabled,
            ttl_secs: self.ttl_secs,
            entries: Map::new(|c: Seq<PathComponent>| self.has(c), |c: Seq<PathComponent>| self.records@[self.entry_index(c)]),
        }
    }

    /// The cache has unsaved changes.
    pub closed spec fn is_dirty(self) -> bool {
        self.dirty
    }

    /// Where the cache is stored.
    pub closed spec fn store_path(self) -> Seq<char> {
        self.path@
    }

    /// The number of records.
    pub closed spec fn record_count(self) -> nat {
        self.keys@.len()
    }

    /// The path of record `i`.
    pub closed spec fn key_at(self, i: int) -> Seq<char> {
        self.keys@[i]@
    }

    /// Record `i`.
    pub closed spec fn entry_at(self, i: int) -> CacheEntry {
        self.records@[i]
    }

    /// Record `i` stays after pruning at time `now`: its file is `present` and it has
    /// not expired.
    pub open spec fn kept_at(self, present: Seq<bool>, now: u64, i: int) -> bool {
        present[i] && !expired(self.entry_at(i), self.model().ttl_secs, now)
    }

    /// The paths whose records stay after pruning.
    pub open spec fn kept_paths(self, present: Seq<bool>, now: u64) -> Set<Seq<PathComponent>> {
        Set::new(
            |c: Seq<PathComponent>|
                exists|i: int|
                    0 <= i < self.record_count() && components(#[trigger] self.key_at(i)) == c
                        && self.kept_at(present, now, i),
        )
    }

    /// The expiry test of pruning would overflow on some record of a present file.
    pub open spec fn prune_overflows(self, present: Seq<bool>) -> bool {
        exists|i: int|
            0 <= i < self.record_count() && present[i] && expiry_overflows(
                #[trigger] self.entry_at(i),
                self.model().ttl_secs,
            )
    }

    /// The records are consistent: one entry per key, no two keys naming the same
    /// path, none while the cache is off, and a TTL of whole days.
    pub closed spec fn wf(self) -> bool {
        &&& self.ttl_secs % 86400 == 0
        &&& self.ttl_secs <= u32::MAX as int * 86400
        &&& self.keys@.len() == self.records@.len()
        &&& forall|i: int, j: int|
            0 <= i < j < self.keys@.len() ==> components(#[trigger] self.keys@[i]@) != components(
                #[trigger] self.keys@[j]@,
            )
        &&& !self.enabled ==> self.keys@.len() == 0
    }
}

/// The current time as Unix seconds, or 0 when the clock is before the epoch.
///
/// Calls `SystemTime::now().duration_since(UNIX_EPOCH)` and takes `as_secs` of the
/// duration. The time depends on the clock, so nothing is stated of the result.
#[verifier::external_body]
fn secs_since_unix_epoch() -> Option<u64> {
    std::time::SystemTime::now().duration_since(std::time::UNIX_EPOCH).ok().map(|d| d.as_secs())
}

/// The current time as Unix seconds (0 before the epoch).
pub fn now_unix_secs() -> u64 {
    match secs_since_unix_epoch() {
        Some(s) => s,
        None => 0,
    }
}

impl NoDateCache {
    proof fn lemma_index(self, i: int)
        requires
            self.wf(),
            0 <= i < self.keys@.len(),
        ensures
            self.has(components(self.keys@[i]@)),
            self.entry_index(components(self.keys@[i]@)) == i,
            self.model().entries.contains_key(components(self.keys@[i]@)),
            self.model().entries[components(self.keys@[i]@)] == self.records@[i],
    {
        let c = components(self.keys@[i]@);
        assert(self.has(c));
        let k = self.entry_index(c);
        if k != i {
            if k < i {
                assert(components(self.keys@[k]@) != components(self.keys@[i]@));
            } else {
                assert(components(self.keys@[i]@) != components(self.keys@[k]@));
            }
        }
    }

    /// The model holds record `i` under its path.
    proof fn lemma_entry(self, i: int)
        requires
            self.wf(),
            0 <= i < self.record_count(),
        ensures
            self.model().entries.contains_key(components(self.key_at(i))),
            self.model().entries[components(self.key_at(i))] == self.entry_at(i),
    {
        self.lemma_index(i);
    }

    /// A path in the model is the path of some record.
    proof fn lemma_model_key(self, p: Seq<PathComponent>)
        requires
            self.model().entries.contains_key(p),
        ensures
            exists|i: int| 0 <= i < self.record_count() && components(#[trigger] self.key_at(i)) == p,
    {
        let i = choose|i: int| 0 <= i < self.keys@.len() && components(self.keys@[i]@) == p;
        assert(components(self.key_at(i)) == p);
    }

    /// An empty cache stored at `path`.
    pub fn new(path: String, enabled: bool, ttl_days: u32) -> (r: Self)
        ensures
            r.wf(),
            r.model().enabled == enabled,
            r.model().ttl_secs == ttl_days as int * 86400,
            r.model().entries == Map::<Seq<PathComponent>, CacheEntry>::empty(),
            !r.is_dirty(),
            r.store_path() == path@,
    {
        let r = NoDateCache {
            path,
            enabled,
            ttl_secs: ttl_days as u64 * 86400,
            keys: Vec::new(),
            records: Vec::new(),
            dirty: false,
        };
        assert(r.model().entries =~= Map::<Seq<PathComponent>, CacheEntry>::empty());
        r
    }

    /// The position of the record for `file`, if any.
    fn find(&self, file: &str) -> (r: Option<usize>)
        requires
            self.wf(),
        ensures
            r matches Some(i) ==> i < self.keys@.len() && components(self.keys@[i as int]@) == components(file@),
            r is None ==> !self.has(components(file@)),
    {
        let mut i: usize = 0;
        while i < self.keys.len()
            invariant
                i <= self.keys@.len(),
                forall|j: int| 0 <= j < i ==> components(#[trigger] self.keys@[j]@) != components(file@),
            decreases self.keys@.len() - i,
        {
            if paths_equal(self.keys[i].as_str(), file) {
                return Some(i);
            }
            i = i + 1;
        }
        None
    }

    /// Whether the skip test on `file` would add past `u64::MAX`.
    pub fn skip_would_overflow(&self, file: &str, mtime: u64) -> (r: bool)
        requires
            self.wf(),
        ensures
            r == skip_overflows(self.model(), file@, mtime),
    {
        if !self.enabled {
            return false;
        }
        match self.find(file) {
            None => false,
            Some(i) => {
                proof {
                    self.lemma_index(i as int);
                }
                let e = self.records[i];
                e.mtime == mtime && self.ttl_secs > 0 && e.cached_at > u64::MAX - self.ttl_secs
            },
        }
    }

    /// Whether `file`, whose modification time is now `mtime`, should be silently
    /// skipped at time `now`: it is recorded with that same mtime and the record has
    /// not expired.
    pub fn should_skip_at(&self, file: &str, mtime: u64, now: u64) -> (r: bool)
        requires
            self.wf(),
            !skip_overflows(self.model(), file@, mtime),
        ensures
            r == skips(self.model(), file@, mtime, now),
    {
        if !self.enabled {
            return false;
        }
        match self.find(file) {
            None => false,
            Some(i) => {
                proof {
                    self.lemma_index(i as int);
                }
                let e = self.records[i];
                if e.mtime != mtime {
                    return false;
                }
                if self.ttl_secs > 0 && e.cached_at + self.ttl_secs < now {
                    return false;
                }
                true
            },
        }
    }

    /// Whether `file`, whose modification time is now `mtime`, should be silently
    /// skipped at the current time: the decision of [`NoDateCache::should_skip_at`]
    /// at the time the clock gives, which only matters for records that can expire.
    pub fn should_skip(&self, file: &str, mtime: u64) -> (r: bool)
        requires
            self.wf(),
            !skip_overflows(self.model(), file@, mtime),
        ensures
            exists|now: u64| r == skips(self.model(), file@, mtime, now),
            self.model().ttl_secs == 0 ==> r == skips(self.model(), file@, mtime, 0),
    {
        let now = now_unix_secs();
        self.should_skip_at(file, mtime, now)
    }

    /// Sets the record for `file` to `entry`, replacing a record for the same path.
    fn put(&mut self, file: String, entry: CacheEntry)
        requires
            old(self).wf(),
            old(self).enabled,
        ensures
            final(self).wf(),
            final(self).model() == (CacheModel {
                entries: old(self).model().entries.insert(components(file@), entry),
                ..old(self).model()
            }),
            final(self).is_dirty(),
            final(self).store_path() == old(self).store_path(),
    {
        let ghost old_self = *self;
        let ghost c = components(file@);
        match self.find(file.as_str()) {
            Some(i) => {
                proof {
                    old_self.lemma_index(i as int);
                }
                self.records.set(i, entry);
                self.dirty = true;
                proof {
                    assert forall|j: int| 0 <= j < self.keys@.len() implies #[trigger] self.records@[j] == (if j == i { entry } else { old_self.records@[j] }) by {}
                    assert forall|d: Seq<PathComponent>| #![trigger self.has(d)] self.has(d) == old_self.has(d) by {}
                    assert forall|d: Seq<PathComponent>| self.has(d) implies self.records@[self.entry_index(d)] == (if d == c { entry } else { old_self.records@[old_self.entry_index(d)] }) by {
                        let k = choose|k: int| 0 <= k < self.keys@.len() && components(self.keys@[k]@) == d;
                        self.lemma_index(k);
                        old_self.lemma_index(k);
                    }
                    assert(self.model().entries =~= old_self.model().entries.insert(c, entry));
                }
            },
            None => {
                self.keys.push(file);
                self.records.push(entry);
                self.dirty = true;
                proof {
                    let n = old_self.keys@.len();
                    assert forall|a: int, b: int| 0 <= a < b < self.keys@.len() implies components(#[trigger] self.keys@[a]@) != components(#[trigger] self.keys@[b]@) by {
                        if b == n {
                            assert(self.keys@[a] == old_self.keys@[a]);
                        } else {
                            assert(self.keys@[a] == old_self.keys@[a]);
                            assert(self.keys@[b] == old_self.keys@[b]);
                        }
                    }
                    assert forall|d: Seq<PathComponent>| self.has(d) implies self.records@[self.entry_index(d)] == (if d == c { entry } else { old_self.records@[old_self.entry_index(d)] }) by {
                        let k = choose|k: int| 0 <= k < self.keys@.len() && components(self.keys@[k]@) == d;
                        self.lemma_index(k);
                        if k < n {
                            assert(self.keys@[k] == old_self.keys@[k]);
                            old_self.lemma_index(k);
                        }
                    }
                    assert forall|d: Seq<PathComponent>| #![trigger self.has(d)] self.has(d) == (old_self.has(d) || d == c) by {
                        if d == c {
                            assert(components(self.keys@[n as int]@) == c);
                        }
                        if old_self.has(d) {
                            let k = choose|k: int| 0 <= k < old_self.keys@.len() && components(old_self.keys@[k]@) == d;
                            assert(self.keys@[k] == old_self.keys@[k]);
                        }
                        if self.has(d) {
                            let k = choose|k: int| 0 <= k < self.keys@.len() && components(self.keys@[k]@) == d;
                            if k < n {
                                assert(self.keys@[k] == old_self.keys@[k]);
                            }
                        }
                    }
                    assert(self.model().entries =~= old_self.model().entries.insert(c, entry));
                }
            },
        }
    }

    /// Records `file` as having no capture date at time `now`, with modification time
    /// `mtime`. Does nothing when the cache is off; otherwise marks the cache dirty.
    pub fn insert_at(&mut self, file: String, mtime: u64, now: u64)
        requires
            old(self).wf(),
        ensures
            final(self).wf(),
            final(self).model() == model_insert(old(self).model(), file@, mtime, now),
            final(self).is_dirty() == (old(self).is_dirty() || old(self).model().enabled),
            final(self).store_path() == old(self).store_path(),
    {
        if !self.enabled {
            return;
        }
        self.put(file, CacheEntry { mtime, cached_at: now });
    }

    /// Records `file` as having no capture date now.
    pub fn insert(&mut self, file: String, mtime_secs: u64)
        requires
            old(self).wf(),
        ensures
            final(self).wf(),
            exists|now: u64| final(self).model() == model_insert(old(self).model(), file@, mtime_secs, now),
            final(self).is_dirty() == (old(self).is_dirty() || old(self).model().enabled),
            final(self).store_path() == old(self).store_path(),
    {
        let now = now_unix_secs();
        self.insert_at(file, mtime_secs, now);
    }

    /// Forgets `file` (e.g. it was processed after being modified). Marks the cache
    /// dirty when a record was removed.
    pub fn remove(&mut self, file: &str)
        requires
            old(self).wf(),
        ensures
            final(self).wf(),
            final(self).model() == model_remove(old(self).model(), file@),
            final(self).is_dirty() == (old(self).is_dirty() || old(self).model().entries.contains_key(
                components(file@),
            )),
            final(self).store_path() == old(self).store_path(),
    {
        let ghost old_self = *self;
        let ghost c = components(file@);
        match self.find(file) {
            None => {
                assert(self.model().entries =~= old_self.model().entries.remove(c));
            },
            Some(i) => {
                proof {
                    old_self.lemma_index(i as int);
                }
                self.keys.remove(i);
                self.records.remove(i);
                self.dirty = true;
                proof {
                    let n = old_self.keys@.len();
                    assert forall|j: int| 0 <= j < self.keys@.len() implies #[trigger] self.keys@[j] == old_self.keys@[if j < i { j } else { j + 1 }] && self.records@[j] == old_self.records@[if j < i { j } else { j + 1 }] by {}
                    assert forall|a: int, b: int| 0 <= a < b < self.keys@.len() implies components(#[trigger] self.keys@[a]@) != components(#[trigger] self.keys@[b]@) by {
                        let a2 = if a < i { a } else { a + 1 };
                        let b2 = if b < i { b } else { b + 1 };
                        assert(self.keys@[a] == old_self.keys@[a2]);
                        assert(self.keys@[b] == old_self.keys@[b2]);
                    }
                    assert forall|d: Seq<PathComponent>| #![trigger self.has(d)] self.has(d) == (old_self.has(d) && d != c) by {
                        if self.has(d) {
                            let k = choose|k: int| 0 <= k < self.keys@.len() && components(self.keys@[k]@) == d;
                            let k2 = if k < i { k } else { k + 1 };
                            assert(self.keys@[k] == old_self.keys@[k2]);
                            if d == c {
                                if k2 < i {
                                    assert(components(old_self.keys@[k2]@) != components(old_self.keys@[i as int]@));
                                } else {
                                    assert(components(old_self.keys@[i as int]@) != components(old_self.keys@[k2]@));
                                }
                            }
                        }
                        if old_self.has(d) && d != c {
                            let k = choose|k: int| 0 <= k < old_self.keys@.len() && components(old_self.keys@[k]@) == d;
                            assert(k != i);
                            let k1 = if k < i { k } else { k - 1 };
                            assert(self.keys@[k1] == old_self.keys@[k]);
                        }
                    }
                    assert forall|d: Seq<PathComponent>| self.has(d) implies self.records@[self.entry_index(d)] == old_self.records@[old_self.entry_index(d)] by {
                        let k = choose|k: int| 0 <= k < self.keys@.len() && components(self.keys@[k]@) == d;
                        let k2 = if k < i { k } else { k + 1 };
                        self.lemma_index(k);
                        assert(self.keys@[k] == old_self.keys@[k2]);
                        old_self.lemma_index(k2);
                    }
                    assert(self.model().entries =~= old_self.model().entries.remove(c));
                }
            },
        }
    }

    /// A cache holding the stored `raw` records (when the cache is on; an empty one
    /// when it is off), one per path, a later record for a path replacing an
    /// earlier one. Nothing is pruned and nothing is marked dirty.
    pub fn from_records(path: String, enabled: bool, ttl_days: u32, raw: &Vec<(String, CacheEntry)>) -> (r: Self)
        ensures
            r.wf(),
            r.model().enabled == enabled,
            r.model().ttl_secs == ttl_days as int * 86400,
            r.model().entries == (if enabled {
                loaded_entries(raw@)
            } else {
                Map::<Seq<PathComponent>, CacheEntry>::empty()
            }),
            !r.is_dirty(),
            r.store_path() == path@,
    {
        let mut c = NoDateCache::new(path, enabled, ttl_days);
        if !enabled {
            return c;
        }
        let ghost p = c.store_path();
        let mut i: usize = 0;
        while i < raw.len()
            invariant
                i <= raw@.len(),
                c.wf(),
                c.enabled,
                c.model().enabled == enabled,
                c.model().ttl_secs == ttl_days as int * 86400,
                c.model().entries == loaded_entries(raw@.take(i as int)),
                c.store_path() == p,
            decreases raw@.len() - i,
        {
            let k = raw[i].0.clone();
            let e = raw[i].1;
            proof {
                assert(raw@.take(i as int + 1).drop_last() =~= raw@.take(i as int));
                assert(raw@.take(i as int + 1).last() == raw@[i as int]);
            }
            c.put(k, e);
            i = i + 1;
        }
        assert(raw@.take(raw@.len() as int) =~= raw@);
        c.mark_saved();
        c
    }

    /// Whether pruning with `present` would add past `u64::MAX` in the expiry test.
    pub fn prune_would_overflow(&self, present: &Vec<bool>) -> (r: bool)
        requires
            self.wf(),
            present@.len() == self.record_count(),
        ensures
            r == self.prune_overflows(present@),
    {
        let mut i: usize = 0;
        while i < self.records.len()
            invariant
                self.wf(),
                present@.len() == self.keys@.len(),
                i <= self.records@.len(),
                forall|j: int|
                    0 <= j < i ==> !(present@[j] && expiry_overflows(#[trigger] self.entry_at(j), self.ttl_secs)),
            decreases self.records@.len() - i,
        {
            let e = self.records[i];
            assert(self.entry_at(i as int) == e);
            if present[i] && self.ttl_secs > 0 && e.cached_at > u64::MAX - self.ttl_secs {
                return true;
            }
            i = i + 1;
        }
        false
    }

    /// Drops the records of files that are not `present` (one flag per record, in
    /// record order) and those that have expired at time `now`. Does not mark the
    /// cache dirty: as on startup, the stored copy is rewritten with the next change.
    pub fn prune(&mut self, present: &Vec<bool>, now: u64)
        requires
            old(self).wf(),
            present@.len() == old(self).record_count(),
            !old(self).prune_overflows(present@),
        ensures
            final(self).wf(),
            final(self).model() == (CacheModel {
                entries: old(self).model().entries.restrict(old(self).kept_paths(present@, now)),
                ..old(self).model()
            }),
            final(self).is_dirty() == old(self).is_dirty(),
            final(self).store_path() == old(self).store_path(),
    {
        let ghost old_self = *self;
        let mut nk: Vec<String> = Vec::new();
        let mut nr: Vec<CacheEntry> = Vec::new();
        let ghost mut idx: Seq<int> = Seq::empty();
        let mut i: usize = 0;
        while i < self.keys.len()
            invariant
                *self == old_self,
                old_self.wf(),
                present@.len() == old_self.keys@.len(),
                !old_self.prune_overflows(present@),
                i <= old_self.keys@.len(),
                nk@.len() == idx.len(),
                nr@.len() == idx.len(),
                forall|j: int| 0 <= j < idx.len() ==> 0 <= #[trigger] idx[j] < i,
                forall|a: int, b: int| 0 <= a < b < idx.len() ==> #[trigger] idx[a] < #[trigger] idx[b],
                forall|j: int|
                    0 <= j < idx.len() ==> #[trigger] nk@[j] == old_self.keys@[idx[j]] && nr@[j]
                        == old_self.records@[idx[j]],
                forall|k: int|
                    0 <= k < i ==> (old_self.kept_at(present@, now, k) <==> exists|j: int|
                        0 <= j < idx.len() && #[trigger] idx[j] == k),
            decreases old_self.keys@.len() - i,
        {
            let e = self.records[i];
            assert(old_self.entry_at(i as int) == e);
            let keep = present[i] && !(self.ttl_secs > 0 && e.cached_at + self.ttl_secs < now);
            let ghost old_idx = idx;
            if keep {
                nk.push(self.keys[i].clone());
                nr.push(e);
                proof {
                    idx = idx.push(i as int);
                    assert(idx[idx.len() - 1] == i as int);
                    assert forall|k: int| 0 <= k < i implies (old_self.kept_at(present@, now, k) <==> exists|j: int|
                        0 <= j < idx.len() && #[trigger] idx[j] == k) by {
                        if old_self.kept_at(present@, now, k) {
                            let j = choose|j: int| 0 <= j < old_idx.len() && #[trigger] old_idx[j] == k;
                            assert(idx[j] == k);
                        }
                        if exists|j: int| 0 <= j < idx.len() && #[trigger] idx[j] == k {
                            let j = choose|j: int| 0 <= j < idx.len() && #[trigger] idx[j] == k;
                            assert(j < old_idx.len());
                            assert(old_idx[j] == k);
                        }
                    }
                }
            }
            i = i + 1;
        }
        self.keys = nk;
        self.records = nr;
        proof {
            if idx.len() > 0 {
                assert(0 <= idx[0] < old_self.keys@.len());
            }
            assert forall|a: int, b: int| 0 <= a < b < self.keys@.len() implies components(#[trigger] self.keys@[a]@) != components(#[trigger] self.keys@[b]@) by {
                assert(self.keys@[a] == old_self.keys@[idx[a]]);
                assert(self.keys@[b] == old_self.keys@[idx[b]]);
                assert(idx[a] < idx[b]);
            }
            let kept = old_self.kept_paths(present@, now);
            assert forall|d: Seq<PathComponent>| #![trigger self.has(d)] self.has(d) == (old_self.has(d) && kept.contains(d)) by {
                if self.has(d) {
                    let j = choose|j: int| 0 <= j < self.keys@.len() && components(self.keys@[j]@) == d;
                    let k = idx[j];
                    assert(self.keys@[j] == old_self.keys@[k]);
                    assert(old_self.kept_at(present@, now, k));
                    assert(components(old_self.key_at(k)) == d);
                }
                if old_self.has(d) && kept.contains(d) {
                    let k = choose|k: int|
                        0 <= k < old_self.record_count() && components(#[trigger] old_self.key_at(k)) == d
                            && old_self.kept_at(present@, now, k);
                    let j = choose|j: int| 0 <= j < idx.len() && #[trigger] idx[j] == k;
                    assert(self.keys@[j] == old_self.keys@[k]);
                }
            }
            assert forall|d: Seq<PathComponent>| self.has(d) implies self.records@[self.entry_index(d)] == old_self.records@[old_self.entry_index(d)] by {
                let j = choose|j: int| 0 <= j < self.keys@.len() && components(self.keys@[j]@) == d;
                self.lemma_index(j);
                assert(self.keys@[j] == old_self.keys@[idx[j]]);
                old_self.lemma_index(idx[j]);
            }
            assert(self.model().entries =~= old_self.model().entries.restrict(kept));
        }
    }

    /// The cache as it starts from the stored `raw` records: one record per path (a
    /// later record for a path replacing an earlier one), then, for each record, asks
    /// the filesystem whether its file still exists and drops those that do not and
    /// those that have expired now. When the cache is off it starts empty.
    ///
    /// Which files exist and the current time are not known here: the entries are the
    /// stored ones ([`loaded_entries`]) without those expired at the load time and those
    /// of some set of files no longer on disk ([`live_entries`]). `None` comes only where
    /// the expiry test of some stored record would add past `u64::MAX`.
    pub fn load_records(path: String, enabled: bool, ttl_days: u32, raw: &Vec<(String, CacheEntry)>) -> (r: Option<Self>)
        ensures
            r matches Some(c) ==> {
                &&& c.wf()
                &&& c.model().enabled == enabled
                &&& c.model().ttl_secs == ttl_days as int * 86400
                &&& c.model().entries.submap_of(loaded_entries(raw@))
                &&& (!enabled ==> c.model().entries == Map::<Seq<PathComponent>, CacheEntry>::empty())
                &&& (enabled ==> exists|now: u64, gone: Set<Seq<PathComponent>>|
                    c.model().entries == #[trigger] live_entries(raw@, c.model().ttl_secs, now, gone))
                &&& !c.is_dirty()
                &&& c.store_path() == path@
            },
            r is None ==> enabled && exists|k: Seq<PathComponent>|
                loaded_entries(raw@).contains_key(k) && expiry_overflows(
                    #[trigger] loaded_entries(raw@)[k],
                    (ttl_days as int * 86400) as u64,
                ),
    {
        let mut c = NoDateCache::from_records(path, enabled, ttl_days, raw);
        let mut present: Vec<bool> = Vec::new();
        let mut i: usize = 0;
        while i < c.len()
            invariant
                c.wf(),
                i <= c.record_count(),
                present@.len() == i,
            decreases c.record_count() - i,
        {
            let (key, _) = c.record_at(i);
            present.push(crate::path::path_exists(key));
            i = i + 1;
        }
        if c.prune_would_overflow(&present) {
            proof {
                let j = choose|j: int|
                    0 <= j < c.record_count() && present@[j] && expiry_overflows(
                        #[trigger] c.entry_at(j),
                        c.model().ttl_secs,
                    );
                c.lemma_index(j);
                assert(loaded_entries(raw@).contains_key(components(c.keys@[j]@)));
            }
            return None;
        }
        let now = now_unix_secs();
        let ghost c0 = c;
        c.prune(&present, now);
        proof {
            if enabled {
                let loaded = loaded_entries(raw@);
                let gone = Set::new(
                    |p: Seq<PathComponent>|
                        exists|i: int| 0 <= i < c0.record_count() && components(#[trigger] c0.key_at(i)) == p && !present@[i],
                );
                let kept = c0.kept_paths(present@, now);
                assert forall|p: Seq<PathComponent>| #[trigger] loaded.contains_key(p) implies (kept.contains(p) <==> (
                !gone.contains(p) && !expired(loaded[p], c0.ttl_secs, now))) by {
                    c0.lemma_model_key(p);
                    let i = choose|i: int| 0 <= i < c0.record_count() && components(#[trigger] c0.key_at(i)) == p;
                    c0.lemma_entry(i);
                    if kept.contains(p) {
                        let k = choose|k: int|
                            0 <= k < c0.record_count() && components(#[trigger] c0.key_at(k)) == p && c0.kept_at(present@, now, k);
                        c0.lemma_same_key(i, k);
                        if gone.contains(p) {
                            let g = choose|g: int| 0 <= g < c0.record_count() && components(#[trigger] c0.key_at(g)) == p && !present@[g];
                            c0.lemma_same_key(i, g);
                        }
                    } else {
                        if !gone.contains(p) && !expired(loaded[p], c0.ttl_secs, now) {
                            assert(present@[i]);
                            assert(c0.kept_at(present@, now, i));
                        }
                    }
                }
                assert(c.model().entries =~= live_entries(raw@, c.model().ttl_secs, now, gone));
            }
        }
        Some(c)
    }

    /// Two records with the same path are the same record.
    proof fn lemma_same_key(self, i: int, k: int)
        requires
            self.wf(),
            0 <= i < self.record_count(),
            0 <= k < self.record_count(),
            components(self.key_at(i)) == components(self.key_at(k)),
        ensures
            i == k,
    {
        if i < k {
            assert(components(self.keys@[i]@) != components(self.keys@[k]@));
        } else if k < i {
            assert(components(self.keys@[k]@) != components(self.keys@[i]@));
        }
    }

    /// The records in order, as `(path, entry)`, for writing the cache out.
    pub fn records(&self) -> (r: Vec<(String, CacheEntry)>)
        requires
            self.wf(),
        ensures
            r@.len() == self.record_count(),
            forall|i: int| 0 <= i < r@.len() ==> (#[trigger] r@[i]).0@ == self.key_at(i) && r@[i].1 == self.entry_at(i),
    {
        let mut out: Vec<(String, CacheEntry)> = Vec::new();
        let mut i: usize = 0;
        while i < self.keys.len()
            invariant
                i <= self.keys@.len(),
                self.keys@.len() == self.records@.len(),
                out@.len() == i,
                forall|j: int| 0 <= j < i ==> (#[trigger] out@[j]).0@ == self.key_at(j) && out@[j].1 == self.entry_at(j),
            decreases self.keys@.len() - i,
        {
            out.push((self.keys[i].clone(), self.records[i]));
            i = i + 1;
        }
        out
    }

    /// Whether the cache should be written out: it is on and has changed since it
    /// was last saved.
    pub fn needs_save(&self) -> (r: bool)
        ensures
            r == (self.is_dirty() && self.model().enabled),
    {
        self.dirty && self.enabled
    }

    /// Notes that the cache was written out.
    pub fn mark_saved(&mut self)
        requires
            old(self).wf(),
        ensures
            final(self).wf(),
            final(self).model() == old(self).model(),
            !final(self).is_dirty(),
            final(self).store_path() == old(self).store_path(),
    {
        let ghost old_self = *self;
        self.dirty = false;
        assert(self.keys@ == old_self.keys@);
        assert(self.records@ == old_self.records@);
        assert forall|d: Seq<PathComponent>| #![trigger self.has(d)] self.has(d) == old_self.has(d) by {}
        assert(self.model().entries =~= old_self.model().entries);
    }

    /// Where the cache is stored.
    pub fn path(&self) -> (r: &str)
        ensures
            r@ == self.store_path(),
    {
        self.path.as_str()
    }

    /// The number of records.
    pub fn len(&self) -> (r: usize)
        ensures
            r == self.record_count(),
    {
        self.keys.len()
    }

    /// The path and record at position `i`, for writing the cache out.
    pub fn record_at(&self, i: usize) -> (r: (&str, CacheEntry))
        requires
            self.wf(),
            i < self.record_count(),
        ensures
            r.0@ == self.key_at(i as int),
            r.1 == self.entry_at(i as int),
            self.model().entries.contains_key(components(r.0@)),
            self.model().entries[components(r.0@)] == r.1,
    {
        proof {
            self.lemma_index(i as int);
        }
        (self.keys[i].as_str(), self.records[i])
    }
}


/// A file whose record has outlived the time-to-live is tried again.
pub proof fn law_expired_file_is_not_skipped(m: CacheModel, file: Seq<char>, mtime: u64, at: u64, now: u64)
    requires
        m.ttl_secs > 0,
        at + m.ttl_secs < now,
    ensures
        !skips(model_insert(m, file, mtime, at), file, mtime, now),
{
}

/// A forgotten file is never skipped.
pub proof fn law_removed_file_is_not_skipped(m: CacheModel, file: Seq<char>, mtime: u64, now: u64)
    ensures
        !skips(model_remove(m, file), file, mtime, now),
{
}

/// With the cache off, recording changes nothing and nothing is ever skipped.
pub proof fn law_disabled_cache_never_skips(m: CacheModel, file: Seq<char>, mtime: u64, at: u64, now: u64)
    requires
        !m.enabled,
    ensures
        model_insert(m, file, mtime, at) == m,
        !skips(m, file, mtime, now),
{
}

/// Recording or forgetting one file does not change whether another path is skipped;
/// two spellings of one path (`a/./b`, `a//b/`) are the same file.
pub proof fn law_other_files_unaffected(m: CacheModel, file: Seq<char>, other: Seq<char>, mtime: u64, at: u64, other_mtime: u64, now: u64)
    requires
        components(file) != components(other),
    ensures
        skips(model_insert(m, file, mtime, at), other, other_mtime, now) == skips(m, other, other_mtime, now),
        skips(model_remove(m, file), other, other_mtime, now) == skips(m, other, other_mtime, now),
{
}

/// After pruning at `now`, every record left is of a present file and has not expired.
pub proof fn law_pruned_records_are_live(c: NoDateCache, present: Seq<bool>, now: u64, k: Seq<PathComponent>)
    requires
        c.wf(),
        present.len() == c.record_count(),
        c.model().entries.restrict(c.kept_paths(present, now)).contains_key(k),
    ensures
        !expired(c.model().entries[k], c.model().ttl_secs, now),
        exists|i: int| 0 <= i < c.record_count() && components(#[trigger] c.key_at(i)) == k && present[i],
{
    let i = choose|i: int|
        0 <= i < c.record_count() && components(#[trigger] c.key_at(i)) == k && c.kept_at(present, now, i);
    c.lemma_entry(i);
}

/// The entries of the first `k` records of `c`, keyed by path.
pub open spec fn records_prefix_entries(c: NoDateCache, k: int) -> Map<Seq<PathComponent>, CacheEntry> {
    Map::new(
        |p: Seq<PathComponent>| exists|i: int| 0 <= i < k && components(#[trigger] c.key_at(i)) == p,
        |p: Seq<PathComponent>| c.model().entries[p],
    )
}

proof fn lemma_load_prefix(c: NoDateCache, raw: Seq<(String, CacheEntry)>, k: int)
    requires
        c.wf(),
        raw.len() == c.record_count(),
        forall|i: int| 0 <= i < raw.len() ==> (#[trigger] raw[i]).0@ == c.key_at(i) && raw[i].1 == c.entry_at(i),
        0 <= k <= raw.len(),
    ensures
        loaded_entries(raw.take(k)) == records_prefix_entries(c, k),
    decreases k,
{
    if k == 0 {
        assert(loaded_entries(raw.take(0)) =~= records_prefix_entries(c, 0));
    } else {
        lemma_load_prefix(c, raw, k - 1);
        assert(raw.take(k).drop_last() =~= raw.take(k - 1));
        let last = raw.take(k).last();
        assert(last == raw[k - 1]);
        c.lemma_entry(k - 1);
        assert forall|p: Seq<PathComponent>| #[trigger] records_prefix_entries(c, k).contains_key(p) implies c.model().entries.contains_key(p) by {
            let i = choose|i: int| 0 <= i < k && components(#[trigger] c.key_at(i)) == p;
            c.lemma_entry(i);
        }
        assert(loaded_entries(raw.take(k)) =~= records_prefix_entries(c, k));
    }
}

/// Writing the cache out and reading it back gives the same entries: the records that
/// [`NoDateCache::records`] hands out, loaded as stored records (see
/// [`NoDateCache::from_records`]), are the cache's entries.
pub proof fn law_saved_records_load_back(c: NoDateCache, raw: Seq<(String, CacheEntry)>)
    requires
        c.wf(),
        raw.len() == c.record_count(),
        forall|i: int| 0 <= i < raw.len() ==> (#[trigger] raw[i]).0@ == c.key_at(i) && raw[i].1 == c.entry_at(i),
    ensures
        loaded_entries(raw) == c.model().entries,
{
    lemma_load_prefix(c, raw, raw.len() as int);
    assert(raw.take(raw.len() as int) =~= raw);
    assert forall|p: Seq<PathComponent>| #[trigger] c.model().entries.contains_key(p) implies records_prefix_entries(c, raw.len() as int).contains_key(p) by {
        c.lemma_model_key(p);
    }
    assert(loaded_entries(raw) =~= c.model().entries);
}

/// A file recorded without a capture date at time `at` is skipped at time `now` with the
/// same modification time while its record has not expired, and with any other
/// modification time it is tried again.
pub proof fn law_insert_then_should_skip(m: CacheModel, file: Seq<char>, mtime: u64, at: u64, now: u64)
    requires
        m.enabled,
        m.ttl_secs == 0 || now <= at + m.ttl_secs,
    ensures
        skips(model_insert(m, file, mtime, at), file, mtime, now),
        forall|other: u64| other != mtime ==> !#[trigger] skips(model_insert(m, file, mtime, at), file, other, now),
{
}


} // verus!
