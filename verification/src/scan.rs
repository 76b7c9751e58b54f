//! Building the directory tree from a file system walk. The walk itself
//! (which visits every entry after everything below it) belongs to the
//! caller; this module decides, entry by entry, how the tree grows and which
//! progress events the user interface receives.

use vstd::prelude::*;
use crate::disk::{PATH_ID_SEED, hash_path_id, xxhash64};
use crate::error::{AppError, is_logical_error, logical_error};
use crate::model::{Dir, DirMeta, File, FileMeta, FsTime};
use crate::text::{decimal_text, u64_text};
use vstd::utf8::encode_utf8;

verus! {

/// Files counted between two file batch events at most.
pub const LIVE_FILE_BATCH_SIZE: u64 = 500;

/// Entries between two progress events.
pub const PROGRESS_INTERVAL: u64 = 10000;

/// Whether the user interface follows the scan as it goes.
#[derive(Clone, Copy, Debug, PartialEq, Eq, Structural)]
pub enum ScanEventMode {
    Silent,
    Live,
}

/// A directory finished during a live scan.
#[derive(Debug, PartialEq, Eq)]
pub struct LiveScanEntryEvent {
    pub entry_type: String,
    pub path: String,
    pub parent_path: Option<String>,
    pub name: String,
    pub id: String,
    pub size: u64,
    pub num_files: u64,
    pub num_subdir: u64,
    pub created: FsTime,
    pub modified: FsTime,
}

/// Files found in one directory since the last batch.
#[derive(Debug, PartialEq, Eq)]
pub struct LiveScanFileBatchUpdate {
    pub parent_path: String,
    pub size: u64,
    pub file_count: u64,
}

/// Files found since the last batch, by directory.
#[derive(Debug, PartialEq, Eq)]
pub struct LiveScanFileBatchEvent {
    pub updates: Vec<LiveScanFileBatchUpdate>,
    pub entry_count: u64,
}

/// What kind of entry a directory listing reports.
#[derive(Clone, Copy, Debug, PartialEq, Eq, Structural)]
pub enum ChildKind {
    Dir,
    File,
    Other,
}

/// The scan so far: finished directories and files not yet placed in their
/// parent, keyed by path; file counts not yet reported; entries seen.
#[derive(Debug)]
pub struct ScanState {
    pub mode: ScanEventMode,
    pub dirs: Vec<(String, Dir)>,
    pub files: Vec<(String, File)>,
    pub pending: Vec<LiveScanFileBatchUpdate>,
    pub pending_count: u64,
    pub entries_seen: u64,
}

// ---------------------------------------------------------------------------
// Keyed lists
// ---------------------------------------------------------------------------

/// No key occurs twice.
pub open spec fn keys_unique<T>(s: Seq<(String, T)>) -> bool {
    forall|i: int, j: int| 0 <= i < j < s.len() ==> (#[trigger] s[i]).0@ != (#[trigger] s[j]).0@
}

/// The position of a key, if it occurs.
pub open spec fn key_index<T>(s: Seq<(String, T)>, key: Seq<char>) -> Option<int> {
    if exists|k: int| 0 <= k < s.len() && s[k].0@ == key {
        Some(choose|k: int| 0 <= k < s.len() && s[k].0@ == key)
    } else {
        None
    }
}

/// The list after setting `key` to `value`: in place if the key occurs,
/// else at the end.
pub open spec fn put_key<T>(s: Seq<(String, T)>, key: String, value: T) -> Seq<(String, T)> {
    match key_index(s, key@) {
        Some(k) => s.update(k, (key, value)),
        None => s.push((key, value)),
    }
}

fn find_key<T>(s: &Vec<(String, T)>, key: &String) -> (r: Option<usize>)
    requires
        keys_unique(s@),
    ensures
        match r {
            Some(k) => key_index(s@, key@) == Some(k as int),
            None => key_index(s@, key@) is None,
        },
{
    let mut i: usize = 0;
    while i < s.len()
        invariant
            i <= s@.len(),
            keys_unique(s@),
            forall|j: int| 0 <= j < i ==> #[trigger] s@[j].0@ != key@,
        decreases s@.len() - i,
    {
        if s[i].0 == *key {
            proof {
                let c = choose|k: int| 0 <= k < s@.len() && s@[k].0@ == key@;
                if c != i {
                    if c < i { assert(s@[c].0@ != key@); } else { assert(s@[i as int].0@ != s@[c].0@); }
                }
            }
            return Some(i);
        }
        i = i + 1;
    }
    None
}

fn put<T>(s: &mut Vec<(String, T)>, key: String, value: T)
    requires
        keys_unique(old(s)@),
    ensures
        final(s)@ == put_key(old(s)@, key, value),
        keys_unique(final(s)@),
{
    let ghost k0 = key@;
    match find_key(s, &key) {
        Some(k) => {
            s.set(k, (key, value));
        },
        None => {
            s.push((key, value));
        },
    }
}

proof fn lemma_remove_keeps_unique<T>(s: Seq<(String, T)>, k: int)
    requires
        keys_unique(s),
        0 <= k < s.len(),
    ensures
        keys_unique(s.remove(k)),
{
    assert forall|i: int, j: int| 0 <= i < j < s.remove(k).len() implies s.remove(k)[i].0@ != s.remove(k)[j].0@ by {
        let ii = if i < k { i } else { i + 1 };
        let jj = if j < k { j } else { j + 1 };
        assert(s.remove(k)[i] == s[ii]);
        assert(s.remove(k)[j] == s[jj]);
    }
}


// ---------------------------------------------------------------------------
// File counts waiting to be reported
// ---------------------------------------------------------------------------

/// Files counted by a list of updates.
pub open spec fn sum_counts(s: Seq<LiveScanFileBatchUpdate>) -> int
    decreases s.len(),
{
    if s.len() == 0 {
        0
    } else {
        sum_counts(s.drop_last()) + s.last().file_count
    }
}

/// No directory has two updates.
pub open spec fn parents_unique(s: Seq<LiveScanFileBatchUpdate>) -> bool {
    forall|i: int, j: int| 0 <= i < j < s.len() ==> (#[trigger] s[i]).parent_path@ != (#[trigger] s[j]).parent_path@
}

/// The update of a directory, if it has one.
pub open spec fn parent_index(s: Seq<LiveScanFileBatchUpdate>, parent: Seq<char>) -> Option<int> {
    if exists|k: int| 0 <= k < s.len() && s[k].parent_path@ == parent {
        Some(choose|k: int| 0 <= k < s.len() && s[k].parent_path@ == parent)
    } else {
        None
    }
}

/// The updates after counting one more file of `size` bytes in `parent`.
pub open spec fn bump(s: Seq<LiveScanFileBatchUpdate>, parent: String, size: u64) -> Seq<LiveScanFileBatchUpdate> {
    match parent_index(s, parent@) {
        Some(k) => s.update(k, LiveScanFileBatchUpdate {
            parent_path: s[k].parent_path,
            size: (s[k].size + size) as u64,
            file_count: (s[k].file_count + 1) as u64,
        }),
        None => s.push(LiveScanFileBatchUpdate { parent_path: parent, size: size, file_count: 1 }),
    }
}

proof fn lemma_sum_counts_update(s: Seq<LiveScanFileBatchUpdate>, k: int, x: LiveScanFileBatchUpdate)
    requires
        0 <= k < s.len(),
    ensures
        sum_counts(s.update(k, x)) == sum_counts(s) - s[k].file_count + x.file_count,
    decreases s.len(),
{
    if k < s.len() - 1 {
        assert(s.update(k, x).drop_last() =~= s.drop_last().update(k, x));
        lemma_sum_counts_update(s.drop_last(), k, x);
    } else {
        assert(s.update(k, x).drop_last() =~= s.drop_last());
    }
}

proof fn lemma_count_bound(s: Seq<LiveScanFileBatchUpdate>, k: int)
    requires
        0 <= k < s.len(),
    ensures
        s[k].file_count <= sum_counts(s),
    decreases s.len(),
{
    lemma_sum_counts_nonneg(s.drop_last());
    if k < s.len() - 1 {
        lemma_count_bound(s.drop_last(), k);
    }
}

proof fn lemma_zero_count_empty(s: Seq<LiveScanFileBatchUpdate>)
    requires
        forall|i: int| 0 <= i < s.len() ==> (#[trigger] s[i]).file_count >= 1,
        sum_counts(s) == 0,
    ensures
        s.len() == 0,
{
    if s.len() > 0 {
        lemma_sum_counts_nonneg(s.drop_last());
        assert(s[s.len() - 1].file_count >= 1);
    }
}

proof fn lemma_sum_counts_nonneg(s: Seq<LiveScanFileBatchUpdate>)
    ensures
        sum_counts(s) >= 0,
    decreases s.len(),
{
    if s.len() > 0 {
        lemma_sum_counts_nonneg(s.drop_last());
    }
}

/// The id a scanned entry gets: the hash of its path when the path is
/// valid UTF-8, else the hash of a fixed text.
pub open spec fn entry_id(path_text: Option<String>, fallback: Seq<char>) -> u64 {
    match path_text {
        Some(t) => xxhash64(PATH_ID_SEED, encode_utf8(t@)),
        None => xxhash64(PATH_ID_SEED, encode_utf8(fallback)),
    }
}

impl ScanState {
    /// The scan's bookkeeping is consistent: keys occur once, every waiting
    /// directory's figures hold down to its leaves, the count of
    /// unreported files is what the updates add up to and is below the batch
    /// size, and a silent scan has nothing to report.
    pub open spec fn wf(self) -> bool {
        &&& keys_unique(self.dirs@)
        &&& keys_unique(self.files@)
        &&& store_figures_hold(self.dirs@)
        &&& parents_unique(self.pending@)
        &&& self.pending_count as int == sum_counts(self.pending@)
        &&& self.pending_count < LIVE_FILE_BATCH_SIZE
        &&& forall|i: int| 0 <= i < self.pending@.len() ==> (#[trigger] self.pending@[i]).file_count >= 1
        &&& self.mode == ScanEventMode::Silent ==> self.pending@.len() == 0
    }

    /// A scan that has seen nothing.
    pub fn new(mode: ScanEventMode) -> (r: ScanState)
        ensures
            r.wf(),
            r.mode == mode,
            r.dirs@.len() == 0,
            r.files@.len() == 0,
            r.pending@.len() == 0,
            r.pending_count == 0,
            r.entries_seen == 0,
    {
        ScanState {
            mode,
            dirs: Vec::new(),
            files: Vec::new(),
            pending: Vec::new(),
            pending_count: 0,
            entries_seen: 0,
        }
    }

    /// Counts one more entry of the walk; in a live scan every ten
    /// thousandth entry is reported with the count so far.
    pub fn note_entry(&mut self) -> (r: Option<u64>)
        requires
            old(self).entries_seen < u64::MAX,
        ensures
            final(self).entries_seen == old(self).entries_seen + 1,
            final(self).mode == old(self).mode,
            final(self).dirs == old(self).dirs,
            final(self).files == old(self).files,
            final(self).pending == old(self).pending,
            final(self).pending_count == old(self).pending_count,
            r == (if old(self).mode == ScanEventMode::Live && (old(self).entries_seen + 1) % (PROGRESS_INTERVAL as int) == 0 {
                Some((old(self).entries_seen + 1) as u64)
            } else {
                None
            }),
    {
        self.entries_seen = self.entries_seen + 1;
        if self.mode == ScanEventMode::Live && self.entries_seen % PROGRESS_INTERVAL == 0 {
            Some(self.entries_seen)
        } else {
            None
        }
    }

    /// Reports the unreported file counts when there are any and either
    /// `force` is set or they reach the batch size.
    fn flush(&mut self, force: bool) -> (r: Option<LiveScanFileBatchEvent>)
        requires
            old(self).pending_count as int == sum_counts(old(self).pending@),
        ensures
            r matches Some(b) ==> b.entry_count == sum_counts(b.updates@),
            final(self).mode == old(self).mode,
            final(self).dirs == old(self).dirs,
            final(self).files == old(self).files,
            final(self).entries_seen == old(self).entries_seen,
            (old(self).pending_count > 0 && (force || old(self).pending_count >= LIVE_FILE_BATCH_SIZE)) ==> (
                r matches Some(b) && b.updates@ == old(self).pending@ && b.entry_count == old(self).pending_count
                && final(self).pending@.len() == 0 && final(self).pending_count == 0),
            !(old(self).pending_count > 0 && (force || old(self).pending_count >= LIVE_FILE_BATCH_SIZE)) ==> (
                r is None && final(self).pending == old(self).pending
                && final(self).pending_count == old(self).pending_count),
    {
        if self.pending_count == 0 || (!force && self.pending_count < LIVE_FILE_BATCH_SIZE) {
            return None;
        }
        let mut updates: Vec<LiveScanFileBatchUpdate> = Vec::new();
        std::mem::swap(&mut updates, &mut self.pending);
        let entry_count = self.pending_count;
        self.pending_count = 0;
        Some(LiveScanFileBatchEvent { updates, entry_count })
    }

    /// Whether a file of `size` bytes in `parent_path` can be counted
    /// without the count of bytes waiting for that directory overflowing.
    pub open spec fn file_fits(self, parent_path: Option<String>, size: u64) -> bool {
        self.mode == ScanEventMode::Live ==> match parent_path {
            Some(p) => match parent_index(self.pending@, p@) {
                Some(k) => self.pending@[k].size + size <= u64::MAX,
                None => true,
            },
            None => true,
        }
    }

    /// Tells whether `file_fits` holds.
    pub fn can_add_file(&self, parent_path: &Option<String>, size: u64) -> (r: bool)
        requires
            self.wf(),
        ensures
            r == self.file_fits(*parent_path, size),
    {
        if self.mode != ScanEventMode::Live {
            return true;
        }
        match parent_path {
            Some(p) => match find_parent(&self.pending, p) {
                Some(k) => self.pending[k].size <= u64::MAX - size,
                None => true,
            },
            None => true,
        }
    }

    /// Records a file of the walk: it waits, under its path, for its
    /// directory. In a live scan it is also counted for its directory, and
    /// the counts are reported once they reach the batch size.
    pub fn add_file(
        &mut self,
        path: String,
        parent_path: Option<String>,
        name: String,
        meta: FileMeta,
        path_text: Option<String>,
    ) -> (r: Option<LiveScanFileBatchEvent>)
        requires
            old(self).wf(),
            old(self).file_fits(parent_path, meta.size),
        ensures
            final(self).wf(),
            final(self).mode == old(self).mode,
            final(self).entries_seen == old(self).entries_seen,
            final(self).dirs == old(self).dirs,
            final(self).files@ == put_key(old(self).files@, path, File { meta, name, id: entry_id(path_text, "err"@) }),
            (old(self).mode == ScanEventMode::Live && parent_path is Some) ==> {
                let counted = bump(old(self).pending@, parent_path->0, meta.size);
                let count = old(self).pending_count + 1;
                if count >= LIVE_FILE_BATCH_SIZE {
                    &&& r matches Some(b)
                    &&& b.updates@ == counted
                    &&& b.entry_count == count
                    &&& final(self).pending@.len() == 0
                    &&& final(self).pending_count == 0
                } else {
                    &&& r is None
                    &&& final(self).pending@ == counted
                    &&& final(self).pending_count == count
                }
            },
            !(old(self).mode == ScanEventMode::Live && parent_path is Some) ==> (
                r is None && final(self).pending == old(self).pending
                && final(self).pending_count == old(self).pending_count),
            r matches Some(b) ==> b.entry_count == LIVE_FILE_BATCH_SIZE && b.entry_count == sum_counts(b.updates@),
    {
        let id = match &path_text {
            Some(t) => hash_path_id(t.as_str()),
            None => hash_path_id("err"),
        };
        let file = File { meta, name, id };
        let mut batch: Option<LiveScanFileBatchEvent> = None;
        if self.mode == ScanEventMode::Live {
            if let Some(parent) = parent_path {
                let ghost before = self.pending@;
                match find_parent(&self.pending, &parent) {
                    Some(k) => {
                        proof { lemma_count_bound(before, k as int); }
                        let old_update = &self.pending[k];
                        let updated = LiveScanFileBatchUpdate {
                            parent_path: old_update.parent_path.clone(),
                            size: old_update.size + meta.size,
                            file_count: old_update.file_count + 1,
                        };
                        self.pending.set(k, updated);
                        proof {
                            lemma_sum_counts_update(before, k as int, self.pending@[k as int]);
                            assert forall|i: int, j: int| 0 <= i < j < self.pending@.len() implies
                                (#[trigger] self.pending@[i]).parent_path@ != (#[trigger] self.pending@[j]).parent_path@ by {
                                assert(before[i].parent_path@ != before[j].parent_path@);
                            }
                        }
                    },
                    None => {
                        self.pending.push(LiveScanFileBatchUpdate { parent_path: parent, size: meta.size, file_count: 1 });
                        proof {
                            assert(self.pending@.drop_last() =~= before);
                        }
                    },
                }
                self.pending_count = self.pending_count + 1;
                batch = self.flush(false);
            }
        }
        put(&mut self.files, path, file);
        batch
    }
}

fn find_parent(s: &Vec<LiveScanFileBatchUpdate>, parent: &String) -> (r: Option<usize>)
    requires
        parents_unique(s@),
    ensures
        match r {
            Some(k) => parent_index(s@, parent@) == Some(k as int),
            None => parent_index(s@, parent@) is None,
        },
{
    let mut i: usize = 0;
    while i < s.len()
        invariant
            i <= s@.len(),
            parents_unique(s@),
            forall|j: int| 0 <= j < i ==> #[trigger] s@[j].parent_path@ != parent@,
        decreases s@.len() - i,
    {
        if s[i].parent_path == *parent {
            proof {
                let c = choose|k: int| 0 <= k < s@.len() && s@[k].parent_path@ == parent@;
                if c != i {
                    if c < i { assert(s@[c].parent_path@ != parent@); } else { assert(s@[i as int].parent_path@ != s@[c].parent_path@); }
                }
            }
            return Some(i);
        }
        i = i + 1;
    }
    None
}


// ---------------------------------------------------------------------------
// Placing children into a finished directory
// ---------------------------------------------------------------------------

/// The paths of the children of one kind, in listing order.
pub open spec fn keys_of_kind(children: Seq<(Seq<char>, ChildKind)>, kind: ChildKind) -> Seq<Seq<char>>
    decreases children.len(),
{
    if children.len() == 0 {
        Seq::empty()
    } else if children.last().1 == kind {
        keys_of_kind(children.drop_last(), kind).push(children.last().0)
    } else {
        keys_of_kind(children.drop_last(), kind)
    }
}

/// Takes the entries with the given keys out of a keyed list, in key order:
/// the values taken, and what is left. A key that is not there (or no
/// longer there) takes nothing.
pub open spec fn take_keys<T>(keys: Seq<Seq<char>>, store: Seq<(String, T)>) -> (Seq<T>, Seq<(String, T)>)
    decreases keys.len(),
{
    if keys.len() == 0 {
        (Seq::empty(), store)
    } else {
        let (got, left) = take_keys(keys.drop_last(), store);
        match key_index(left, keys.last()) {
            Some(k) => (got.push(left[k].1), left.remove(k)),
            None => (got, left),
        }
    }
}

/// The position of the directory with this name, if any.
pub open spec fn dir_name_index(s: Seq<Dir>, name: Seq<char>) -> Option<int> {
    if exists|k: int| 0 <= k < s.len() && s[k].name@ == name {
        Some(choose|k: int| 0 <= k < s.len() && s[k].name@ == name)
    } else {
        None
    }
}

/// The position of the file with this name, if any.
pub open spec fn file_name_index(s: Seq<File>, name: Seq<char>) -> Option<int> {
    if exists|k: int| 0 <= k < s.len() && s[k].name@ == name {
        Some(choose|k: int| 0 <= k < s.len() && s[k].name@ == name)
    } else {
        None
    }
}

/// Directories placed one after the other by name: a directory with the
/// name of one already placed replaces it.
pub open spec fn place_dirs(s: Seq<Dir>) -> Seq<Dir>
    decreases s.len(),
{
    if s.len() == 0 {
        Seq::empty()
    } else {
        let prev = place_dirs(s.drop_last());
        match dir_name_index(prev, s.last().name@) {
            Some(k) => prev.update(k, s.last()),
            None => prev.push(s.last()),
        }
    }
}

/// Files placed one after the other by name: a file with the name of one
/// already placed replaces it.
pub open spec fn place_files(s: Seq<File>) -> Seq<File>
    decreases s.len(),
{
    if s.len() == 0 {
        Seq::empty()
    } else {
        let prev = place_files(s.drop_last());
        match file_name_index(prev, s.last().name@) {
            Some(k) => prev.update(k, s.last()),
            None => prev.push(s.last()),
        }
    }
}

/// Total size of directories.
pub open spec fn sum_dir_sizes(s: Seq<Dir>) -> int
    decreases s.len(),
{
    if s.len() == 0 { 0 } else { sum_dir_sizes(s.drop_last()) + s.last().meta.size }
}

/// Total size of files.
pub open spec fn sum_file_sizes(s: Seq<File>) -> int
    decreases s.len(),
{
    if s.len() == 0 { 0 } else { sum_file_sizes(s.drop_last()) + s.last().meta.size }
}

/// The bytes a finished directory collects: the sizes of every directory
/// and file taken from the waiting lists for it.
pub open spec fn claimed_size(children: Seq<(Seq<char>, ChildKind)>, dirs: Seq<(String, Dir)>, files: Seq<(String, File)>) -> int {
    sum_dir_sizes(take_keys(keys_of_kind(children, ChildKind::Dir), dirs).0)
        + sum_file_sizes(take_keys(keys_of_kind(children, ChildKind::File), files).0)
}

/// The directory built from a directory entry and the children taken for
/// it: subdirectories and files placed by name, the size of everything
/// taken, and the number of subdirectories and files placed.
pub open spec fn built_dir(
    d: Dir,
    name: String,
    created: FsTime,
    modified: FsTime,
    id: u64,
    taken_dirs: Seq<Dir>,
    taken_files: Seq<File>,
) -> bool {
    &&& d.name == name
    &&& d.id == id
    &&& d.subdirs@ == place_dirs(taken_dirs)
    &&& d.files@ == place_files(taken_files)
    &&& d.meta.size == sum_dir_sizes(taken_dirs) + sum_file_sizes(taken_files)
    &&& d.meta.created == created
    &&& d.meta.modified == modified
    &&& d.meta.num_files == d.files@.len()
    &&& d.meta.num_subdir == d.subdirs@.len()
}


// ---------------------------------------------------------------------------
// Figures of whole trees
// ---------------------------------------------------------------------------

/// The figures of a directory and of every directory below it agree with
/// what it holds: it counts exactly its subdirectories and files, and its
/// size is at least what they add up to (exactly that when no listing named
/// two children alike; see `law_dir_size_is_sum_of_children`).
pub open spec fn figures_hold(d: Dir) -> bool
    decreases d,
{
    &&& d.meta.num_files == d.files@.len()
    &&& d.meta.num_subdir == d.subdirs@.len()
    &&& sum_dir_sizes(d.subdirs@) + sum_file_sizes(d.files@) <= d.meta.size
    &&& forall|i: int| 0 <= i < d.subdirs@.len() ==> figures_hold(#[trigger] d.subdirs@[i])
}

/// Every directory waiting in a keyed list has figures that hold.
pub open spec fn store_figures_hold(s: Seq<(String, Dir)>) -> bool {
    forall|i: int| 0 <= i < s.len() ==> figures_hold(#[trigger] s[i].1)
}

proof fn lemma_sum_dir_sizes_update(s: Seq<Dir>, k: int, x: Dir)
    requires
        0 <= k < s.len(),
    ensures
        sum_dir_sizes(s.update(k, x)) == sum_dir_sizes(s) - s[k].meta.size + x.meta.size,
    decreases s.len(),
{
    if k < s.len() - 1 {
        assert(s.update(k, x).drop_last() =~= s.drop_last().update(k, x));
        lemma_sum_dir_sizes_update(s.drop_last(), k, x);
    } else {
        assert(s.update(k, x).drop_last() =~= s.drop_last());
    }
}

proof fn lemma_sum_file_sizes_update(s: Seq<File>, k: int, x: File)
    requires
        0 <= k < s.len(),
    ensures
        sum_file_sizes(s.update(k, x)) == sum_file_sizes(s) - s[k].meta.size + x.meta.size,
    decreases s.len(),
{
    if k < s.len() - 1 {
        assert(s.update(k, x).drop_last() =~= s.drop_last().update(k, x));
        lemma_sum_file_sizes_update(s.drop_last(), k, x);
    } else {
        assert(s.update(k, x).drop_last() =~= s.drop_last());
    }
}

/// Placing directories by name keeps only directories that were placed,
/// and keeps at most their total size.
proof fn lemma_place_dirs_from(t: Seq<Dir>)
    ensures
        forall|i: int| 0 <= i < place_dirs(t).len() ==> t.contains(#[trigger] place_dirs(t)[i]),
        sum_dir_sizes(place_dirs(t)) <= sum_dir_sizes(t),
    decreases t.len(),
{
    if t.len() > 0 {
        let prev = place_dirs(t.drop_last());
        lemma_place_dirs_from(t.drop_last());
        let x = t.last();
        assert forall|j: int| 0 <= j < t.drop_last().len() implies t.contains(#[trigger] t.drop_last()[j]) by {
            assert(t[j] == t.drop_last()[j]);
        }
        assert(t[t.len() - 1] == x);
        match dir_name_index(prev, x.name@) {
            Some(k) => {
                lemma_sum_dir_sizes_update(prev, k, x);
                assert forall|i: int| 0 <= i < prev.update(k, x).len() implies t.contains(#[trigger] prev.update(k, x)[i]) by {
                    if i != k {
                        assert(t.drop_last().contains(prev[i]));
                    }
                }
            },
            None => {
                assert forall|i: int| 0 <= i < prev.push(x).len() implies t.contains(#[trigger] prev.push(x)[i]) by {
                    if i < prev.len() {
                        assert(t.drop_last().contains(prev[i]));
                    }
                }
                assert(prev.push(x).drop_last() =~= prev);
            },
        }
    }
}

/// Placing files by name keeps at most their total size.
proof fn lemma_place_files_sum(t: Seq<File>)
    ensures
        sum_file_sizes(place_files(t)) <= sum_file_sizes(t),
    decreases t.len(),
{
    if t.len() > 0 {
        let prev = place_files(t.drop_last());
        lemma_place_files_sum(t.drop_last());
        let x = t.last();
        match file_name_index(prev, x.name@) {
            Some(k) => {
                lemma_sum_file_sizes_update(prev, k, x);
            },
            None => {
                assert(prev.push(x).drop_last() =~= prev);
            },
        }
    }
}

/// Taking entries out of a keyed list of directories whose figures hold
/// takes and leaves only such directories.
proof fn lemma_take_keys_figures(keys: Seq<Seq<char>>, s: Seq<(String, Dir)>)
    requires
        store_figures_hold(s),
    ensures
        forall|i: int| 0 <= i < take_keys(keys, s).0.len() ==> figures_hold(#[trigger] take_keys(keys, s).0[i]),
        store_figures_hold(take_keys(keys, s).1),
    decreases keys.len(),
{
    if keys.len() > 0 {
        lemma_take_keys_figures(keys.drop_last(), s);
        let (got, left) = take_keys(keys.drop_last(), s);
        match key_index(left, keys.last()) {
            Some(k) => {
                assert(figures_hold(left[k].1));
                assert forall|i: int| 0 <= i < got.push(left[k].1).len() implies figures_hold(#[trigger] got.push(left[k].1)[i]) by {
                    if i < got.len() {
                        assert(figures_hold(got[i]));
                    }
                }
                assert forall|i: int| 0 <= i < left.remove(k).len() implies figures_hold(#[trigger] left.remove(k)[i].1) by {
                    let ii = if i < k { i } else { i + 1 };
                    assert(left.remove(k)[i] == left[ii]);
                }
            },
            None => {},
        }
    }
}

/// Putting a directory whose figures hold into such a list keeps it so.
proof fn lemma_put_key_figures(s: Seq<(String, Dir)>, key: String, d: Dir)
    requires
        store_figures_hold(s),
        figures_hold(d),
    ensures
        store_figures_hold(put_key(s, key, d)),
{
    match key_index(s, key@) {
        Some(k) => {
            assert forall|i: int| 0 <= i < s.update(k, (key, d)).len() implies figures_hold(#[trigger] s.update(k, (key, d))[i].1) by {
                if i != k {
                    assert(figures_hold(s[i].1));
                }
            }
        },
        None => {
            assert forall|i: int| 0 <= i < s.push((key, d)).len() implies figures_hold(#[trigger] s.push((key, d))[i].1) by {
                if i < s.len() {
                    assert(figures_hold(s[i].1));
                }
            }
        },
    }
}

/// A directory built from directories whose figures hold has figures that
/// hold.
proof fn lemma_built_dir_figures(
    d: Dir,
    name: String,
    created: FsTime,
    modified: FsTime,
    id: u64,
    taken_d: Seq<Dir>,
    taken_f: Seq<File>,
)
    requires
        built_dir(d, name, created, modified, id, taken_d, taken_f),
        forall|i: int| 0 <= i < taken_d.len() ==> figures_hold(#[trigger] taken_d[i]),
    ensures
        figures_hold(d),
{
    lemma_place_dirs_from(taken_d);
    lemma_place_files_sum(taken_f);
    assert forall|i: int| 0 <= i < d.subdirs@.len() implies figures_hold(#[trigger] d.subdirs@[i]) by {
        assert(taken_d.contains(place_dirs(taken_d)[i]));
    }
}

/// No two directories share a name.
pub open spec fn dir_names_unique(s: Seq<Dir>) -> bool {
    forall|i: int, j: int| 0 <= i < j < s.len() ==> (#[trigger] s[i]).name@ != (#[trigger] s[j]).name@
}

/// No two files share a name.
pub open spec fn file_names_unique(s: Seq<File>) -> bool {
    forall|i: int, j: int| 0 <= i < j < s.len() ==> (#[trigger] s[i]).name@ != (#[trigger] s[j]).name@
}

fn place_dir(s: &mut Vec<Dir>, d: Dir)
    requires
        dir_names_unique(old(s)@),
    ensures
        dir_names_unique(final(s)@),
        final(s)@ == (match dir_name_index(old(s)@, d.name@) {
            Some(k) => old(s)@.update(k, d),
            None => old(s)@.push(d),
        }),
{
    let mut i: usize = 0;
    while i < s.len()
        invariant
            i <= s@.len(),
            dir_names_unique(s@),
            forall|j: int| 0 <= j < i ==> #[trigger] s@[j].name@ != d.name@,
            s@ == old(s)@,
        decreases s@.len() - i,
    {
        if s[i].name == d.name {
            proof {
                let c = choose|k: int| 0 <= k < s@.len() && s@[k].name@ == d.name@;
                if c != i {
                    if c < i { assert(s@[c].name@ != d.name@); } else { assert(s@[i as int].name@ != s@[c].name@); }
                }
            }
            let ghost before = s@;
            s.set(i, d);
            proof {
                assert forall|a: int, b: int| 0 <= a < b < s@.len() implies (#[trigger] s@[a]).name@ != (#[trigger] s@[b]).name@ by {
                    assert(before[a].name@ != before[b].name@);
                }
            }
            return;
        }
        i = i + 1;
    }
    assert(!exists|k: int| 0 <= k < s@.len() && s@[k].name@ == d.name@);
    s.push(d);
}

fn place_file(s: &mut Vec<File>, f: File)
    requires
        file_names_unique(old(s)@),
    ensures
        file_names_unique(final(s)@),
        final(s)@ == (match file_name_index(old(s)@, f.name@) {
            Some(k) => old(s)@.update(k, f),
            None => old(s)@.push(f),
        }),
{
    let mut i: usize = 0;
    while i < s.len()
        invariant
            i <= s@.len(),
            file_names_unique(s@),
            forall|j: int| 0 <= j < i ==> #[trigger] s@[j].name@ != f.name@,
            s@ == old(s)@,
        decreases s@.len() - i,
    {
        if s[i].name == f.name {
            proof {
                let c = choose|k: int| 0 <= k < s@.len() && s@[k].name@ == f.name@;
                if c != i {
                    if c < i { assert(s@[c].name@ != f.name@); } else { assert(s@[i as int].name@ != s@[c].name@); }
                }
            }
            let ghost before = s@;
            s.set(i, f);
            proof {
                assert forall|a: int, b: int| 0 <= a < b < s@.len() implies (#[trigger] s@[a]).name@ != (#[trigger] s@[b]).name@ by {
                    assert(before[a].name@ != before[b].name@);
                }
            }
            return;
        }
        i = i + 1;
    }
    assert(!exists|k: int| 0 <= k < s@.len() && s@[k].name@ == f.name@);
    s.push(f);
}

/// The children's paths and kinds as texts.
pub open spec fn child_texts(children: Seq<(String, ChildKind)>) -> Seq<(Seq<char>, ChildKind)> {
    children.map_values(|c: (String, ChildKind)| (c.0@, c.1))
}

proof fn lemma_take_keys_push<T>(keys: Seq<Seq<char>>, store: Seq<(String, T)>)
    requires
        keys.len() > 0,
    ensures
        take_keys(keys, store).0.len() >= take_keys(keys.drop_last(), store).0.len(),
        take_keys(keys, store).0.take(take_keys(keys.drop_last(), store).0.len() as int) == take_keys(keys.drop_last(), store).0,
{
    let (got, left) = take_keys(keys.drop_last(), store);
    match key_index(left, keys.last()) {
        Some(k) => { assert(got.push(left[k].1).take(got.len() as int) =~= got); },
        None => { assert(got.take(got.len() as int) =~= got); },
    }
}

proof fn lemma_sum_dirs_prefix(s: Seq<Dir>, n: int)
    requires
        0 <= n <= s.len(),
    ensures
        sum_dir_sizes(s.take(n)) <= sum_dir_sizes(s),
    decreases s.len(),
{
    if n < s.len() {
        assert(s.drop_last().take(n) =~= s.take(n));
        lemma_sum_dirs_prefix(s.drop_last(), n);
    } else {
        assert(s.take(n) =~= s);
    }
}

proof fn lemma_sum_files_prefix(s: Seq<File>, n: int)
    requires
        0 <= n <= s.len(),
    ensures
        sum_file_sizes(s.take(n)) <= sum_file_sizes(s),
    decreases s.len(),
{
    if n < s.len() {
        assert(s.drop_last().take(n) =~= s.take(n));
        lemma_sum_files_prefix(s.drop_last(), n);
    } else {
        assert(s.take(n) =~= s);
    }
}

proof fn lemma_take_keys_grows_dirs(keys: Seq<Seq<char>>, store: Seq<(String, Dir)>, m: int)
    requires
        0 <= m <= keys.len(),
    ensures
        sum_dir_sizes(take_keys(keys.take(m), store).0) <= sum_dir_sizes(take_keys(keys, store).0),
    decreases keys.len(),
{
    if m < keys.len() {
        assert(keys.drop_last().take(m) =~= keys.take(m));
        lemma_take_keys_grows_dirs(keys.drop_last(), store, m);
        lemma_take_keys_push(keys, store);
        lemma_sum_dirs_prefix(take_keys(keys, store).0, take_keys(keys.drop_last(), store).0.len() as int);
    } else {
        assert(keys.take(m) =~= keys);
    }
}

proof fn lemma_take_keys_grows_files(keys: Seq<Seq<char>>, store: Seq<(String, File)>, m: int)
    requires
        0 <= m <= keys.len(),
    ensures
        sum_file_sizes(take_keys(keys.take(m), store).0) <= sum_file_sizes(take_keys(keys, store).0),
    decreases keys.len(),
{
    if m < keys.len() {
        assert(keys.drop_last().take(m) =~= keys.take(m));
        lemma_take_keys_grows_files(keys.drop_last(), store, m);
        lemma_take_keys_push(keys, store);
        lemma_sum_files_prefix(take_keys(keys, store).0, take_keys(keys.drop_last(), store).0.len() as int);
    } else {
        assert(keys.take(m) =~= keys);
    }
}

proof fn lemma_keys_of_kind_prefix(cs: Seq<(Seq<char>, ChildKind)>, j: int, kind: ChildKind)
    requires
        0 <= j <= cs.len(),
    ensures
        keys_of_kind(cs.take(j), kind).len() <= keys_of_kind(cs, kind).len(),
        keys_of_kind(cs.take(j), kind) == keys_of_kind(cs, kind).take(keys_of_kind(cs.take(j), kind).len() as int),
    decreases cs.len(),
{
    if j < cs.len() {
        assert(cs.drop_last().take(j) =~= cs.take(j));
        lemma_keys_of_kind_prefix(cs.drop_last(), j, kind);
        let a = keys_of_kind(cs.take(j), kind);
        let b = keys_of_kind(cs.drop_last(), kind);
        if cs.last().1 == kind {
            assert(b.push(cs.last().0).take(a.len() as int) =~= b.take(a.len() as int));
        }
    } else {
        assert(cs.take(j) =~= cs);
        assert(keys_of_kind(cs, kind).take(keys_of_kind(cs, kind).len() as int) =~= keys_of_kind(cs, kind));
    }
}

/// Taking the children of a prefix of a listing collects no more bytes than
/// taking those of the whole listing.
proof fn lemma_claimed_size_prefix(cs: Seq<(Seq<char>, ChildKind)>, j: int, dirs: Seq<(String, Dir)>, files: Seq<(String, File)>)
    requires
        0 <= j <= cs.len(),
    ensures
        claimed_size(cs.take(j), dirs, files) <= claimed_size(cs, dirs, files),
{
    lemma_keys_of_kind_prefix(cs, j, ChildKind::Dir);
    lemma_keys_of_kind_prefix(cs, j, ChildKind::File);
    lemma_take_keys_grows_dirs(keys_of_kind(cs, ChildKind::Dir), dirs, keys_of_kind(cs.take(j), ChildKind::Dir).len() as int);
    lemma_take_keys_grows_files(keys_of_kind(cs, ChildKind::File), files, keys_of_kind(cs.take(j), ChildKind::File).len() as int);
}


proof fn lemma_place_dirs_unique(s: Seq<Dir>)
    ensures
        dir_names_unique(place_dirs(s)),
    decreases s.len(),
{
    if s.len() > 0 {
        lemma_place_dirs_unique(s.drop_last());
        let prev = place_dirs(s.drop_last());
        let d = s.last();
        match dir_name_index(prev, d.name@) {
            Some(k) => {
                let c = choose|k: int| 0 <= k < prev.len() && prev[k].name@ == d.name@;
                assert forall|a: int, b: int| 0 <= a < b < prev.update(k, d).len() implies
                    (#[trigger] prev.update(k, d)[a]).name@ != (#[trigger] prev.update(k, d)[b]).name@ by {
                    assert(prev[a].name@ != prev[b].name@);
                }
            },
            None => {
                assert forall|a: int, b: int| 0 <= a < b < prev.push(d).len() implies
                    (#[trigger] prev.push(d)[a]).name@ != (#[trigger] prev.push(d)[b]).name@ by {
                    if b < prev.len() {
                        assert(prev[a].name@ != prev[b].name@);
                    }
                }
            },
        }
    }
}

proof fn lemma_place_files_unique(s: Seq<File>)
    ensures
        file_names_unique(place_files(s)),
    decreases s.len(),
{
    if s.len() > 0 {
        lemma_place_files_unique(s.drop_last());
        let prev = place_files(s.drop_last());
        let f = s.last();
        match file_name_index(prev, f.name@) {
            Some(k) => {
                assert forall|a: int, b: int| 0 <= a < b < prev.update(k, f).len() implies
                    (#[trigger] prev.update(k, f)[a]).name@ != (#[trigger] prev.update(k, f)[b]).name@ by {
                    assert(prev[a].name@ != prev[b].name@);
                }
            },
            None => {
                assert forall|a: int, b: int| 0 <= a < b < prev.push(f).len() implies
                    (#[trigger] prev.push(f)[a]).name@ != (#[trigger] prev.push(f)[b]).name@ by {
                    if b < prev.len() {
                        assert(prev[a].name@ != prev[b].name@);
                    }
                }
            },
        }
    }
}

impl ScanState {
    /// Records a directory of the walk, which comes after everything below
    /// it. The directories and files among its children that wait under
    /// their paths are taken from the waiting lists and placed in it; its
    /// size is the sum of theirs. The directory then waits for its own
    /// parent. In a live scan the unreported file counts are reported, then
    /// the directory itself.
    pub fn add_dir(
        &mut self,
        path: String,
        parent_path: Option<String>,
        name: String,
        created: FsTime,
        modified: FsTime,
        path_text: Option<String>,
        children: &Vec<(String, ChildKind)>,
    ) -> (r: (Option<LiveScanFileBatchEvent>, Option<LiveScanEntryEvent>))
        requires
            old(self).wf(),
            claimed_size(child_texts(children@), old(self).dirs@, old(self).files@) <= u64::MAX,
        ensures
            final(self).wf(),
            final(self).mode == old(self).mode,
            final(self).entries_seen == old(self).entries_seen,
            final(self).files@ == taken_files(children@, old(self).files@).1,
            exists|d: Dir| #[trigger] built_dir(d, name, created, modified, dir_entry_id(path_text),
                taken_dirs(children@, old(self).dirs@).0, taken_files(children@, old(self).files@).0)
                && final(self).dirs@ == put_key(taken_dirs(children@, old(self).dirs@).1, path, d),
            old(self).mode == ScanEventMode::Live && old(self).pending_count > 0 ==> (r.0 matches Some(b)
                && b.updates@ == old(self).pending@ && b.entry_count == old(self).pending_count),
            old(self).mode == ScanEventMode::Live && old(self).pending_count == 0 ==> r.0 is None,
            r.0 matches Some(b) ==> b.entry_count == sum_counts(b.updates@),
            old(self).mode == ScanEventMode::Live ==> final(self).pending@.len() == 0 && final(self).pending_count == 0,
            old(self).mode == ScanEventMode::Live ==> (r.1 matches Some(e) && dir_entry_event(e, path, parent_path, name,
                dir_entry_id(path_text), created, modified, taken_dirs(children@, old(self).dirs@).0,
                taken_files(children@, old(self).files@).0)),
            old(self).mode == ScanEventMode::Silent ==> (r.0 is None && r.1 is None
                && final(self).pending == old(self).pending && final(self).pending_count == old(self).pending_count),
    {
        let ghost cm = child_texts(children@);
        let ghost dirs0 = self.dirs@;
        let ghost files0 = self.files@;
        let id = match &path_text {
            Some(t) => hash_path_id(t.as_str()),
            None => hash_path_id("thereisnothingthisisjusttestchangelater"),
        };
        let mut subdirs: Vec<Dir> = Vec::new();
        let mut files: Vec<File> = Vec::new();
        let ghost mut taken_d: Seq<Dir> = Seq::empty();
        let ghost mut taken_f: Seq<File> = Seq::empty();
        let mut size: u64 = 0;
        let mut i: usize = 0;
        assert(cm.take(0) =~= Seq::<(Seq<char>, ChildKind)>::empty());
        while i < children.len()
            invariant
                i <= children@.len(),
                cm == child_texts(children@),
                keys_unique(self.dirs@),
                keys_unique(self.files@),
                store_figures_hold(dirs0),
                take_keys(keys_of_kind(cm.take(i as int), ChildKind::Dir), dirs0) == (taken_d, self.dirs@),
                take_keys(keys_of_kind(cm.take(i as int), ChildKind::File), files0) == (taken_f, self.files@),
                subdirs@ == place_dirs(taken_d),
                files@ == place_files(taken_f),
                dir_names_unique(subdirs@),
                file_names_unique(files@),
                size == sum_dir_sizes(taken_d) + sum_file_sizes(taken_f),
                claimed_size(cm, dirs0, files0) <= u64::MAX,
                self.mode == old(self).mode,
                self.pending == old(self).pending,
                self.pending_count == old(self).pending_count,
                self.entries_seen == old(self).entries_seen,
                parents_unique(self.pending@),
                self.pending_count as int == sum_counts(self.pending@),
                self.pending_count < LIVE_FILE_BATCH_SIZE,
                forall|j: int| 0 <= j < self.pending@.len() ==> (#[trigger] self.pending@[j]).file_count >= 1,
                self.mode == ScanEventMode::Silent ==> self.pending@.len() == 0,
            decreases children@.len() - i,
        {
            proof {
                assert(cm.take(i + 1).drop_last() =~= cm.take(i as int));
                assert(cm.take(i + 1).last() == (children@[i as int].0@, children@[i as int].1));
                lemma_claimed_size_prefix(cm, i + 1, dirs0, files0);
            }
            let kind = children[i].1;
            let ghost key = children@[i as int].0@;
            let ghost kd = keys_of_kind(cm.take(i as int), ChildKind::Dir);
            let ghost kf = keys_of_kind(cm.take(i as int), ChildKind::File);
            if kind == ChildKind::Dir {
                assert(keys_of_kind(cm.take(i + 1), ChildKind::Dir) == kd.push(key));
                assert(keys_of_kind(cm.take(i + 1), ChildKind::File) == kf);
                assert(kd.push(key).drop_last() =~= kd);
                match find_key(&self.dirs, &children[i].0) {
                    Some(k) => {
                        let ghost before = self.dirs@;
                        let (_, child) = self.dirs.remove(k);
                        proof {
                            assert(child == before[k as int].1);
                            lemma_remove_keeps_unique(before, k as int);
                            let old_taken = taken_d;
                            taken_d = taken_d.push(child);
                            assert(taken_d.drop_last() =~= old_taken);
                            assert(claimed_size(cm.take(i + 1), dirs0, files0) == sum_dir_sizes(taken_d) + sum_file_sizes(taken_f));
                        }
                        size = size + child.meta.size;
                        place_dir(&mut subdirs, child);
                    },
                    None => {},
                }
            } else if kind == ChildKind::File {
                assert(keys_of_kind(cm.take(i + 1), ChildKind::File) == kf.push(key));
                assert(keys_of_kind(cm.take(i + 1), ChildKind::Dir) == kd);
                assert(kf.push(key).drop_last() =~= kf);
                match find_key(&self.files, &children[i].0) {
                    Some(k) => {
                        let ghost before = self.files@;
                        let (_, child) = self.files.remove(k);
                        proof {
                            assert(child == before[k as int].1);
                            lemma_remove_keeps_unique(before, k as int);
                            let old_taken = taken_f;
                            taken_f = taken_f.push(child);
                            assert(taken_f.drop_last() =~= old_taken);
                            assert(claimed_size(cm.take(i + 1), dirs0, files0) == sum_dir_sizes(taken_d) + sum_file_sizes(taken_f));
                        }
                        size = size + child.meta.size;
                        place_file(&mut files, child);
                    },
                    None => {},
                }
            } else {
                assert(keys_of_kind(cm.take(i + 1), ChildKind::File) == kf);
                assert(keys_of_kind(cm.take(i + 1), ChildKind::Dir) == kd);
            }
            i = i + 1;
        }
        assert(cm.take(children@.len() as int) =~= cm);
        let num_files = files.len() as u64;
        let num_subdir = subdirs.len() as u64;
        let dir = Dir {
            name,
            files,
            subdirs,
            meta: DirMeta { size, created, modified, num_files, num_subdir },
            id,
        };
        assert(built_dir(dir, dir.name, created, modified, id, taken_d, taken_f));
        let mut batch: Option<LiveScanFileBatchEvent> = None;
        let mut entry: Option<LiveScanEntryEvent> = None;
        if self.mode == ScanEventMode::Live {
            proof { if self.pending_count == 0 { lemma_zero_count_empty(self.pending@); } }
            batch = self.flush(true);
            entry = Some(LiveScanEntryEvent {
                entry_type: String::from_str("directory"),
                path: path.clone(),
                parent_path,
                name: dir.name.clone(),
                id: u64_text(id),
                size,
                num_files,
                num_subdir,
                created,
                modified,
            });
        }
        let ghost built = dir;
        let ghost left_dirs = self.dirs@;
        put(&mut self.dirs, path, dir);
        proof {
            assert(taken_d == taken_dirs(children@, dirs0).0);
            assert(left_dirs == taken_dirs(children@, dirs0).1);
            assert(taken_f == taken_files(children@, files0).0);
            assert(built_dir(built, name, created, modified, dir_entry_id(path_text), taken_dirs(children@, dirs0).0, taken_files(children@, files0).0));
            assert(self.dirs@ == put_key(taken_dirs(children@, dirs0).1, path, built));
            lemma_take_keys_figures(keys_of_kind(cm, ChildKind::Dir), dirs0);
            lemma_built_dir_figures(built, name, created, modified, dir_entry_id(path_text), taken_d, taken_f);
            lemma_put_key_figures(left_dirs, path, built);
        }
        (batch, entry)
    }
}

/// Texts of an optional string.
pub open spec fn opt_texts(s: Option<String>) -> Option<Seq<char>> {
    match s {
        Some(t) => Some(t@),
        None => None,
    }
}


/// The directories a listing takes from the waiting list, and what is left.
pub open spec fn taken_dirs(children: Seq<(String, ChildKind)>, dirs: Seq<(String, Dir)>) -> (Seq<Dir>, Seq<(String, Dir)>) {
    take_keys(keys_of_kind(child_texts(children), ChildKind::Dir), dirs)
}

/// The files a listing takes from the waiting list, and what is left.
pub open spec fn taken_files(children: Seq<(String, ChildKind)>, files: Seq<(String, File)>) -> (Seq<File>, Seq<(String, File)>) {
    take_keys(keys_of_kind(child_texts(children), ChildKind::File), files)
}

/// The id of a directory entry.
pub open spec fn dir_entry_id(path_text: Option<String>) -> u64 {
    entry_id(path_text, "thereisnothingthisisjusttestchangelater"@)
}

/// The event announcing a finished directory.
pub open spec fn dir_entry_event(
    e: LiveScanEntryEvent,
    path: String,
    parent_path: Option<String>,
    name: String,
    id: u64,
    created: FsTime,
    modified: FsTime,
    taken_d: Seq<Dir>,
    taken_f: Seq<File>,
) -> bool {
    &&& e.entry_type@ == "directory"@
    &&& e.path@ == path@
    &&& opt_texts(e.parent_path) == opt_texts(parent_path)
    &&& e.name@ == name@
    &&& e.id@ == decimal_text(id as nat)
    &&& e.size == sum_dir_sizes(taken_d) + sum_file_sizes(taken_f)
    &&& e.num_files == place_files(taken_f).len()
    &&& e.num_subdir == place_dirs(taken_d).len()
    &&& e.created == created
    &&& e.modified == modified
}


// ---------------------------------------------------------------------------
// Checking a listing before it is recorded
// ---------------------------------------------------------------------------

/// Sum of a list of byte counts.
pub open spec fn sum_u64(s: Seq<u64>) -> int
    decreases s.len(),
{
    if s.len() == 0 { 0 } else { sum_u64(s.drop_last()) + s.last() }
}

/// The waiting directories with only their sizes.
pub open spec fn dir_size_keys(s: Seq<(String, Dir)>) -> Seq<(String, u64)> {
    s.map_values(|e: (String, Dir)| (e.0, e.1.meta.size))
}

/// The waiting files with only their sizes.
pub open spec fn file_size_keys(s: Seq<(String, File)>) -> Seq<(String, u64)> {
    s.map_values(|e: (String, File)| (e.0, e.1.meta.size))
}

/// Sizes of directories.
pub open spec fn dir_sizes(s: Seq<Dir>) -> Seq<u64> {
    s.map_values(|d: Dir| d.meta.size)
}

/// Sizes of files.
pub open spec fn file_sizes(s: Seq<File>) -> Seq<u64> {
    s.map_values(|f: File| f.meta.size)
}

proof fn lemma_key_index_same<T, U>(a: Seq<(String, T)>, b: Seq<(String, U)>, key: Seq<char>)
    requires
        a.len() == b.len(),
        forall|i: int| 0 <= i < a.len() ==> #[trigger] a[i].0@ == b[i].0@,
        keys_unique(a),
    ensures
        key_index(a, key) == key_index(b, key),
        keys_unique(b),
{
    assert forall|i: int, j: int| 0 <= i < j < b.len() implies (#[trigger] b[i]).0@ != (#[trigger] b[j]).0@ by {
        assert(a[i].0@ != a[j].0@);
        assert(a[i].0@ == b[i].0@);
        assert(a[j].0@ == b[j].0@);
    }
    if exists|k: int| 0 <= k < a.len() && a[k].0@ == key {
        let ka = choose|k: int| 0 <= k < a.len() && a[k].0@ == key;
        assert(b[ka].0@ == key);
        let kb = choose|k: int| 0 <= k < b.len() && b[k].0@ == key;
        assert(a[kb].0@ == key);
        if ka != kb {
            if ka < kb { assert(a[ka].0@ != a[kb].0@); } else { assert(a[kb].0@ != a[ka].0@); }
        }
    } else {
        assert forall|k: int| 0 <= k < b.len() implies b[k].0@ != key by {
            assert(a[k].0@ == b[k].0@);
        }
    }
}

proof fn lemma_take_keys_dir_sizes(keys: Seq<Seq<char>>, s: Seq<(String, Dir)>)
    requires
        keys_unique(s),
    ensures
        take_keys(keys, dir_size_keys(s)).0 == dir_sizes(take_keys(keys, s).0),
        take_keys(keys, dir_size_keys(s)).1 == dir_size_keys(take_keys(keys, s).1),
        keys_unique(take_keys(keys, s).1),
    decreases keys.len(),
{
    if keys.len() > 0 {
        lemma_take_keys_dir_sizes(keys.drop_last(), s);
        let (got, left) = take_keys(keys.drop_last(), s);
        let pl = dir_size_keys(left);
        lemma_key_index_same(left, pl, keys.last());
        match key_index(left, keys.last()) {
            Some(k) => {
                assert(dir_sizes(got.push(left[k].1)) =~= dir_sizes(got).push(pl[k].1));
                assert(dir_size_keys(left.remove(k)) =~= pl.remove(k));
                lemma_remove_keeps_unique(left, k);
            },
            None => {},
        }
    }
}

proof fn lemma_take_keys_file_sizes(keys: Seq<Seq<char>>, s: Seq<(String, File)>)
    requires
        keys_unique(s),
    ensures
        take_keys(keys, file_size_keys(s)).0 == file_sizes(take_keys(keys, s).0),
        take_keys(keys, file_size_keys(s)).1 == file_size_keys(take_keys(keys, s).1),
        keys_unique(take_keys(keys, s).1),
    decreases keys.len(),
{
    if keys.len() > 0 {
        lemma_take_keys_file_sizes(keys.drop_last(), s);
        let (got, left) = take_keys(keys.drop_last(), s);
        let pl = file_size_keys(left);
        lemma_key_index_same(left, pl, keys.last());
        match key_index(left, keys.last()) {
            Some(k) => {
                assert(file_sizes(got.push(left[k].1)) =~= file_sizes(got).push(pl[k].1));
                assert(file_size_keys(left.remove(k)) =~= pl.remove(k));
                lemma_remove_keeps_unique(left, k);
            },
            None => {},
        }
    }
}

proof fn lemma_sum_dir_sizes(s: Seq<Dir>)
    ensures
        sum_u64(dir_sizes(s)) == sum_dir_sizes(s),
    decreases s.len(),
{
    if s.len() > 0 {
        assert(dir_sizes(s).drop_last() =~= dir_sizes(s.drop_last()));
        lemma_sum_dir_sizes(s.drop_last());
    }
}

proof fn lemma_sum_file_sizes(s: Seq<File>)
    ensures
        sum_u64(file_sizes(s)) == sum_file_sizes(s),
    decreases s.len(),
{
    if s.len() > 0 {
        assert(file_sizes(s).drop_last() =~= file_sizes(s.drop_last()));
        lemma_sum_file_sizes(s.drop_last());
    }
}

/// The bytes a listing would collect, stated over the sizes alone.
proof fn lemma_claimed_size_by_sizes(cs: Seq<(Seq<char>, ChildKind)>, dirs: Seq<(String, Dir)>, files: Seq<(String, File)>)
    requires
        keys_unique(dirs),
        keys_unique(files),
    ensures
        claimed_size(cs, dirs, files) == sum_u64(take_keys(keys_of_kind(cs, ChildKind::Dir), dir_size_keys(dirs)).0)
            + sum_u64(take_keys(keys_of_kind(cs, ChildKind::File), file_size_keys(files)).0),
{
    lemma_take_keys_dir_sizes(keys_of_kind(cs, ChildKind::Dir), dirs);
    lemma_take_keys_file_sizes(keys_of_kind(cs, ChildKind::File), files);
    lemma_sum_dir_sizes(take_keys(keys_of_kind(cs, ChildKind::Dir), dirs).0);
    lemma_sum_file_sizes(take_keys(keys_of_kind(cs, ChildKind::File), files).0);
}

impl ScanState {
    /// Whether recording a directory with this listing keeps its size
    /// within `u64`, which `add_dir` requires.
    pub fn can_add_dir(&self, children: &Vec<(String, ChildKind)>) -> (r: bool)
        requires
            self.wf(),
        ensures
            r == (claimed_size(child_texts(children@), self.dirs@, self.files@) <= u64::MAX),
    {
        let ghost cm = child_texts(children@);
        let mut dsz: Vec<(String, u64)> = Vec::new();
        let mut k: usize = 0;
        while k < self.dirs.len()
            invariant
                k <= self.dirs@.len(),
                dsz@ == dir_size_keys(self.dirs@.take(k as int)),
            decreases self.dirs@.len() - k,
        {
            dsz.push((self.dirs[k].0.clone(), self.dirs[k].1.meta.size));
            assert(dsz@ =~= dir_size_keys(self.dirs@.take(k + 1)));
            k = k + 1;
        }
        assert(self.dirs@.take(self.dirs@.len() as int) =~= self.dirs@);
        let mut fsz: Vec<(String, u64)> = Vec::new();
        let mut k: usize = 0;
        while k < self.files.len()
            invariant
                k <= self.files@.len(),
                fsz@ == file_size_keys(self.files@.take(k as int)),
            decreases self.files@.len() - k,
        {
            fsz.push((self.files[k].0.clone(), self.files[k].1.meta.size));
            assert(fsz@ =~= file_size_keys(self.files@.take(k + 1)));
            k = k + 1;
        }
        assert(self.files@.take(self.files@.len() as int) =~= self.files@);
        let ghost d0 = dsz@;
        let ghost f0 = fsz@;
        proof {
            lemma_take_keys_dir_sizes(Seq::empty(), self.dirs@);
            lemma_take_keys_file_sizes(Seq::empty(), self.files@);
            lemma_claimed_size_by_sizes(cm, self.dirs@, self.files@);
        }
        let ghost mut got_d: Seq<u64> = Seq::empty();
        let ghost mut got_f: Seq<u64> = Seq::empty();
        let mut acc: u64 = 0;
        let mut i: usize = 0;
        assert(cm.take(0) =~= Seq::<(Seq<char>, ChildKind)>::empty());
        while i < children.len()
            invariant
                i <= children@.len(),
                cm == child_texts(children@),
                keys_unique(dsz@),
                keys_unique(fsz@),
                take_keys(keys_of_kind(cm.take(i as int), ChildKind::Dir), d0) == (got_d, dsz@),
                take_keys(keys_of_kind(cm.take(i as int), ChildKind::File), f0) == (got_f, fsz@),
                acc == sum_u64(got_d) + sum_u64(got_f),
                d0 == dir_size_keys(self.dirs@),
                f0 == file_size_keys(self.files@),
                keys_unique(self.dirs@),
                keys_unique(self.files@),
            decreases children@.len() - i,
        {
            proof {
                assert(cm.take(i + 1).drop_last() =~= cm.take(i as int));
                assert(cm.take(i + 1).last() == (children@[i as int].0@, children@[i as int].1));
            }
            let kind = children[i].1;
            let ghost key = children@[i as int].0@;
            let ghost kd = keys_of_kind(cm.take(i as int), ChildKind::Dir);
            let ghost kf = keys_of_kind(cm.take(i as int), ChildKind::File);
            let mut add: u64 = 0;
            if kind == ChildKind::Dir {
                assert(keys_of_kind(cm.take(i + 1), ChildKind::Dir) == kd.push(key));
                assert(keys_of_kind(cm.take(i + 1), ChildKind::File) == kf);
                assert(kd.push(key).drop_last() =~= kd);
                match find_key(&dsz, &children[i].0) {
                    Some(k) => {
                        let ghost before = dsz@;
                        let (_, sz) = dsz.remove(k);
                        proof {
                            lemma_remove_keeps_unique(before, k as int);
                            let old_got = got_d;
                            got_d = got_d.push(sz);
                            assert(got_d.drop_last() =~= old_got);
                        }
                        add = sz;
                    },
                    None => {},
                }
            } else if kind == ChildKind::File {
                assert(keys_of_kind(cm.take(i + 1), ChildKind::File) == kf.push(key));
                assert(keys_of_kind(cm.take(i + 1), ChildKind::Dir) == kd);
                assert(kf.push(key).drop_last() =~= kf);
                match find_key(&fsz, &children[i].0) {
                    Some(k) => {
                        let ghost before = fsz@;
                        let (_, sz) = fsz.remove(k);
                        proof {
                            lemma_remove_keeps_unique(before, k as int);
                            let old_got = got_f;
                            got_f = got_f.push(sz);
                            assert(got_f.drop_last() =~= old_got);
                        }
                        add = sz;
                    },
                    None => {},
                }
            } else {
                assert(keys_of_kind(cm.take(i + 1), ChildKind::File) == kf);
                assert(keys_of_kind(cm.take(i + 1), ChildKind::Dir) == kd);
            }
            if add > u64::MAX - acc {
                proof {
                    lemma_claimed_size_by_sizes(cm.take(i + 1), self.dirs@, self.files@);
                    lemma_claimed_size_prefix(cm, i + 1, self.dirs@, self.files@);
                }
                return false;
            }
            acc = acc + add;
            i = i + 1;
        }
        assert(cm.take(children@.len() as int) =~= cm);
        true
    }

    /// Ends the scan. A live scan reports the file counts still waiting.
    /// The scan succeeds when exactly one directory is left waiting: the
    /// root, which the walk visits last, whose figures hold throughout the
    /// tree.
    pub fn finish(self) -> (r: (Option<LiveScanFileBatchEvent>, Result<Dir, AppError>))
        requires
            self.wf(),
        ensures
            self.mode == ScanEventMode::Live && self.pending_count > 0 ==> (r.0 matches Some(b)
                && b.updates@ == self.pending@ && b.entry_count == self.pending_count
                && b.entry_count == sum_counts(b.updates@)),
            !(self.mode == ScanEventMode::Live && self.pending_count > 0) ==> r.0 is None,
            self.dirs@.len() == 1 ==> r.1 == Ok::<Dir, AppError>(self.dirs@[0].1),
            r.1 matches Ok(root) ==> figures_hold(root),
            self.dirs@.len() != 1 ==> (r.1 matches Err(e) && is_logical_error(e, no_single_root_message())),
    {
        let mut state = self;
        let mut batch: Option<LiveScanFileBatchEvent> = None;
        if state.mode == ScanEventMode::Live {
            batch = state.flush(true);
        }
        if state.dirs.len() == 1 {
            let (_, root) = state.dirs.pop().unwrap();
            (batch, Ok(root))
        } else {
            (batch, Err(logical_error("During scan a single root directory for the disk does not exist")))
        }
    }
}

/// Message when the walk did not end in a single root directory.
pub open spec fn no_single_root_message() -> Seq<char> {
    "During scan a single root directory for the disk does not exist"@
}


proof fn lemma_place_dirs_distinct(s: Seq<Dir>)
    requires
        dir_names_unique(s),
    ensures
        place_dirs(s) == s,
    decreases s.len(),
{
    if s.len() > 0 {
        assert forall|i: int, j: int| 0 <= i < j < s.drop_last().len() implies
            (#[trigger] s.drop_last()[i]).name@ != (#[trigger] s.drop_last()[j]).name@ by {
            assert(s[i].name@ != s[j].name@);
        }
        lemma_place_dirs_distinct(s.drop_last());
        assert forall|k: int| 0 <= k < s.drop_last().len() implies s.drop_last()[k].name@ != s.last().name@ by {
            assert(s[k].name@ != s[s.len() - 1].name@);
        }
        assert(s.drop_last().push(s.last()) =~= s);
    }
}

proof fn lemma_place_files_distinct(s: Seq<File>)
    requires
        file_names_unique(s),
    ensures
        place_files(s) == s,
    decreases s.len(),
{
    if s.len() > 0 {
        assert forall|i: int, j: int| 0 <= i < j < s.drop_last().len() implies
            (#[trigger] s.drop_last()[i]).name@ != (#[trigger] s.drop_last()[j]).name@ by {
            assert(s[i].name@ != s[j].name@);
        }
        lemma_place_files_distinct(s.drop_last());
        assert forall|k: int| 0 <= k < s.drop_last().len() implies s.drop_last()[k].name@ != s.last().name@ by {
            assert(s[k].name@ != s[s.len() - 1].name@);
        }
        assert(s.drop_last().push(s.last()) =~= s);
    }
}

/// A directory's size is what its children add up to: when the directories
/// and files taken for it have distinct names (as the entries of one
/// directory on disk do), the size of the built directory is the sum of the
/// sizes of its subdirectories and files, and it holds exactly the children
/// taken.
pub proof fn law_dir_size_is_sum_of_children(
    d: Dir,
    name: String,
    created: FsTime,
    modified: FsTime,
    id: u64,
    taken_d: Seq<Dir>,
    taken_f: Seq<File>,
)
    requires
        built_dir(d, name, created, modified, id, taken_d, taken_f),
        dir_names_unique(taken_d),
        file_names_unique(taken_f),
    ensures
        d.subdirs@ == taken_d,
        d.files@ == taken_f,
        d.meta.size == sum_dir_sizes(d.subdirs@) + sum_file_sizes(d.files@),
        d.meta.num_subdir == taken_d.len(),
        d.meta.num_files == taken_f.len(),
{
    lemma_place_dirs_distinct(taken_d);
    lemma_place_files_distinct(taken_f);
}

} // verus!
