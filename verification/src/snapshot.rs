//! Snapshot files: what their rows turn into on screen, which snapshots can
//! be previewed or compared, how two snapshots' listings are compared, and
//! how snapshot file names are read.

use vstd::prelude::*;
use crate::clock::{minute_stamp_texts, parse_minute_stamp};
use crate::error::{AppError, is_logical_error, logical_error};
use crate::model::{
    DirView, DirViewChildren, DirViewMeta, DirViewMetaDiff, DirViewModel, FileView, FileViewMeta,
    FileViewMetaDiff, FileViewModel, FsTime, SnapshotDbMeta, dir_models, dirs_by_size_desc,
    epoch, file_models, files_by_size_desc, opt_text, unix_epoch,
};
use crate::order::{
    by_date_text, date_key, dated_models, dir_size_key, file_size_key, keeps_order_by_key, sort_by_date_text,
    sort_dir_views_by_size, sort_file_views_by_size,
};
use crate::text::{
    IntParseError, i64_text, parse_i64, parse_i64_spec, parse_u64, parse_u64_spec,
    signed_decimal_text, split_on, split_text, text_le, text_less_eq, copy_text, join_path, joined_path,
};

verus! {

/// Snapshots written with this schema version or later can be previewed
/// and compared.
pub const SNAPSHOT_SCHEMA_VERSION_V2: u8 = 2;

/// One row of the first-generation snapshot table.
#[derive(Clone, Copy, Debug, PartialEq, Eq, Structural)]
pub struct SnapshotRecord {
    pub id: i64,
    pub size: i64,
    pub dir_flag: bool,
    pub sub_folder_count: i64,
    pub sub_file_count: i64,
}

/// What a snapshot file supports, read from its metadata table.
#[derive(Debug, PartialEq, Eq)]
pub struct SnapshotCapability {
    pub schema_version: u8,
    pub can_preview: bool,
    pub can_compare: bool,
    pub root_path: Option<String>,
}

/// One entry (file or directory) of a snapshot.
#[derive(Debug, PartialEq, Eq)]
pub struct SnapshotEntryRow {
    pub id: i64,
    pub name: String,
    pub path: String,
    pub size: i64,
    pub dir_flag: bool,
    pub sub_folder_count: i64,
    pub sub_file_count: i64,
    pub created: i64,
    pub modified: i64,
}

/// The parts of a snapshot's metadata that comparing needs.
#[derive(Debug, PartialEq, Eq)]
pub struct SnapshotMetaRow {
    pub root_path: String,
    pub created_at: String,
}

impl SnapshotEntryRow {
    /// A field-for-field copy.
    pub fn copy(&self) -> (r: SnapshotEntryRow)
        ensures
            r == *self,
    {
        SnapshotEntryRow {
            id: self.id,
            name: self.name.clone(),
            path: self.path.clone(),
            size: self.size,
            dir_flag: self.dir_flag,
            sub_folder_count: self.sub_folder_count,
            sub_file_count: self.sub_file_count,
            created: self.created,
            modified: self.modified,
        }
    }
}

// ---------------------------------------------------------------------------
// Times
// ---------------------------------------------------------------------------

/// Whole seconds since the epoch as a snapshot stores them: times before the
/// epoch are stored as 0; later ones as their whole seconds, cast to `i64`.
pub open spec fn stored_secs(t: FsTime) -> i64 {
    if t.before_epoch { 0 } else { t.secs as i64 }
}

/// The time a stored number of seconds stands for: the epoch for zero or
/// less, otherwise that many seconds after it.
pub open spec fn time_of_secs(secs: i64) -> FsTime {
    if secs <= 0 {
        epoch()
    } else {
        FsTime { before_epoch: false, secs: secs as u64, nanos: 0 }
    }
}

/// Seconds since the epoch, as stored in a snapshot.
pub fn system_time_to_secs(time: FsTime) -> (r: i64)
    ensures
        r == stored_secs(time),
{
    if time.before_epoch {
        0
    } else {
        time.secs as i64
    }
}

/// The time that a stored number of seconds stands for.
pub fn secs_to_system_time(secs: i64) -> (r: FsTime)
    ensures
        r == time_of_secs(secs),
{
    if secs <= 0 {
        unix_epoch()
    } else {
        FsTime { before_epoch: false, secs: secs as u64, nanos: 0 }
    }
}

// ---------------------------------------------------------------------------
// Views of snapshot entries
// ---------------------------------------------------------------------------

/// What an entry shows as a directory, with the given change figures.
pub open spec fn entry_dir_model(entry: SnapshotEntryRow, diff: Option<DirViewMetaDiff>) -> DirViewModel {
    DirViewModel {
        meta: DirViewMeta {
            size: entry.size as u64,
            num_files: entry.sub_file_count as u64,
            num_subdir: entry.sub_folder_count as u64,
            diff: diff,
            created: time_of_secs(entry.created),
            modified: time_of_secs(entry.modified),
        },
        name: entry.name@,
        id: signed_decimal_text(entry.id as int),
        path: Some(entry.path@),
    }
}

/// What an entry shows as a file, with the given change figures.
pub open spec fn entry_file_model(entry: SnapshotEntryRow, diff: Option<FileViewMetaDiff>) -> FileViewModel {
    FileViewModel {
        meta: FileViewMeta {
            size: entry.size as u64,
            diff: diff,
            created: time_of_secs(entry.created),
            modified: time_of_secs(entry.modified),
        },
        name: entry.name@,
        id: signed_decimal_text(entry.id as int),
        path: Some(entry.path@),
    }
}

/// An optional borrowed row, as a value.
pub open spec fn deref_row(r: Option<&SnapshotEntryRow>) -> Option<SnapshotEntryRow> {
    match r {
        Some(x) => Some(*x),
        None => None,
    }
}

/// Change figures of a directory: the flags as given, and the older
/// figures, or zero when there is no older entry.
pub open spec fn dir_change(previous: Option<SnapshotEntryRow>, new_flag: bool, deleted_flag: bool) -> DirViewMetaDiff {
    DirViewMetaDiff {
        new_dir_flag: new_flag,
        deleted_dir_flag: deleted_flag,
        previous_size: match previous { Some(p) => p.size as u64, None => 0 },
        prev_num_files: match previous { Some(p) => p.sub_file_count as u64, None => 0 },
        prev_num_subdir: match previous { Some(p) => p.sub_folder_count as u64, None => 0 },
    }
}

/// Change figures of a file: the flags as given, and the older size, or zero
/// when there is no older entry.
pub open spec fn file_change(previous: Option<SnapshotEntryRow>, new_flag: bool, deleted_flag: bool) -> FileViewMetaDiff {
    FileViewMetaDiff {
        new_file_flag: new_flag,
        deleted_file_flag: deleted_flag,
        previous_size: match previous { Some(p) => p.size as u64, None => 0 },
    }
}

/// Shows a snapshot entry as a directory, with its change against an older
/// entry.
pub fn entry_to_dir_view_with_diff(
    entry: SnapshotEntryRow,
    previous: Option<&SnapshotEntryRow>,
    new_flag: bool,
    deleted_flag: bool,
) -> (r: DirView)
    ensures
        r@ == entry_dir_model(entry, Some(dir_change(deref_row(previous), new_flag, deleted_flag))),
{
    let (previous_size, prev_num_files, prev_num_subdir) = match previous {
        Some(p) => (p.size as u64, p.sub_file_count as u64, p.sub_folder_count as u64),
        None => (0u64, 0u64, 0u64),
    };
    let id = i64_text(entry.id);
    DirView {
        meta: DirViewMeta {
            size: entry.size as u64,
            num_files: entry.sub_file_count as u64,
            num_subdir: entry.sub_folder_count as u64,
            diff: Some(DirViewMetaDiff {
                new_dir_flag: new_flag,
                deleted_dir_flag: deleted_flag,
                previous_size,
                prev_num_files,
                prev_num_subdir,
            }),
            created: secs_to_system_time(entry.created),
            modified: secs_to_system_time(entry.modified),
        },
        name: entry.name,
        id,
        path: Some(entry.path),
    }
}


/// Shows a snapshot entry as a file, with its change against an older entry.
pub fn entry_to_file_view_with_diff(
    entry: SnapshotEntryRow,
    previous: Option<&SnapshotEntryRow>,
    new_flag: bool,
    deleted_flag: bool,
) -> (r: FileView)
    ensures
        r@ == entry_file_model(entry, Some(file_change(deref_row(previous), new_flag, deleted_flag))),
{
    let previous_size = match previous {
        Some(p) => p.size as u64,
        None => 0u64,
    };
    let id = i64_text(entry.id);
    FileView {
        meta: FileViewMeta {
            size: entry.size as u64,
            diff: Some(FileViewMetaDiff {
                new_file_flag: new_flag,
                deleted_file_flag: deleted_flag,
                previous_size,
            }),
            created: secs_to_system_time(entry.created),
            modified: secs_to_system_time(entry.modified),
        },
        name: entry.name,
        id,
        path: Some(entry.path),
    }
}

/// Shows a snapshot entry as a directory, without change figures.
pub fn entry_to_dir_view(entry: SnapshotEntryRow) -> (r: DirView)
    ensures
        r@ == entry_dir_model(entry, None),
{
    let id = i64_text(entry.id);
    DirView {
        meta: DirViewMeta {
            size: entry.size as u64,
            num_files: entry.sub_file_count as u64,
            num_subdir: entry.sub_folder_count as u64,
            diff: None,
            created: secs_to_system_time(entry.created),
            modified: secs_to_system_time(entry.modified),
        },
        name: entry.name,
        id,
        path: Some(entry.path),
    }
}

/// Shows a snapshot entry as a file, without change figures.
pub fn entry_to_file_view(entry: SnapshotEntryRow) -> (r: FileView)
    ensures
        r@ == entry_file_model(entry, None),
{
    let id = i64_text(entry.id);
    FileView {
        meta: FileViewMeta {
            size: entry.size as u64,
            diff: None,
            created: secs_to_system_time(entry.created),
            modified: secs_to_system_time(entry.modified),
        },
        name: entry.name,
        id,
        path: Some(entry.path),
    }
}

// ---------------------------------------------------------------------------
// Capabilities and checks
// ---------------------------------------------------------------------------

/// What a snapshot written before metadata existed supports: nothing beyond
/// listing.
pub open spec fn is_legacy_capability(c: SnapshotCapability) -> bool {
    &&& c.schema_version == 1
    &&& !c.can_preview
    &&& !c.can_compare
    &&& c.root_path is None
}

/// The capability of a snapshot of the first schema.
pub fn legacy_snapshot_capability() -> (r: SnapshotCapability)
    ensures
        is_legacy_capability(r),
{
    SnapshotCapability { schema_version: 1, can_preview: false, can_compare: false, root_path: None }
}

/// What a snapshot supports, from what its file holds: whether both the
/// metadata and the entry tables exist, and the schema version and root path
/// of its first metadata row, if there is one. The schema version is kept
/// as its low byte, as `as u8` does.
pub open spec fn capability_of(tables_present: bool, meta: Option<(i64, Seq<char>)>, c: SnapshotCapability) -> bool {
    match meta {
        Some((version, root)) if tables_present => {
            &&& c.schema_version == version as u8
            &&& c.can_preview == (version as u8 >= SNAPSHOT_SCHEMA_VERSION_V2)
            &&& c.can_compare == (version as u8 >= SNAPSHOT_SCHEMA_VERSION_V2)
            &&& opt_text(c.root_path) == Some(root)
        },
        _ => is_legacy_capability(c),
    }
}

/// The text part of a metadata row.
pub open spec fn meta_text(meta: Option<(i64, String)>) -> Option<(i64, Seq<char>)> {
    match meta {
        Some((v, r)) => Some((v, r@)),
        None => None,
    }
}

/// Decides what a snapshot supports from its tables and first metadata row.
pub fn capability_from_meta(tables_present: bool, meta: Option<(i64, String)>) -> (r: SnapshotCapability)
    ensures
        capability_of(tables_present, meta_text(meta), r),
{
    if !tables_present {
        return legacy_snapshot_capability();
    }
    match meta {
        Some((version, root_path)) => {
            let schema_version = version as u8;
            SnapshotCapability {
                schema_version,
                can_preview: schema_version >= SNAPSHOT_SCHEMA_VERSION_V2,
                can_compare: schema_version >= SNAPSHOT_SCHEMA_VERSION_V2,
                root_path: Some(root_path),
            }
        },
        None => legacy_snapshot_capability(),
    }
}

/// Message when an old snapshot is to be compared.
pub open spec fn not_comparable_message() -> Seq<char> {
    "Old snapshots cannot be compared. Create new snapshots to use compare."@
}

/// Message when an old snapshot is to be previewed.
pub open spec fn not_previewable_message() -> Seq<char> {
    "Old snapshots cannot be previewed. Create a new snapshot to use preview."@
}

/// Message when two snapshots of different roots are to be compared.
pub open spec fn different_roots_message() -> Seq<char> {
    "Snapshots must belong to the same disk or root path."@
}

/// Message when a snapshot's root entry is a file.
pub open spec fn root_not_dir_message() -> Seq<char> {
    "Snapshot root entry is not a directory"@
}

/// Refuses snapshots that cannot be compared.
pub fn require_comparable(capability: &SnapshotCapability) -> (r: Result<(), AppError>)
    ensures
        capability.can_compare ==> r is Ok,
        !capability.can_compare ==> (r matches Err(e) && is_logical_error(e, not_comparable_message())),
{
    if !capability.can_compare {
        return Err(logical_error("Old snapshots cannot be compared. Create new snapshots to use compare."));
    }
    Ok(())
}

/// Refuses snapshots that cannot be previewed.
pub fn require_previewable(capability: &SnapshotCapability) -> (r: Result<(), AppError>)
    ensures
        capability.can_preview ==> r is Ok,
        !capability.can_preview ==> (r matches Err(e) && is_logical_error(e, not_previewable_message())),
{
    if !capability.can_preview {
        return Err(logical_error("Old snapshots cannot be previewed. Create a new snapshot to use preview."));
    }
    Ok(())
}

/// Refuses to compare snapshots of different roots.
pub fn require_same_root(first: &SnapshotMetaRow, second: &SnapshotMetaRow) -> (r: Result<(), AppError>)
    ensures
        first.root_path@ == second.root_path@ ==> r is Ok,
        first.root_path@ != second.root_path@ ==> (r matches Err(e) && is_logical_error(e, different_roots_message())),
{
    if first.root_path != second.root_path {
        return Err(logical_error("Snapshots must belong to the same disk or root path."));
    }
    Ok(())
}

/// Orders two snapshots newest first by their creation text: the first stays
/// first when its text is not smaller than the second's.
pub fn order_snapshot_paths_by_created_at(
    first_path: String,
    first_created_at: &str,
    second_path: String,
    second_created_at: &str,
) -> (r: (String, String))
    ensures
        text_le(second_created_at@, first_created_at@) ==> r == (first_path, second_path),
        !text_le(second_created_at@, first_created_at@) ==> r == (second_path, first_path),
{
    if text_less_eq(second_created_at, first_created_at) {
        (first_path, second_path)
    } else {
        (second_path, first_path)
    }
}

/// The root view of a snapshot preview; a root entry that is a file is
/// refused.
pub fn preview_root(root: SnapshotEntryRow) -> (r: Result<DirView, AppError>)
    ensures
        root.dir_flag ==> (r matches Ok(v) && v@ == entry_dir_model(root, None)),
        !root.dir_flag ==> (r matches Err(e) && is_logical_error(e, root_not_dir_message())),
{
    if !root.dir_flag {
        return Err(logical_error("Snapshot root entry is not a directory"));
    }
    Ok(entry_to_dir_view(root))
}

/// The root view of a comparison: the newer root with its change against
/// the older root.
pub fn compare_roots(newer_root: SnapshotEntryRow, older_root: &SnapshotEntryRow) -> (r: DirView)
    ensures
        r@ == entry_dir_model(newer_root, Some(dir_change(Some(*older_root), false, false))),
{
    entry_to_dir_view_with_diff(newer_root, Some(older_root), false, false)
}


// ---------------------------------------------------------------------------
// Listings
// ---------------------------------------------------------------------------

/// The directory views of the directory entries among `s`, in order,
/// without change figures.
pub open spec fn plain_dir_models(s: Seq<SnapshotEntryRow>) -> Seq<DirViewModel>
    decreases s.len(),
{
    if s.len() == 0 {
        Seq::empty()
    } else if s.last().dir_flag {
        plain_dir_models(s.drop_last()).push(entry_dir_model(s.last(), None))
    } else {
        plain_dir_models(s.drop_last())
    }
}

/// The file views of the file entries among `s`, in order, without change
/// figures.
pub open spec fn plain_file_models(s: Seq<SnapshotEntryRow>) -> Seq<FileViewModel>
    decreases s.len(),
{
    if s.len() == 0 {
        Seq::empty()
    } else if !s.last().dir_flag {
        plain_file_models(s.drop_last()).push(entry_file_model(s.last(), None))
    } else {
        plain_file_models(s.drop_last())
    }
}

/// Lists the children of a snapshot directory: directories and files apart,
/// each largest first, entries of equal size in the order given.
pub fn children_views(entries: Vec<SnapshotEntryRow>) -> (r: DirViewChildren)
    ensures
        dir_models(r.subdirviews@).to_multiset() == plain_dir_models(entries@).to_multiset(),
        dirs_by_size_desc(dir_models(r.subdirviews@)),
        keeps_order_by_key(plain_dir_models(entries@), dir_models(r.subdirviews@), dir_size_key()),
        file_models(r.files@).to_multiset() == plain_file_models(entries@).to_multiset(),
        files_by_size_desc(file_models(r.files@)),
        keeps_order_by_key(plain_file_models(entries@), file_models(r.files@), file_size_key()),
{
    let mut dir_views: Vec<DirView> = Vec::new();
    let mut file_views: Vec<FileView> = Vec::new();
    let mut i: usize = 0;
    while i < entries.len()
        invariant
            i <= entries@.len(),
            dir_models(dir_views@) == plain_dir_models(entries@.take(i as int)),
            file_models(file_views@) == plain_file_models(entries@.take(i as int)),
        decreases entries@.len() - i,
    {
        let entry = entries[i].copy();
        assert(entries@.take(i + 1).drop_last() =~= entries@.take(i as int));
        if entry.dir_flag {
            let v = entry_to_dir_view(entry);
            dir_views.push(v);
            assert(dir_models(dir_views@) =~= plain_dir_models(entries@.take(i as int)).push(v@));
        } else {
            let v = entry_to_file_view(entry);
            file_views.push(v);
            assert(file_models(file_views@) =~= plain_file_models(entries@.take(i as int)).push(v@));
        }
        i = i + 1;
    }
    assert(entries@.take(entries@.len() as int) =~= entries@);
    let subdirviews = sort_dir_views_by_size(dir_views);
    let files = sort_file_views_by_size(file_views);
    DirViewChildren { subdirviews, files }
}

/// `k` is the first position in `pool` of an entry with this id.
pub open spec fn first_with_id(pool: Seq<SnapshotEntryRow>, id: i64, k: int) -> bool {
    &&& 0 <= k < pool.len()
    &&& pool[k].id == id
    &&& forall|j: int| 0 <= j < k ==> #[trigger] pool[j].id != id
}

/// The first position in `pool` of an entry with this id, if any.
pub open spec fn find_row(pool: Seq<SnapshotEntryRow>, id: i64) -> Option<int> {
    if exists|k: int| first_with_id(pool, id, k) {
        Some(choose|k: int| first_with_id(pool, id, k))
    } else {
        None
    }
}

proof fn lemma_first_with_id_unique(pool: Seq<SnapshotEntryRow>, id: i64, k: int)
    requires
        first_with_id(pool, id, k),
    ensures
        find_row(pool, id) == Some(k),
{
    let c = choose|k: int| first_with_id(pool, id, k);
    if c < k {
        assert(pool[c].id != id);
    }
    if k < c {
        assert(pool[k].id != id);
    }
}

fn find_row_index(pool: &Vec<SnapshotEntryRow>, id: i64) -> (r: Option<usize>)
    ensures
        match r {
            Some(k) => find_row(pool@, id) == Some(k as int),
            None => find_row(pool@, id) is None,
        },
{
    let mut i: usize = 0;
    while i < pool.len()
        invariant
            i <= pool@.len(),
            forall|j: int| 0 <= j < i ==> #[trigger] pool@[j].id != id,
        decreases pool@.len() - i,
    {
        if pool[i].id == id {
            proof { lemma_first_with_id_unique(pool@, id, i as int); }
            return Some(i);
        }
        i = i + 1;
    }
    assert(!exists|k: int| first_with_id(pool@, id, k));
    None
}

/// The older entries by id: each id once, with the last entry that has it,
/// in the order in which the ids first occur.
pub open spec fn older_pool(older: Seq<SnapshotEntryRow>) -> Seq<SnapshotEntryRow>
    decreases older.len(),
{
    if older.len() == 0 {
        Seq::empty()
    } else {
        let prev = older_pool(older.drop_last());
        let o = older.last();
        match find_row(prev, o.id) {
            Some(k) => prev.update(k, o),
            None => prev.push(o),
        }
    }
}

/// The state of a comparison after some newer entries: their views, and
/// the older entries not yet matched.
pub struct DiffPass {
    pub dirs: Seq<DirViewModel>,
    pub files: Seq<FileViewModel>,
    pub pool: Seq<SnapshotEntryRow>,
}

/// Goes through the newer entries in order. Each takes the older entry with
/// its id out of the pool, if there is one, and shows its change against
/// it; it is new when there is none.
pub open spec fn diff_pass(newer: Seq<SnapshotEntryRow>, pool: Seq<SnapshotEntryRow>) -> DiffPass
    decreases newer.len(),
{
    if newer.len() == 0 {
        DiffPass { dirs: Seq::empty(), files: Seq::empty(), pool: pool }
    } else {
        let p = diff_pass(newer.drop_last(), pool);
        let n = newer.last();
        let found = find_row(p.pool, n.id);
        let matched = match found {
            Some(k) => Some(p.pool[k]),
            None => None::<SnapshotEntryRow>,
        };
        let rest = match found {
            Some(k) => p.pool.remove(k),
            None => p.pool,
        };
        if n.dir_flag {
            DiffPass {
                dirs: p.dirs.push(entry_dir_model(n, Some(dir_change(matched, matched is None, false)))),
                files: p.files,
                pool: rest,
            }
        } else {
            DiffPass {
                dirs: p.dirs,
                files: p.files.push(entry_file_model(n, Some(file_change(matched, matched is None, false)))),
                pool: rest,
            }
        }
    }
}

/// Views of the directories among older entries that no newer entry
/// matched: marked deleted.
pub open spec fn deleted_dir_models(s: Seq<SnapshotEntryRow>) -> Seq<DirViewModel>
    decreases s.len(),
{
    if s.len() == 0 {
        Seq::empty()
    } else if s.last().dir_flag {
        deleted_dir_models(s.drop_last()).push(entry_dir_model(s.last(), Some(dir_change(None, false, true))))
    } else {
        deleted_dir_models(s.drop_last())
    }
}

/// Views of the files among older entries that no newer entry matched:
/// marked deleted.
pub open spec fn deleted_file_models(s: Seq<SnapshotEntryRow>) -> Seq<FileViewModel>
    decreases s.len(),
{
    if s.len() == 0 {
        Seq::empty()
    } else if !s.last().dir_flag {
        deleted_file_models(s.drop_last()).push(entry_file_model(s.last(), Some(file_change(None, false, true))))
    } else {
        deleted_file_models(s.drop_last())
    }
}

/// Compares the children of one directory in two snapshots. Entries are
/// matched by id: newer entries show their change against the older entry
/// with their id (new when there is none), older entries left unmatched
/// show as deleted. Directories and files apart, each largest first; among
/// views of equal size the newer entries come first, in their order, then
/// the deleted ones, in the order their ids first occur in the older list.
pub fn diff_snapshot_children(
    newer_children: Vec<SnapshotEntryRow>,
    older_children: Vec<SnapshotEntryRow>,
) -> (r: DirViewChildren)
    ensures
        ({
            let p = diff_pass(newer_children@, older_pool(older_children@));
            &&& dir_models(r.subdirviews@).to_multiset() == (p.dirs + deleted_dir_models(p.pool)).to_multiset()
            &&& keeps_order_by_key(p.dirs + deleted_dir_models(p.pool), dir_models(r.subdirviews@), dir_size_key())
            &&& file_models(r.files@).to_multiset() == (p.files + deleted_file_models(p.pool)).to_multiset()
            &&& keeps_order_by_key(p.files + deleted_file_models(p.pool), file_models(r.files@), file_size_key())
        }),
        dirs_by_size_desc(dir_models(r.subdirviews@)),
        files_by_size_desc(file_models(r.files@)),
{
    let mut pool: Vec<SnapshotEntryRow> = Vec::new();
    let mut i: usize = 0;
    while i < older_children.len()
        invariant
            i <= older_children@.len(),
            pool@ == older_pool(older_children@.take(i as int)),
        decreases older_children@.len() - i,
    {
        let o = older_children[i].copy();
        assert(older_children@.take(i + 1).drop_last() =~= older_children@.take(i as int));
        match find_row_index(&pool, o.id) {
            Some(k) => {
                pool.set(k, o);
            },
            None => {
                pool.push(o);
            },
        }
        i = i + 1;
    }
    assert(older_children@.take(older_children@.len() as int) =~= older_children@);
    let ghost pool0 = pool@;

    let mut dir_views: Vec<DirView> = Vec::new();
    let mut file_views: Vec<FileView> = Vec::new();
    let mut i: usize = 0;
    while i < newer_children.len()
        invariant
            i <= newer_children@.len(),
            ({
                let p = diff_pass(newer_children@.take(i as int), pool0);
                &&& dir_models(dir_views@) == p.dirs
                &&& file_models(file_views@) == p.files
                &&& pool@ == p.pool
            }),
        decreases newer_children@.len() - i,
    {
        let n = newer_children[i].copy();
        assert(newer_children@.take(i + 1).drop_last() =~= newer_children@.take(i as int));
        let ghost before = pool@;
        let found = find_row_index(&pool, n.id);
        let older_entry: Option<SnapshotEntryRow> = match found {
            Some(k) => Some(pool.remove(k)),
            None => None,
        };
        let new_flag = older_entry.is_none();
        proof {
            if let Some(k) = found {
                assert(pool@ =~= before.remove(k as int));
            }
        }
        if n.dir_flag {
            let v = entry_to_dir_view_with_diff(n, older_entry.as_ref(), new_flag, false);
            dir_views.push(v);
            assert(dir_models(dir_views@) =~= diff_pass(newer_children@.take(i as int), pool0).dirs.push(v@));
        } else {
            let v = entry_to_file_view_with_diff(n, older_entry.as_ref(), new_flag, false);
            file_views.push(v);
            assert(file_models(file_views@) =~= diff_pass(newer_children@.take(i as int), pool0).files.push(v@));
        }
        i = i + 1;
    }
    assert(newer_children@.take(newer_children@.len() as int) =~= newer_children@);
    let ghost p = diff_pass(newer_children@, pool0);

    let mut j: usize = 0;
    while j < pool.len()
        invariant
            j <= pool@.len(),
            pool@ == p.pool,
            dir_models(dir_views@) == p.dirs + deleted_dir_models(pool@.take(j as int)),
            file_models(file_views@) == p.files + deleted_file_models(pool@.take(j as int)),
        decreases pool@.len() - j,
    {
        let o = pool[j].copy();
        assert(pool@.take(j + 1).drop_last() =~= pool@.take(j as int));
        assert(pool@.take(j + 1).last() == o);
        if o.dir_flag {
            let v = entry_to_dir_view_with_diff(o, None, false, true);
            assert(deleted_dir_models(pool@.take(j + 1)) == deleted_dir_models(pool@.take(j as int)).push(v@));
            assert(deleted_file_models(pool@.take(j + 1)) == deleted_file_models(pool@.take(j as int)));
            let ghost old_models = dir_models(dir_views@);
            dir_views.push(v);
            assert(dir_models(dir_views@) =~= old_models.push(v@));
            assert(old_models.push(v@) =~= p.dirs + deleted_dir_models(pool@.take(j + 1)));
        } else {
            let v = entry_to_file_view_with_diff(o, None, false, true);
            assert(deleted_file_models(pool@.take(j + 1)) == deleted_file_models(pool@.take(j as int)).push(v@));
            assert(deleted_dir_models(pool@.take(j + 1)) == deleted_dir_models(pool@.take(j as int)));
            let ghost old_models = file_models(file_views@);
            file_views.push(v);
            assert(file_models(file_views@) =~= old_models.push(v@));
            assert(old_models.push(v@) =~= p.files + deleted_file_models(pool@.take(j + 1)));
        }
        j = j + 1;
    }
    assert(pool@.take(pool@.len() as int) =~= pool@);
    let subdirviews = sort_dir_views_by_size(dir_views);
    let files = sort_file_views_by_size(file_views);
    DirViewChildren { subdirviews, files }
}


// ---------------------------------------------------------------------------
// Snapshot file names and per-path history
// ---------------------------------------------------------------------------

/// Reads a directory id sent back by the user interface.
pub fn parse_parent_id(text: &str) -> (r: Result<i64, AppError>)
    ensures
        match parse_i64_spec(text@) {
            Ok(v) => r == Ok::<i64, AppError>(v),
            Err(k) => r == Err::<i64, AppError>(AppError::IntParse(k)),
        },
{
    match parse_i64(text) {
        Ok(v) => Ok(v),
        Err(k) => Err(AppError::IntParse(k)),
    }
}

/// Message for a snapshot file name that is not `disk_stamp_size`.
pub open spec fn invalid_snapshot_name_message() -> Seq<char> {
    "Invalid formatted snapshot file found in app local storage. Restart App."@
}

/// Message for a malformed snapshot file name met while collecting history.
pub open spec fn malformed_snapshot_name_message() -> Seq<char> {
    "Cannot parse malformed snapshot filename. Restart application"@
}

/// What a snapshot file name (without extension) describes. It must have
/// exactly three parts separated by `_`: the disk, the `YYYYmmddHHMM`
/// stamp and the total size. The stamp is read as a date, then as a number
/// for sorting, then the size as a number; the first failure decides the
/// error. The capability fields are those of a first-schema snapshot until
/// the file itself is read.
pub open spec fn snapshot_name_meta(stem: Seq<char>, r: Result<SnapshotDbMeta, AppError>) -> bool {
    let pieces = split_text(stem, '_');
    if pieces.len() != 3 {
        r matches Err(e) && is_logical_error(e, invalid_snapshot_name_message())
    } else {
        match minute_stamp_texts(pieces[1]) {
            Err(msg) => r matches Err(AppError::DateParse(m)) && m@ == msg,
            Ok((shown, _day)) => match parse_u64_spec(pieces[1]) {
                Err(k) => r == Err::<SnapshotDbMeta, AppError>(AppError::IntParse(k)),
                Ok(key) => match parse_u64_spec(pieces[2]) {
                    Err(k) => r == Err::<SnapshotDbMeta, AppError>(AppError::IntParse(k)),
                    Ok(size) => r matches Ok(m) && {
                        &&& m.drive_letter@ == pieces[0]
                        &&& m.date_time@ == shown
                        &&& m.date_sort_key == key
                        &&& m.size == size
                        &&& m.schema_version == 1
                        &&& !m.can_preview
                        &&& !m.can_compare
                        &&& m.root_path is None
                    },
                },
            },
        }
    }
}

/// Reads what a snapshot file name describes.
pub fn parse_snapshot_file_name(stem: &str) -> (r: Result<SnapshotDbMeta, AppError>)
    ensures
        snapshot_name_meta(stem@, r),
{
    let pieces = split_on(stem, '_');
    if pieces.len() != 3 {
        return Err(logical_error("Invalid formatted snapshot file found in app local storage. Restart App."));
    }
    let date_time = match parse_minute_stamp(pieces[1].as_str()) {
        Ok((shown, _day)) => shown,
        Err(msg) => {
            return Err(AppError::DateParse(msg));
        },
    };
    let date_sort_key = match parse_u64(pieces[1].as_str()) {
        Ok(v) => v,
        Err(k) => {
            return Err(AppError::IntParse(k));
        },
    };
    let size = match parse_u64(pieces[2].as_str()) {
        Ok(v) => v,
        Err(k) => {
            return Err(AppError::IntParse(k));
        },
    };
    Ok(SnapshotDbMeta {
        drive_letter: copy_text(&pieces[0]),
        date_time,
        date_sort_key,
        size,
        schema_version: 1,
        can_preview: false,
        can_compare: false,
        root_path: None,
    })
}

/// A snapshot's listing entry completed with what its file supports.
pub fn with_capability(meta: SnapshotDbMeta, capability: SnapshotCapability) -> (r: SnapshotDbMeta)
    ensures
        r.drive_letter == meta.drive_letter,
        r.date_time == meta.date_time,
        r.date_sort_key == meta.date_sort_key,
        r.size == meta.size,
        r.schema_version == capability.schema_version,
        r.can_preview == capability.can_preview,
        r.can_compare == capability.can_compare,
        r.root_path == capability.root_path,
{
    let mut meta = meta;
    meta.schema_version = capability.schema_version;
    meta.can_preview = capability.can_preview;
    meta.can_compare = capability.can_compare;
    meta.root_path = capability.root_path;
    meta
}

/// Why collecting the history of a path stopped.
pub enum HistoryFailure {
    MalformedName,
    BadDate(Seq<char>),
}

/// The texts of the history inputs: each snapshot file name with the size
/// recorded there for the path, if the snapshot holds it.
pub open spec fn history_inputs(s: Seq<(String, Option<i64>)>) -> Seq<(Seq<char>, Option<i64>)> {
    s.map_values(|e: (String, Option<i64>)| (e.0@, e.1))
}

/// The dated sizes of a path, snapshot by snapshot, in the order given. A
/// file name that is not three `_`-separated parts stops the walk; so does
/// the stamp of a snapshot that holds the path when it is not a date. A
/// snapshot that does not hold the path adds nothing.
pub open spec fn history_points(entries: Seq<(Seq<char>, Option<i64>)>) -> Result<Seq<(Seq<char>, i64)>, HistoryFailure>
    decreases entries.len(),
{
    if entries.len() == 0 {
        Ok(Seq::empty())
    } else {
        match history_points(entries.drop_last()) {
            Err(f) => Err(f),
            Ok(points) => {
                let (stem, stat) = entries.last();
                let pieces = split_text(stem, '_');
                if pieces.len() != 3 {
                    Err(HistoryFailure::MalformedName)
                } else {
                    match stat {
                        None => Ok(points),
                        Some(size) => match minute_stamp_texts(pieces[1]) {
                            Err(msg) => Err(HistoryFailure::BadDate(msg)),
                            Ok((_shown, day)) => Ok(points.push((day, size))),
                        },
                    }
                }
            },
        }
    }
}

/// The size history of one path across snapshots, earliest day first;
/// points of the same day in the order of the snapshots given.
pub fn path_history(entries: Vec<(String, Option<i64>)>) -> (r: Result<Vec<(String, i64)>, AppError>)
    ensures
        match history_points(history_inputs(entries@)) {
            Ok(points) => r matches Ok(v) && dated_models(v@).to_multiset() == points.to_multiset()
                && by_date_text(dated_models(v@))
                && keeps_order_by_key(points, dated_models(v@), date_key()),
            Err(HistoryFailure::MalformedName) => r matches Err(e) && is_logical_error(e, malformed_snapshot_name_message()),
            Err(HistoryFailure::BadDate(msg)) => r matches Err(AppError::DateParse(m)) && m@ == msg,
        },
{
    let mut points: Vec<(String, i64)> = Vec::new();
    let mut i: usize = 0;
    assert(history_inputs(entries@).take(0) =~= Seq::<(Seq<char>, Option<i64>)>::empty());
    assert(dated_models(points@) =~= Seq::<(Seq<char>, i64)>::empty());
    while i < entries.len()
        invariant
            i <= entries@.len(),
            history_points(history_inputs(entries@).take(i as int)) == Ok::<Seq<(Seq<char>, i64)>, HistoryFailure>(dated_models(points@)),
        decreases entries@.len() - i,
    {
        assert(history_inputs(entries@).take(i + 1).drop_last() =~= history_inputs(entries@).take(i as int));
        assert(history_inputs(entries@).take(i + 1).last() == (entries@[i as int].0@, entries@[i as int].1));
        let pieces = split_on(entries[i].0.as_str(), '_');
        if pieces.len() != 3 {
            proof {
                lemma_history_stops(history_inputs(entries@), i as int);
            }
            return Err(logical_error("Cannot parse malformed snapshot filename. Restart application"));
        }
        match entries[i].1 {
            None => {},
            Some(size) => {
                match parse_minute_stamp(pieces[1].as_str()) {
                    Ok((_shown, day)) => {
                        let ghost old_points = dated_models(points@);
                        points.push((day, size));
                        assert(dated_models(points@) =~= old_points.push((day@, size)));
                    },
                    Err(msg) => {
                        proof {
                            lemma_history_stops(history_inputs(entries@), i as int);
                        }
                        return Err(AppError::DateParse(msg));
                    },
                }
            },
        }
        i = i + 1;
    }
    assert(history_inputs(entries@).take(entries@.len() as int) =~= history_inputs(entries@));
    Ok(sort_by_date_text(points))
}

/// Once the walk stops at an entry, the whole history stops there.
proof fn lemma_history_stops(entries: Seq<(Seq<char>, Option<i64>)>, i: int)
    requires
        0 <= i < entries.len(),
        history_points(entries.take(i + 1)) is Err,
    ensures
        history_points(entries) == history_points(entries.take(i + 1)),
    decreases entries.len() - i,
{
    if i + 1 < entries.len() {
        assert(entries.drop_last().take(i + 1) =~= entries.take(i + 1));
        lemma_history_stops(entries.drop_last(), i);
    } else {
        assert(entries.take(i + 1) =~= entries);
    }
}

/// The figures recorded for an id in an older snapshot; a directory with no
/// content when the snapshot does not hold the id. The id is stored as the
/// signed reading of its bits.
pub fn stats_or_default(id: u64, fetched: Option<SnapshotRecord>) -> (r: SnapshotRecord)
    ensures
        match fetched {
            Some(rec) => r == rec,
            None => r == SnapshotRecord { id: id as i64, size: 0, dir_flag: true, sub_folder_count: 0, sub_file_count: 0 },
        },
{
    match fetched {
        Some(rec) => rec,
        None => SnapshotRecord { id: id as i64, size: 0, dir_flag: true, sub_folder_count: 0, sub_file_count: 0 },
    }
}


/// The directory that holds the snapshot files, inside the application data
/// directory.
pub const SNAPSHOT_DIR_NAME: &'static str = "tempsnapshot";

/// Where the snapshot directory lives.
pub fn snapshot_dir_path(local_appdata_path: &str) -> (r: String)
    ensures
        joined_path(local_appdata_path@, SNAPSHOT_DIR_NAME@, r@),
{
    join_path(local_appdata_path, SNAPSHOT_DIR_NAME)
}

/// Where the snapshot file with this name (without `.db`) lives: the
/// snapshot directory joined with the name and its extension.
pub fn snapshot_db_path(local_appdata_path: &str, snapshot_file_name: &str) -> (r: String)
    ensures
        exists|dir: Seq<char>| joined_path(local_appdata_path@, SNAPSHOT_DIR_NAME@, dir)
            && #[trigger] joined_path(dir, snapshot_file_name@ + ".db"@, r@),
{
    let dir = snapshot_dir_path(local_appdata_path);
    let mut file = snapshot_file_name.to_owned();
    file.append(".db");
    let r = join_path(dir.as_str(), file.as_str());
    assert(joined_path(dir@, snapshot_file_name@ + ".db"@, r@));
    r
}


// ---------------------------------------------------------------------------
// Law: a listing compared with itself shows no change
// ---------------------------------------------------------------------------

/// No id occurs twice.
pub open spec fn ids_unique(x: Seq<SnapshotEntryRow>) -> bool {
    forall|i: int, j: int| 0 <= i < j < x.len() ==> (#[trigger] x[i]).id != (#[trigger] x[j]).id
}

/// Directory views showing each directory entry unchanged against itself.
pub open spec fn unchanged_dir_models(x: Seq<SnapshotEntryRow>) -> Seq<DirViewModel>
    decreases x.len(),
{
    if x.len() == 0 {
        Seq::empty()
    } else if x.last().dir_flag {
        unchanged_dir_models(x.drop_last()).push(entry_dir_model(x.last(), Some(dir_change(Some(x.last()), false, false))))
    } else {
        unchanged_dir_models(x.drop_last())
    }
}

/// File views showing each file entry unchanged against itself.
pub open spec fn unchanged_file_models(x: Seq<SnapshotEntryRow>) -> Seq<FileViewModel>
    decreases x.len(),
{
    if x.len() == 0 {
        Seq::empty()
    } else if !x.last().dir_flag {
        unchanged_file_models(x.drop_last()).push(entry_file_model(x.last(), Some(file_change(Some(x.last()), false, false))))
    } else {
        unchanged_file_models(x.drop_last())
    }
}

proof fn lemma_older_pool_unique(x: Seq<SnapshotEntryRow>)
    requires
        ids_unique(x),
    ensures
        older_pool(x) == x,
    decreases x.len(),
{
    if x.len() > 0 {
        let d = x.drop_last();
        assert forall|i: int, j: int| 0 <= i < j < d.len() implies (#[trigger] d[i]).id != (#[trigger] d[j]).id by {
            assert(x[i].id != x[j].id);
        }
        lemma_older_pool_unique(d);
        assert(!exists|k: int| first_with_id(d, x.last().id, k)) by {
            if exists|k: int| first_with_id(d, x.last().id, k) {
                let k = choose|k: int| first_with_id(d, x.last().id, k);
                assert(x[k].id != x[x.len() - 1].id);
            }
        }
        assert(d.push(x.last()) =~= x);
    }
}

proof fn lemma_self_pass(x: Seq<SnapshotEntryRow>, i: int)
    requires
        ids_unique(x),
        0 <= i <= x.len(),
    ensures
        diff_pass(x.take(i), x).pool == x.skip(i),
        diff_pass(x.take(i), x).dirs == unchanged_dir_models(x.take(i)),
        diff_pass(x.take(i), x).files == unchanged_file_models(x.take(i)),
    decreases i,
{
    if i == 0 {
        assert(x.take(0) =~= Seq::<SnapshotEntryRow>::empty());
        assert(x.skip(0) =~= x);
    } else {
        lemma_self_pass(x, i - 1);
        assert(x.take(i).drop_last() =~= x.take(i - 1));
        assert(x.take(i).last() == x[i - 1]);
        let pool = x.skip(i - 1);
        assert(first_with_id(pool, x[i - 1].id, 0));
        lemma_first_with_id_unique(pool, x[i - 1].id, 0);
        assert(pool.remove(0) =~= x.skip(i));
    }
}

/// Comparing a snapshot listing with itself shows no change: when no id
/// occurs twice, no entry is marked new or deleted, each entry's earlier
/// figures are its own, and nothing is left over.
pub proof fn law_self_comparison_shows_no_change(x: Seq<SnapshotEntryRow>)
    requires
        ids_unique(x),
    ensures
        diff_pass(x, older_pool(x)).pool.len() == 0,
        diff_pass(x, older_pool(x)).dirs == unchanged_dir_models(x),
        diff_pass(x, older_pool(x)).files == unchanged_file_models(x),
{
    lemma_older_pool_unique(x);
    lemma_self_pass(x, x.len() as int);
    assert(x.take(x.len() as int) =~= x);
    assert(x.skip(x.len() as int) =~= Seq::<SnapshotEntryRow>::empty());
}

/// The ids shown for snapshot entries read back as those entries' ids when
/// the user interface sends them as a parent id.
pub proof fn law_entry_id_round_trip(entry: SnapshotEntryRow, diff: Option<DirViewMetaDiff>)
    ensures
        parse_i64_spec(entry_dir_model(entry, diff).id) == Ok::<i64, IntParseError>(entry.id),
{
    crate::text::law_i64_text_round_trip(entry.id);
}

} // verus!
