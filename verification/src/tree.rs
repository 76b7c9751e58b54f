//! The scanned directory tree: flattening it into snapshot rows, naming the
//! snapshot file, showing directories, and walking down to a directory.

use vstd::prelude::*;
use crate::model::{
    Dir, DirView, DirViewChildren, DirViewMeta, DirViewMetaDiff, DirViewModel, File, FileView, FileViewMeta,
    FileViewMetaDiff,
    FileViewModel, FsTime, dir_models, dirs_by_size_desc, file_models, files_by_size_desc,
};
use crate::order::{dir_size_key, file_size_key, keeps_order_by_key, sort_dir_views_by_size, sort_file_views_by_size};
use crate::snapshot::{SNAPSHOT_SCHEMA_VERSION_V2, stored_secs, system_time_to_secs};
use crate::clock::{local_now_stamps, same_local_minute, stamp_chars};
use crate::error::{AppError, is_logical_error, logical_error};
use crate::clock::minute_stamp_texts;
use crate::snapshot::{SnapshotEntryRow, SnapshotRecord, entry_dir_model, snapshot_name_meta, time_of_secs};
use crate::model::SnapshotDbMeta;
use crate::text::{
    chars_of, decimal_text, digit_char, join_path, joined_path, push_char, string_from_chars, u64_text,
    is_digit, lemma_split_join, lemma_split_without_sep, law_u64_text_round_trip, parse_u64_spec,
    signed_decimal_text, split_text,
};

verus! {

/// One entry of a snapshot as it is written: into the entries table in
/// full, and into the first-generation table without name and path.
#[derive(Debug, PartialEq, Eq)]
pub struct SnapshotRow {
    pub id: i64,
    pub parent_id: Option<i64>,
    pub name: String,
    pub path: String,
    pub size: i64,
    pub dir_flag: bool,
    pub sub_folder_count: i64,
    pub sub_file_count: i64,
    pub created: i64,
    pub modified: i64,
}

/// A snapshot row without its path, the part fixed by the tree alone.
pub struct RowCore {
    pub id: i64,
    pub parent_id: Option<i64>,
    pub name: Seq<char>,
    pub size: i64,
    pub dir_flag: bool,
    pub sub_folder_count: i64,
    pub sub_file_count: i64,
    pub created: i64,
    pub modified: i64,
}

impl SnapshotRow {
    /// The row without its path.
    pub open spec fn fixed_part(self) -> RowCore {
        RowCore {
            id: self.id,
            parent_id: self.parent_id,
            name: self.name@,
            size: self.size,
            dir_flag: self.dir_flag,
            sub_folder_count: self.sub_folder_count,
            sub_file_count: self.sub_file_count,
            created: self.created,
            modified: self.modified,
        }
    }

    /// The parent id written to the first-generation table, where a root
    /// has parent 0.
    pub fn legacy_parent_id(&self) -> (r: i64)
        ensures
            r == match self.parent_id { Some(p) => p, None => 0 },
    {
        match self.parent_id {
            Some(p) => p,
            None => 0,
        }
    }
}

/// The row of a file under the given parent. Ids and sizes are stored as
/// the signed reading of their bits.
pub open spec fn file_core(f: File, parent: Option<i64>) -> RowCore {
    RowCore {
        id: f.id as i64,
        parent_id: parent,
        name: f.name@,
        size: f.meta.size as i64,
        dir_flag: false,
        sub_folder_count: 0,
        sub_file_count: 0,
        created: stored_secs(f.meta.created),
        modified: stored_secs(f.meta.modified),
    }
}

/// The row of a directory under the given parent.
pub open spec fn dir_core(d: Dir, parent: Option<i64>) -> RowCore {
    RowCore {
        id: d.id as i64,
        parent_id: parent,
        name: d.name@,
        size: d.meta.size as i64,
        dir_flag: true,
        sub_folder_count: d.meta.num_subdir as i64,
        sub_file_count: d.meta.num_files as i64,
        created: stored_secs(d.meta.created),
        modified: stored_secs(d.meta.modified),
    }
}

/// The rows of a directory and everything below it, depth first: the
/// directory, then its subdirectories from the last to the first, each with
/// everything below it, then its files from the last to the first.
pub open spec fn dir_rows(d: Dir, parent: Option<i64>) -> Seq<RowCore>
    decreases d,
{
    seq![dir_core(d, parent)] + subdirs_rows(d.subdirs@, d.id as i64) + files_rows(d.files@, d.id as i64)
}

/// Rows of subdirectories, the last first.
pub open spec fn subdirs_rows(s: Seq<Dir>, parent: i64) -> Seq<RowCore>
    decreases s,
{
    if s.len() == 0 {
        Seq::empty()
    } else {
        dir_rows(s.last(), Some(parent)) + subdirs_rows(s.drop_last(), parent)
    }
}

/// Rows of files, the last first.
pub open spec fn files_rows(s: Seq<File>, parent: i64) -> Seq<RowCore>
    decreases s.len(),
{
    if s.len() == 0 {
        Seq::empty()
    } else {
        seq![file_core(s.last(), Some(parent))] + files_rows(s.drop_last(), parent)
    }
}


/// A node of the tree waiting to be written.
pub enum Node<'a> {
    File(&'a File),
    Dir(&'a Dir),
}

/// The rows of a waiting node and everything below it.
pub open spec fn node_rows(n: Node, parent: Option<i64>) -> Seq<RowCore> {
    match n {
        Node::File(f) => seq![file_core(*f, parent)],
        Node::Dir(d) => dir_rows(*d, parent),
    }
}

/// The rows still to be written for a stack of waiting nodes, the top
/// (last) first.
pub open spec fn pending_rows(stack: Seq<(Node, Option<i64>, String)>) -> Seq<RowCore>
    decreases stack.len(),
{
    if stack.len() == 0 {
        Seq::empty()
    } else {
        node_rows(stack.last().0, stack.last().1) + pending_rows(stack.drop_last())
    }
}

/// The paths of written rows follow the tree: each row after the first has
/// an earlier row as its parent, and its path is that row's path joined
/// with its name.
pub open spec fn paths_follow_tree(rows: Seq<SnapshotRow>) -> bool {
    forall|i: int| 1 <= i < rows.len() ==> exists|p: int| 0 <= p < i
        && #[trigger] rows[i].parent_id == Some(rows[p].id)
        && joined_path(rows[p].path@, rows[i].name@, rows[i].path@)
}

proof fn lemma_files_rows_push(s: Seq<File>, k: int, parent: i64)
    requires
        0 <= k < s.len(),
    ensures
        files_rows(s.take(k + 1), parent) == seq![file_core(s[k], Some(parent))] + files_rows(s.take(k), parent),
{
    assert(s.take(k + 1).drop_last() =~= s.take(k));
}

proof fn lemma_subdirs_rows_push(s: Seq<Dir>, k: int, parent: i64)
    requires
        0 <= k < s.len(),
    ensures
        subdirs_rows(s.take(k + 1), parent) == dir_rows(s[k], Some(parent)) + subdirs_rows(s.take(k), parent),
{
    assert(s.take(k + 1).drop_last() =~= s.take(k));
}

/// Flattens a scanned tree into snapshot rows, depth first from the root,
/// whose path is `root_path`; every other row's path is its parent's path
/// joined with its name.
pub fn tree_rows(root: &Dir, root_path: &str) -> (rows: Vec<SnapshotRow>)
    ensures
        rows@.map_values(|r: SnapshotRow| r.fixed_part()) == dir_rows(*root, None),
        rows@.len() >= 1,
        rows@[0].path@ == root_path@,
        paths_follow_tree(rows@),
{
    let mut rows: Vec<SnapshotRow> = Vec::new();
    let mut stack: Vec<(Node, Option<i64>, String)> = Vec::new();
    stack.push((Node::Dir(root), None, root_path.to_owned()));
    // the row index of each waiting node's parent; -1 for the root
    let ghost mut parents: Seq<int> = seq![-1int];
    assert(pending_rows(stack@) =~= dir_rows(*root, None)) by {
        assert(stack@.drop_last() =~= Seq::<(Node, Option<i64>, String)>::empty());
        assert(pending_rows(stack@.drop_last()) =~= Seq::<RowCore>::empty());
        assert(node_rows(stack@.last().0, stack@.last().1) == dir_rows(*root, None));
    }
    assert(rows@.map_values(|r: SnapshotRow| r.fixed_part()) + pending_rows(stack@) =~= dir_rows(*root, None));
    while stack.len() > 0
        invariant
            rows@.map_values(|r: SnapshotRow| r.fixed_part()) + pending_rows(stack@) == dir_rows(*root, None),
            parents.len() == stack@.len(),
            rows@.len() == 0 ==> stack@.len() == 1 && stack@[0].2@ == root_path@,
            rows@.len() > 0 ==> rows@[0].path@ == root_path@,
            rows@.len() > 0 ==> stack_links(stack@, parents, rows@),
            paths_follow_tree(rows@),
        decreases pending_rows(stack@).len(),
    {
        let ghost before_rows = rows@;
        let ghost before_stack = stack@;
        let ghost before_parents = parents;
        let (node, real_parent_id, current_path) = stack.pop().unwrap();
        let ghost base = stack@;
        let ghost my_parent = before_parents.last();
        proof {
            parents = parents.drop_last();
            assert(before_stack.drop_last() =~= base);
            assert(pending_rows(before_stack) == node_rows(node, real_parent_id) + pending_rows(base));
            assert(stack_links(base, parents, before_rows) || before_rows.len() == 0) by {
                if before_rows.len() > 0 {
                    assert forall|j: int| 0 <= j < base.len() implies #[trigger] link_ok(base[j], parents[j], before_rows) by {
                        assert(link_ok(before_stack[j], before_parents[j], before_rows));
                    }
                }
            }
            if before_rows.len() > 0 {
                assert(link_ok(before_stack[before_stack.len() - 1], before_parents[before_stack.len() - 1], before_rows));
            }
        }
        let row_index = rows.len();
        match node {
            Node::File(f) => {
                let row = SnapshotRow {
                    id: f.id as i64,
                    parent_id: real_parent_id,
                    name: f.name.clone(),
                    path: current_path,
                    size: f.meta.size as i64,
                    dir_flag: false,
                    sub_folder_count: 0,
                    sub_file_count: 0,
                    created: system_time_to_secs(f.meta.created),
                    modified: system_time_to_secs(f.meta.modified),
                };
                rows.push(row);
                proof {
                    lemma_rows_grow(before_rows, row, parents, base, my_parent);
                    assert(rows@.map_values(|r: SnapshotRow| r.fixed_part()) =~= before_rows.map_values(|r: SnapshotRow| r.fixed_part()).push(file_core(*f, real_parent_id)));
                }
            },
            Node::Dir(d) => {
                let id = d.id as i64;
                let row = SnapshotRow {
                    id,
                    parent_id: real_parent_id,
                    name: d.name.clone(),
                    path: current_path.clone(),
                    size: d.meta.size as i64,
                    dir_flag: true,
                    sub_folder_count: d.meta.num_subdir as i64,
                    sub_file_count: d.meta.num_files as i64,
                    created: system_time_to_secs(d.meta.created),
                    modified: system_time_to_secs(d.meta.modified),
                };
                rows.push(row);
                proof {
                    lemma_rows_grow(before_rows, row, parents, base, my_parent);
                    assert(rows@.map_values(|r: SnapshotRow| r.fixed_part()) =~= before_rows.map_values(|r: SnapshotRow| r.fixed_part()).push(dir_core(*d, real_parent_id)));
                    assert(pending_rows(stack@) == files_rows(d.files@.take(0), id) + pending_rows(base)) by {
                        assert(files_rows(d.files@.take(0), id) =~= Seq::<RowCore>::empty());
                        assert(Seq::<RowCore>::empty() + pending_rows(base) =~= pending_rows(base));
                    }
                }
                let mut k: usize = 0;
                while k < d.files.len()
                    invariant
                        k <= d.files@.len(),
                        rows@.len() == row_index + 1,
                        rows@[row_index as int].path@ == current_path@,
                        rows@[row_index as int].id == id,
                        id == d.id as i64,
                        parents.len() == stack@.len(),
                        stack_links(stack@, parents, rows@),
                        pending_rows(stack@) == files_rows(d.files@.take(k as int), id) + pending_rows(base),
                    decreases d.files@.len() - k,
                {
                    let child_path = join_path(current_path.as_str(), d.files[k].name.as_str());
                    let ghost prev = stack@;
                    stack.push((Node::File(&d.files[k]), Some(id), child_path));
                    proof {
                        lemma_stack_push(prev, parents, rows@, (Node::File(&d.files[k as int]), Some(id), child_path), row_index as int);
                        parents = parents.push(row_index as int);
                        lemma_files_rows_push(d.files@, k as int, id);
                    }
                    k = k + 1;
                }
                assert(d.files@.take(d.files@.len() as int) =~= d.files@);
                proof {
                    assert(pending_rows(stack@) == subdirs_rows(d.subdirs@.take(0), id) + files_rows(d.files@, id) + pending_rows(base)) by {
                        assert(subdirs_rows(d.subdirs@.take(0), id) =~= Seq::<RowCore>::empty());
                        assert(Seq::<RowCore>::empty() + (files_rows(d.files@, id) + pending_rows(base)) =~= files_rows(d.files@, id) + pending_rows(base));
                    }
                }
                let mut k: usize = 0;
                while k < d.subdirs.len()
                    invariant
                        k <= d.subdirs@.len(),
                        rows@.len() == row_index + 1,
                        rows@[row_index as int].path@ == current_path@,
                        rows@[row_index as int].id == id,
                        id == d.id as i64,
                        parents.len() == stack@.len(),
                        stack_links(stack@, parents, rows@),
                        pending_rows(stack@) == subdirs_rows(d.subdirs@.take(k as int), id) + files_rows(d.files@, id) + pending_rows(base),
                    decreases d.subdirs@.len() - k,
                {
                    let child_path = join_path(current_path.as_str(), d.subdirs[k].name.as_str());
                    let ghost prev = stack@;
                    stack.push((Node::Dir(&d.subdirs[k]), Some(id), child_path));
                    proof {
                        lemma_stack_push(prev, parents, rows@, (Node::Dir(&d.subdirs[k as int]), Some(id), child_path), row_index as int);
                        parents = parents.push(row_index as int);
                        lemma_subdirs_rows_push(d.subdirs@, k as int, id);
                        assert(pending_rows(stack@) =~= dir_rows(d.subdirs@[k as int], Some(id)) + (subdirs_rows(d.subdirs@.take(k as int), id) + files_rows(d.files@, id) + pending_rows(base)));
                    }
                    k = k + 1;
                }
                assert(d.subdirs@.take(d.subdirs@.len() as int) =~= d.subdirs@);
            },
        }
    }
    rows
}

/// The name of a waiting node.
pub open spec fn node_name(n: Node) -> Seq<char> {
    match n {
        Node::File(f) => f.name@,
        Node::Dir(d) => d.name@,
    }
}


/// A waiting node's link to its parent row: the parent was written, the
/// node carries its id, and the node's path is the parent's path joined with
/// the node's name.
pub open spec fn link_ok(e: (Node, Option<i64>, String), p: int, rows: Seq<SnapshotRow>) -> bool {
    &&& 0 <= p < rows.len()
    &&& e.1 == Some(rows[p].id)
    &&& joined_path(rows[p].path@, node_name(e.0), e.2@)
}

/// Every waiting node is linked to its parent row.
pub open spec fn stack_links(stack: Seq<(Node, Option<i64>, String)>, parents: Seq<int>, rows: Seq<SnapshotRow>) -> bool {
    forall|j: int| 0 <= j < stack.len() ==> #[trigger] link_ok(stack[j], parents[j], rows)
}

proof fn lemma_stack_push(
    stack: Seq<(Node, Option<i64>, String)>,
    parents: Seq<int>,
    rows: Seq<SnapshotRow>,
    e: (Node, Option<i64>, String),
    p: int,
)
    requires
        parents.len() == stack.len(),
        stack_links(stack, parents, rows),
        link_ok(e, p, rows),
    ensures
        stack_links(stack.push(e), parents.push(p), rows),
        pending_rows(stack.push(e)) == node_rows(e.0, e.1) + pending_rows(stack),
{
    assert(stack.push(e).drop_last() =~= stack);
    assert forall|j: int| 0 <= j < stack.push(e).len() implies #[trigger] link_ok(stack.push(e)[j], parents.push(p)[j], rows) by {
        if j < stack.len() {
            assert(link_ok(stack[j], parents[j], rows));
        }
    }
}

proof fn lemma_rows_grow(
    rows: Seq<SnapshotRow>,
    row: SnapshotRow,
    parents: Seq<int>,
    stack: Seq<(Node, Option<i64>, String)>,
    p: int,
)
    requires
        paths_follow_tree(rows),
        rows.len() > 0 ==> stack_links(stack, parents, rows),
        rows.len() > 0 ==> 0 <= p < rows.len() && row.parent_id == Some(rows[p].id)
            && joined_path(rows[p].path@, row.name@, row.path@),
        parents.len() == stack.len(),
    ensures
        paths_follow_tree(rows.push(row)),
        rows.len() > 0 ==> stack_links(stack, parents, rows.push(row)),
{
    let r2 = rows.push(row);
    assert forall|i: int| 1 <= i < r2.len() implies exists|q: int| 0 <= q < i
        && #[trigger] r2[i].parent_id == Some(r2[q].id)
        && joined_path(r2[q].path@, r2[i].name@, r2[i].path@) by {
        if i < rows.len() {
            let q = choose|q: int| 0 <= q < i && #[trigger] rows[i].parent_id == Some(rows[q].id)
                && joined_path(rows[q].path@, rows[i].name@, rows[i].path@);
            assert(r2[q] == rows[q]);
        } else {
            assert(r2[p] == rows[p]);
        }
    }
    if rows.len() > 0 {
        assert forall|j: int| 0 <= j < stack.len() implies #[trigger] link_ok(stack[j], parents[j], r2) by {
            assert(link_ok(stack[j], parents[j], rows));
            assert(r2[parents[j]] == rows[parents[j]]);
        }
    }
}


// ---------------------------------------------------------------------------
// Snapshot file names and plans
// ---------------------------------------------------------------------------

/// ASCII letters and digits.
pub open spec fn is_ascii_alphanumeric(c: char) -> bool {
    ('a' <= c && c <= 'z') || ('A' <= c && c <= 'Z') || ('0' <= c && c <= '9')
}

/// The ASCII letters and digits of a text, in order.
pub open spec fn alphanumerics(s: Seq<char>) -> Seq<char>
    decreases s.len(),
{
    if s.len() == 0 {
        Seq::empty()
    } else if is_ascii_alphanumeric(s.last()) {
        alphanumerics(s.drop_last()).push(s.last())
    } else {
        alphanumerics(s.drop_last())
    }
}

/// Message when a disk name has nothing to name a snapshot file by.
pub open spec fn unnamed_disk_message() -> Seq<char> {
    "Selected disk name has no letters or digits"@
}

/// The disk part of a snapshot file name: the ASCII letters and digits of
/// the disk's mount point (`C:\\` gives `C`), so that the name cannot hold
/// the `_` that separates its parts. A mount point without any is refused.
/// This rule is this library's own choice: it keeps every name a plain
/// component on every platform.
pub fn clean_disk_name(disk: &str) -> (r: Result<String, AppError>)
    ensures
        alphanumerics(disk@).len() > 0 ==> (r matches Ok(s) && s@ == alphanumerics(disk@)),
        alphanumerics(disk@).len() == 0 ==> (r matches Err(e) && is_logical_error(e, unnamed_disk_message())),
{
    let cs = chars_of(disk);
    let mut kept: Vec<char> = Vec::new();
    let mut i: usize = 0;
    while i < cs.len()
        invariant
            i <= cs@.len(),
            cs@ == disk@,
            kept@ == alphanumerics(cs@.take(i as int)),
        decreases cs@.len() - i,
    {
        assert(cs@.take(i + 1).drop_last() =~= cs@.take(i as int));
        let c = cs[i];
        if ('a' <= c && c <= 'z') || ('A' <= c && c <= 'Z') || ('0' <= c && c <= '9') {
            kept.push(c);
        }
        i = i + 1;
    }
    assert(cs@.take(cs@.len() as int) =~= cs@);
    if kept.len() == 0 {
        return Err(logical_error("Selected disk name has no letters or digits"));
    }
    Ok(string_from_chars(kept.as_slice()))
}

/// The name of a snapshot file without its `.db` extension: the disk part,
/// the `YYYYmmddHHMM` stamp and the total size in bytes, joined by `_`.
pub open spec fn snapshot_stem(disk: Seq<char>, stamp: Seq<char>, size: u64) -> Seq<char> {
    disk + seq!['_'] + stamp + seq!['_'] + decimal_text(size as nat)
}

/// Joins the parts of a snapshot file name.
pub fn snapshot_file_stem(disk: &str, stamp: &str, size: u64) -> (r: String)
    ensures
        r@ == snapshot_stem(disk@, stamp@, size),
{
    let mut s = disk.to_owned();
    push_char(&mut s, '_');
    s.append(stamp);
    push_char(&mut s, '_');
    let digits = u64_text(size);
    s.append(digits.as_str());
    assert(s@ =~= snapshot_stem(disk@, stamp@, size));
    s
}

/// Everything a new snapshot file holds: its name, its metadata row and
/// its entries.
pub struct SnapshotPlan {
    pub file_stem: String,
    pub schema_version: u8,
    pub root_path: String,
    pub root_name: String,
    pub created_at: String,
    pub total_size: i64,
    pub rows: Vec<SnapshotRow>,
}

/// What a snapshot of `root`, scanned from `selected_disk`, holds apart from
/// its time stamps: the metadata row and the rows of the whole tree.
pub open spec fn plan_holds_tree(p: SnapshotPlan, root: Dir, selected_disk: Seq<char>) -> bool {
    &&& p.schema_version == SNAPSHOT_SCHEMA_VERSION_V2
    &&& p.root_path@ == selected_disk
    &&& p.root_name@ == root.name@
    &&& p.total_size == root.meta.size as i64
    &&& p.rows@.map_values(|r: SnapshotRow| r.fixed_part()) == dir_rows(root, None)
    &&& p.rows@.len() >= 1
    &&& p.rows@[0].path@ == selected_disk
    &&& paths_follow_tree(p.rows@)
}

/// Plans the snapshot of a scanned tree taken at the given local time.
pub fn plan_snapshot(root: &Dir, selected_disk: &str, minute_stamp: &str, created_at: &str) -> (r: Result<SnapshotPlan, AppError>)
    ensures
        alphanumerics(selected_disk@).len() == 0 ==> (r matches Err(e) && is_logical_error(e, unnamed_disk_message())),
        alphanumerics(selected_disk@).len() > 0 ==> (r matches Ok(p) && {
            &&& plan_holds_tree(p, *root, selected_disk@)
            &&& p.file_stem@ == snapshot_stem(alphanumerics(selected_disk@), minute_stamp@, root.meta.size)
            &&& p.created_at@ == created_at@
        }),
{
    let disk_name = clean_disk_name(selected_disk)?;
    let file_stem = snapshot_file_stem(disk_name.as_str(), minute_stamp, root.meta.size);
    let rows = tree_rows(root, selected_disk);
    Ok(SnapshotPlan {
        file_stem,
        schema_version: SNAPSHOT_SCHEMA_VERSION_V2,
        root_path: selected_disk.to_owned(),
        root_name: root.name.clone(),
        created_at: created_at.to_owned(),
        total_size: root.meta.size as i64,
        rows,
    })
}

/// Plans the snapshot of a scanned tree taken now: the file is named with
/// the local minute stamp, the metadata carries the local RFC 3339 time of
/// the same clock reading, so both name the same minute; which minute comes
/// from the clock. Everything else is as
/// `plan_snapshot` states.
pub fn plan_current_snapshot(root: &Dir, selected_disk: &str) -> (r: Result<SnapshotPlan, AppError>)
    ensures
        alphanumerics(selected_disk@).len() == 0 ==> (r matches Err(e) && is_logical_error(e, unnamed_disk_message())),
        alphanumerics(selected_disk@).len() > 0 ==> (r matches Ok(p) && plan_holds_tree(p, *root, selected_disk@)),
        r matches Ok(p) ==> exists|stamp: Seq<char>| stamp_chars(stamp)
            && p.file_stem@ == #[trigger] snapshot_stem(alphanumerics(selected_disk@), stamp, root.meta.size)
            && same_local_minute(stamp, p.created_at@),
        r matches Ok(p) ==> p.created_at@.contains('T'),
{
    let (minute_stamp, created_at) = local_now_stamps();
    plan_snapshot(root, selected_disk, minute_stamp.as_str(), created_at.as_str())
}


// ---------------------------------------------------------------------------
// Views of the scanned tree
// ---------------------------------------------------------------------------

/// How a scanned directory is shown: its figures without change figures,
/// its id in decimal, and no path.
pub open spec fn live_dir_model(d: Dir) -> DirViewModel {
    DirViewModel {
        meta: DirViewMeta {
            size: d.meta.size,
            num_files: d.meta.num_files,
            num_subdir: d.meta.num_subdir,
            diff: None,
            created: d.meta.created,
            modified: d.meta.modified,
        },
        name: d.name@,
        id: decimal_text(d.id as nat),
        path: None,
    }
}

/// How a scanned file is shown.
pub open spec fn live_file_model(f: File) -> FileViewModel {
    FileViewModel {
        meta: FileViewMeta { size: f.meta.size, diff: None, created: f.meta.created, modified: f.meta.modified },
        name: f.name@,
        id: decimal_text(f.id as nat),
        path: None,
    }
}

/// How a list of scanned directories is shown.
pub open spec fn live_dir_models(s: Seq<Dir>) -> Seq<DirViewModel> {
    s.map_values(|c: Dir| live_dir_model(c))
}

/// How a list of scanned files is shown.
pub open spec fn live_file_models(s: Seq<File>) -> Seq<FileViewModel> {
    s.map_values(|f: File| live_file_model(f))
}

/// Shows a scanned directory without its children.
pub fn dir_to_view(d: &Dir) -> (r: DirView)
    ensures
        r@ == live_dir_model(*d),
{
    DirView {
        meta: DirViewMeta {
            size: d.meta.size,
            num_files: d.meta.num_files,
            num_subdir: d.meta.num_subdir,
            diff: None,
            created: d.meta.created,
            modified: d.meta.modified,
        },
        name: d.name.clone(),
        id: u64_text(d.id),
        path: None,
    }
}

/// Shows a scanned file.
pub fn file_to_view(f: &File) -> (r: FileView)
    ensures
        r@ == live_file_model(*f),
{
    FileView {
        meta: FileViewMeta { size: f.meta.size, diff: None, created: f.meta.created, modified: f.meta.modified },
        name: f.name.clone(),
        id: u64_text(f.id),
        path: None,
    }
}

/// Lists the children of a scanned directory: subdirectories and files
/// apart, each largest first, children of equal size in the order the
/// directory holds them.
pub fn dir_children(d: &Dir) -> (r: DirViewChildren)
    ensures
        dir_models(r.subdirviews@).to_multiset() == live_dir_models(d.subdirs@).to_multiset(),
        dirs_by_size_desc(dir_models(r.subdirviews@)),
        keeps_order_by_key(live_dir_models(d.subdirs@), dir_models(r.subdirviews@), dir_size_key()),
        file_models(r.files@).to_multiset() == live_file_models(d.files@).to_multiset(),
        files_by_size_desc(file_models(r.files@)),
        keeps_order_by_key(live_file_models(d.files@), file_models(r.files@), file_size_key()),
{
    let mut dir_views: Vec<DirView> = Vec::new();
    let mut i: usize = 0;
    while i < d.subdirs.len()
        invariant
            i <= d.subdirs@.len(),
            dir_models(dir_views@) == live_dir_models(d.subdirs@.take(i as int)),
        decreases d.subdirs@.len() - i,
    {
        let v = dir_to_view(&d.subdirs[i]);
        let ghost old = dir_models(dir_views@);
        dir_views.push(v);
        assert(dir_models(dir_views@) =~= old.push(v@));
        assert(dir_models(dir_views@) =~= live_dir_models(d.subdirs@.take(i + 1)));
        i = i + 1;
    }
    assert(d.subdirs@.take(d.subdirs@.len() as int) =~= d.subdirs@);
    let mut file_views: Vec<FileView> = Vec::new();
    let mut i: usize = 0;
    while i < d.files.len()
        invariant
            i <= d.files@.len(),
            file_models(file_views@) == live_file_models(d.files@.take(i as int)),
        decreases d.files@.len() - i,
    {
        let v = file_to_view(&d.files[i]);
        let ghost old = file_models(file_views@);
        file_views.push(v);
        assert(file_models(file_views@) =~= old.push(v@));
        assert(file_models(file_views@) =~= live_file_models(d.files@.take(i + 1)));
        i = i + 1;
    }
    assert(d.files@.take(d.files@.len() as int) =~= d.files@);
    let subdirviews = sort_dir_views_by_size(dir_views);
    let files = sort_file_views_by_size(file_views);
    DirViewChildren { subdirviews, files }
}

// ---------------------------------------------------------------------------
// Views of the scanned tree against an older snapshot
// ---------------------------------------------------------------------------

/// The first record with this id among the records of an older snapshot.
pub open spec fn record_for(s: Seq<SnapshotRecord>, id: i64) -> Option<SnapshotRecord>
    decreases s.len(),
{
    if s.len() == 0 {
        None
    } else if s[0].id == id {
        Some(s[0])
    } else {
        record_for(s.drop_first(), id)
    }
}

/// Finds the first record with this id.
pub fn find_record(s: &Vec<SnapshotRecord>, id: i64) -> (r: Option<SnapshotRecord>)
    ensures
        r == record_for(s@, id),
{
    let mut i: usize = 0;
    assert(s@.skip(0) =~= s@);
    while i < s.len()
        invariant
            i <= s@.len(),
            record_for(s@, id) == record_for(s@.skip(i as int), id),
        decreases s@.len() - i,
    {
        assert(s@.skip(i as int)[0] == s@[i as int]);
        assert(s@.skip(i as int).drop_first() =~= s@.skip(i + 1));
        if s[i].id == id {
            return Some(s[i]);
        }
        i = i + 1;
    }
    None
}

/// Change figures of a scanned directory against its older record: the
/// older size and counts, or new (and zero) when there is no record.
pub open spec fn live_dir_change(older: Option<SnapshotRecord>) -> DirViewMetaDiff {
    DirViewMetaDiff {
        new_dir_flag: older is None,
        deleted_dir_flag: false,
        previous_size: match older { Some(o) => o.size as u64, None => 0 },
        prev_num_files: match older { Some(o) => o.sub_file_count as u64, None => 0 },
        prev_num_subdir: match older { Some(o) => o.sub_folder_count as u64, None => 0 },
    }
}

/// Change figures of a scanned file against its older record.
pub open spec fn live_file_change(older: Option<SnapshotRecord>) -> FileViewMetaDiff {
    FileViewMetaDiff {
        new_file_flag: older is None,
        deleted_file_flag: false,
        previous_size: match older { Some(o) => o.size as u64, None => 0 },
    }
}

/// How a scanned directory is shown against its older record.
pub open spec fn live_dir_model_against(d: Dir, older: Option<SnapshotRecord>) -> DirViewModel {
    DirViewModel {
        meta: DirViewMeta { diff: Some(live_dir_change(older)), ..live_dir_model(d).meta },
        ..live_dir_model(d)
    }
}

/// How a scanned file is shown against its older record.
pub open spec fn live_file_model_against(f: File, older: Option<SnapshotRecord>) -> FileViewModel {
    FileViewModel {
        meta: FileViewMeta { diff: Some(live_file_change(older)), ..live_file_model(f).meta },
        ..live_file_model(f)
    }
}

/// How scanned subdirectories are shown, each against the older record
/// with its id.
pub open spec fn live_dir_models_against(s: Seq<Dir>, older: Seq<SnapshotRecord>) -> Seq<DirViewModel> {
    s.map_values(|c: Dir| live_dir_model_against(c, record_for(older, c.id as i64)))
}

/// How scanned files are shown, each against the older record with its id.
pub open spec fn live_file_models_against(s: Seq<File>, older: Seq<SnapshotRecord>) -> Seq<FileViewModel> {
    s.map_values(|f: File| live_file_model_against(f, record_for(older, f.id as i64)))
}

fn dir_change_of(older: Option<SnapshotRecord>) -> (r: DirViewMetaDiff)
    ensures
        r == live_dir_change(older),
{
    match older {
        Some(o) => DirViewMetaDiff {
            new_dir_flag: false,
            deleted_dir_flag: false,
            previous_size: o.size as u64,
            prev_num_files: o.sub_file_count as u64,
            prev_num_subdir: o.sub_folder_count as u64,
        },
        None => DirViewMetaDiff {
            new_dir_flag: true,
            deleted_dir_flag: false,
            previous_size: 0,
            prev_num_files: 0,
            prev_num_subdir: 0,
        },
    }
}

fn file_change_of(older: Option<SnapshotRecord>) -> (r: FileViewMetaDiff)
    ensures
        r == live_file_change(older),
{
    match older {
        Some(o) => FileViewMetaDiff { new_file_flag: false, deleted_file_flag: false, previous_size: o.size as u64 },
        None => FileViewMetaDiff { new_file_flag: true, deleted_file_flag: false, previous_size: 0 },
    }
}

/// Shows a scanned directory, without its children, with its change
/// against its record in an older snapshot (`None` when that snapshot does
/// not hold it).
pub fn dir_to_view_with_diff(d: &Dir, older: Option<SnapshotRecord>) -> (r: DirView)
    ensures
        r@ == live_dir_model_against(*d, older),
{
    let mut v = dir_to_view(d);
    v.meta.diff = Some(dir_change_of(older));
    v
}

/// Shows a scanned file with its change against its older record.
pub fn file_to_view_with_diff(f: &File, older: Option<SnapshotRecord>) -> (r: FileView)
    ensures
        r@ == live_file_model_against(*f, older),
{
    let mut v = file_to_view(f);
    v.meta.diff = Some(file_change_of(older));
    v
}

/// Lists the children of a scanned directory against the records of an
/// older snapshot: each child with its change against the first record with
/// its id, new when there is none. Records that no child matches are not
/// listed: they hold no name to show. Subdirectories and files apart, each
/// largest first, children of equal size in the order the directory holds
/// them.
pub fn dir_children_with_diff(d: &Dir, older: &Vec<SnapshotRecord>) -> (r: DirViewChildren)
    ensures
        dir_models(r.subdirviews@).to_multiset() == live_dir_models_against(d.subdirs@, older@).to_multiset(),
        dirs_by_size_desc(dir_models(r.subdirviews@)),
        keeps_order_by_key(live_dir_models_against(d.subdirs@, older@), dir_models(r.subdirviews@), dir_size_key()),
        file_models(r.files@).to_multiset() == live_file_models_against(d.files@, older@).to_multiset(),
        files_by_size_desc(file_models(r.files@)),
        keeps_order_by_key(live_file_models_against(d.files@, older@), file_models(r.files@), file_size_key()),
{
    let mut dir_views: Vec<DirView> = Vec::new();
    let mut i: usize = 0;
    while i < d.subdirs.len()
        invariant
            i <= d.subdirs@.len(),
            dir_models(dir_views@) == live_dir_models_against(d.subdirs@.take(i as int), older@),
        decreases d.subdirs@.len() - i,
    {
        let rec = find_record(older, d.subdirs[i].id as i64);
        let v = dir_to_view_with_diff(&d.subdirs[i], rec);
        let ghost old = dir_models(dir_views@);
        dir_views.push(v);
        assert(dir_models(dir_views@) =~= old.push(v@));
        assert(dir_models(dir_views@) =~= live_dir_models_against(d.subdirs@.take(i + 1), older@));
        i = i + 1;
    }
    assert(d.subdirs@.take(d.subdirs@.len() as int) =~= d.subdirs@);
    let mut file_views: Vec<FileView> = Vec::new();
    let mut i: usize = 0;
    while i < d.files.len()
        invariant
            i <= d.files@.len(),
            file_models(file_views@) == live_file_models_against(d.files@.take(i as int), older@),
        decreases d.files@.len() - i,
    {
        let rec = find_record(older, d.files[i].id as i64);
        let v = file_to_view_with_diff(&d.files[i], rec);
        let ghost old = file_models(file_views@);
        file_views.push(v);
        assert(file_models(file_views@) =~= old.push(v@));
        assert(file_models(file_views@) =~= live_file_models_against(d.files@.take(i + 1), older@));
        i = i + 1;
    }
    assert(d.files@.take(d.files@.len() as int) =~= d.files@);
    let subdirviews = sort_dir_views_by_size(dir_views);
    let files = sort_file_views_by_size(file_views);
    DirViewChildren { subdirviews, files }
}

/// `k` is the first subdirectory with this name.
pub open spec fn first_named(s: Seq<Dir>, name: Seq<char>, k: int) -> bool {
    &&& 0 <= k < s.len()
    &&& s[k].name@ == name
    &&& forall|j: int| 0 <= j < k ==> #[trigger] s[j].name@ != name
}

/// The subdirectory with this name, the first if several have it.
pub open spec fn child_named(d: Dir, name: Seq<char>) -> Option<Dir> {
    if exists|k: int| first_named(d.subdirs@, name, k) {
        Some(d.subdirs@[choose|k: int| first_named(d.subdirs@, name, k)])
    } else {
        None
    }
}

/// Walks down from `d` through subdirectories named by `parts`; fails with
/// the first name that is not found.
pub open spec fn descend(d: Dir, parts: Seq<Seq<char>>) -> Result<Dir, Seq<char>>
    decreases parts.len(),
{
    if parts.len() == 0 {
        Ok(d)
    } else {
        match child_named(d, parts[0]) {
            Some(c) => descend(c, parts.drop_first()),
            None => Err(parts[0]),
        }
    }
}

/// The texts of a list of names.
pub open spec fn texts(s: Seq<String>) -> Seq<Seq<char>> {
    s.map_values(|t: String| t@)
}

fn find_child<'a>(d: &'a Dir, name: &String) -> (r: Option<&'a Dir>)
    ensures
        match r {
            Some(c) => child_named(*d, name@) == Some(*c),
            None => child_named(*d, name@) is None,
        },
{
    let mut k: usize = 0;
    while k < d.subdirs.len()
        invariant
            k <= d.subdirs@.len(),
            forall|j: int| 0 <= j < k ==> #[trigger] d.subdirs@[j].name@ != name@,
        decreases d.subdirs@.len() - k,
    {
        if d.subdirs[k].name == *name {
            proof {
                let c = choose|j: int| first_named(d.subdirs@, name@, j);
                assert(first_named(d.subdirs@, name@, k as int));
                if c < k { assert(d.subdirs@[c].name@ != name@); }
                if k < c { assert(d.subdirs@[k as int].name@ != name@); }
            }
            return Some(&d.subdirs[k]);
        }
        k = k + 1;
    }
    assert(!exists|j: int| first_named(d.subdirs@, name@, j));
    None
}

/// The message for a name that is not found.
pub open spec fn missing_part_message(part: Seq<char>) -> Seq<char> {
    "Requested query path has word "@ + part + " which was not found in that directory"@
}

/// Walks down from `root` through the named subdirectories.
pub fn find_subdir<'a>(root: &'a Dir, path_list: &Vec<String>) -> (r: Result<&'a Dir, AppError>)
    ensures
        match descend(*root, texts(path_list@)) {
            Ok(d) => r matches Ok(x) && *x == d,
            Err(part) => r matches Err(e) && is_logical_error(e, missing_part_message(part)),
        },
{
    let mut current: &Dir = root;
    let mut i: usize = 0;
    assert(texts(path_list@).skip(0) =~= texts(path_list@));
    while i < path_list.len()
        invariant
            i <= path_list@.len(),
            descend(*root, texts(path_list@)) == descend(*current, texts(path_list@).skip(i as int)),
        decreases path_list@.len() - i,
    {
        assert(texts(path_list@).skip(i as int)[0] == path_list@[i as int]@);
        assert(texts(path_list@).skip(i as int).drop_first() =~= texts(path_list@).skip(i + 1));
        match find_child(current, &path_list[i]) {
            Some(c) => {
                current = c;
            },
            None => {
                let mut msg = String::from_str("Requested query path has word ");
                msg.append(path_list[i].as_str());
                msg.append(" which was not found in that directory");
                return Err(AppError::GeneralLogicalErr(msg));
            },
        }
        i = i + 1;
    }
    assert(texts(path_list@).skip(i as int) =~= Seq::<Seq<char>>::empty());
    Ok(current)
}

/// Message when no scan is held in memory.
pub open spec fn no_root_message() -> Seq<char> {
    "There is no root Dir object in backend memory state"@
}

/// The scanned tree held in memory; an error when there is none.
pub fn held_root<'a>(root: Option<&'a Dir>) -> (r: Result<&'a Dir, AppError>)
    ensures
        root is None ==> (r matches Err(e) && is_logical_error(e, no_root_message())),
        root matches Some(t) ==> r == Ok::<&Dir, AppError>(t),
{
    match root {
        Some(t) => Ok(t),
        None => Err(logical_error("There is no root Dir object in backend memory state")),
    }
}

/// Lists the children of the directory reached from the scanned root
/// through the named subdirectories.
pub fn query_new_dir_object(root: Option<&Dir>, path_list: &Vec<String>) -> (r: Result<DirViewChildren, AppError>)
    ensures
        root is None ==> (r matches Err(e) && is_logical_error(e, no_root_message())),
        root matches Some(t) ==> match descend(*t, texts(path_list@)) {
            Ok(d) => r matches Ok(c) && {
                &&& dir_models(c.subdirviews@).to_multiset() == live_dir_models(d.subdirs@).to_multiset()
                &&& dirs_by_size_desc(dir_models(c.subdirviews@))
                &&& keeps_order_by_key(live_dir_models(d.subdirs@), dir_models(c.subdirviews@), dir_size_key())
                &&& file_models(c.files@).to_multiset() == live_file_models(d.files@).to_multiset()
                &&& files_by_size_desc(file_models(c.files@))
                &&& keeps_order_by_key(live_file_models(d.files@), file_models(c.files@), file_size_key())
            },
            Err(part) => r matches Err(e) && is_logical_error(e, missing_part_message(part)),
        },
{
    match root {
        Some(t) => {
            let d = find_subdir(t, path_list)?;
            Ok(dir_children(d))
        },
        None => Err(logical_error("There is no root Dir object in backend memory state")),
    }
}


proof fn lemma_alphanumerics_no_underscore(s: Seq<char>)
    ensures
        !alphanumerics(s).contains('_'),
    decreases s.len(),
{
    if s.len() > 0 {
        lemma_alphanumerics_no_underscore(s.drop_last());
        let prev = alphanumerics(s.drop_last());
        if is_ascii_alphanumeric(s.last()) {
            assert forall|k: int| 0 <= k < prev.push(s.last()).len() implies prev.push(s.last())[k] != '_' by {
                if k < prev.len() {
                    assert(prev[k] != '_');
                }
            }
        }
    }
}

proof fn lemma_decimal_no_underscore(n: nat)
    ensures
        !decimal_text(n).contains('_'),
    decreases n,
{
    assert(forall|d: nat| d < 10 ==> digit_char(d) != '_');
    if n >= 10 {
        lemma_decimal_no_underscore(n / 10);
        let prev = decimal_text(n / 10);
        assert forall|k: int| 0 <= k < decimal_text(n).len() implies decimal_text(n)[k] != '_' by {
            if k < prev.len() {
                assert(decimal_text(n)[k] == prev[k]);
            }
        }
    }
}

/// A snapshot file name reads back as what it was made of: the name that a
/// snapshot plan gives to a scan of `selected_disk` with a date stamp `stamp`
/// and `size` bytes is read by `parse_snapshot_file_name` as that disk part,
/// that stamp (shown as a date and as a sort key) and that size, whenever the
/// stamp is a date and a number without `_`.
pub proof fn law_snapshot_name_round_trip(
    selected_disk: Seq<char>,
    stamp: Seq<char>,
    size: u64,
    r: Result<SnapshotDbMeta, crate::error::AppError>,
)
    requires
        !stamp.contains('_'),
        minute_stamp_texts(stamp) is Ok,
        parse_u64_spec(stamp) is Ok,
        snapshot_name_meta(snapshot_stem(alphanumerics(selected_disk), stamp, size), r),
    ensures
        r matches Ok(m) && {
            &&& m.drive_letter@ == alphanumerics(selected_disk)
            &&& m.date_time@ == minute_stamp_texts(stamp)->Ok_0.0
            &&& Ok::<u64, crate::text::IntParseError>(m.date_sort_key) == parse_u64_spec(stamp)
            &&& m.size == size
        },
{
    let disk = alphanumerics(selected_disk);
    let digits = decimal_text(size as nat);
    lemma_alphanumerics_no_underscore(selected_disk);
    lemma_decimal_no_underscore(size as nat);
    lemma_split_join(disk + seq!['_'] + stamp, digits, '_');
    lemma_split_join(disk, stamp, '_');
    lemma_split_without_sep(disk, '_');
    lemma_split_without_sep(stamp, '_');
    lemma_split_without_sep(digits, '_');
    assert(snapshot_stem(disk, stamp, size) == (disk + seq!['_'] + stamp) + seq!['_'] + digits);
    let pieces = split_text(snapshot_stem(disk, stamp, size), '_');
    assert(pieces =~= seq![disk, stamp, digits]);
    law_u64_text_round_trip(size);
}


/// A snapshot taken now is named at the minute its metadata records: its
/// file name has three `_`-separated parts, and the middle one, read as
/// year, month, day, hour and minute, begins the recorded creation time.
pub proof fn law_current_snapshot_named_at_its_minute(root: Dir, selected_disk: Seq<char>, p: SnapshotPlan)
    requires
        exists|stamp: Seq<char>| stamp_chars(stamp)
            && p.file_stem@ == #[trigger] snapshot_stem(alphanumerics(selected_disk), stamp, root.meta.size)
            && same_local_minute(stamp, p.created_at@),
    ensures
        split_text(p.file_stem@, '_').len() == 3,
        same_local_minute(split_text(p.file_stem@, '_')[1], p.created_at@),
{
    let stamp = choose|stamp: Seq<char>| stamp_chars(stamp)
        && p.file_stem@ == #[trigger] snapshot_stem(alphanumerics(selected_disk), stamp, root.meta.size)
        && same_local_minute(stamp, p.created_at@);
    let disk = alphanumerics(selected_disk);
    let size = root.meta.size;
    let digits = decimal_text(size as nat);
    assert(!stamp.contains('_')) by {
        if stamp.contains('_') {
            let i = choose|i: int| 0 <= i < stamp.len() && stamp[i] == '_';
            assert('0' <= stamp[i] <= '9' || stamp[i] == '+' || stamp[i] == '-');
        }
    }
    lemma_alphanumerics_no_underscore(selected_disk);
    lemma_decimal_no_underscore(size as nat);
    lemma_split_join(disk + seq!['_'] + stamp, digits, '_');
    lemma_split_join(disk, stamp, '_');
    lemma_split_without_sep(disk, '_');
    lemma_split_without_sep(stamp, '_');
    lemma_split_without_sep(digits, '_');
    assert(snapshot_stem(disk, stamp, size) == (disk + seq!['_'] + stamp) + seq!['_'] + digits);
    let pieces = split_text(snapshot_stem(disk, stamp, size), '_');
    assert(pieces =~= seq![disk, stamp, digits]);
}


// ---------------------------------------------------------------------------
// Law: one row per node
// ---------------------------------------------------------------------------

/// The number of directories and files in a tree, its root included.
pub open spec fn node_count(d: Dir) -> nat
    decreases d,
{
    1 + subdirs_node_count(d.subdirs@) + d.files@.len()
}

/// The number of nodes in a list of trees.
pub open spec fn subdirs_node_count(s: Seq<Dir>) -> nat
    decreases s,
{
    if s.len() == 0 {
        0
    } else {
        node_count(s.last()) + subdirs_node_count(s.drop_last())
    }
}

proof fn lemma_files_rows_len(s: Seq<File>, parent: i64)
    ensures
        files_rows(s, parent).len() == s.len(),
    decreases s.len(),
{
    if s.len() > 0 {
        lemma_files_rows_len(s.drop_last(), parent);
    }
}

proof fn lemma_dir_rows_len(d: Dir, parent: Option<i64>)
    ensures
        dir_rows(d, parent).len() == node_count(d),
    decreases d,
{
    lemma_subdirs_rows_len(d.subdirs@, d.id as i64);
    lemma_files_rows_len(d.files@, d.id as i64);
}

proof fn lemma_subdirs_rows_len(s: Seq<Dir>, parent: i64)
    ensures
        subdirs_rows(s, parent).len() == subdirs_node_count(s),
    decreases s,
{
    if s.len() > 0 {
        lemma_dir_rows_len(s.last(), Some(parent));
        lemma_subdirs_rows_len(s.drop_last(), parent);
    }
}

/// A snapshot holds one row per node of the scanned tree, and its first row
/// is the root, without a parent.
pub proof fn law_one_row_per_node(root: Dir)
    ensures
        dir_rows(root, None).len() == node_count(root),
        dir_rows(root, None)[0] == dir_core(root, None),
        dir_rows(root, None)[0].parent_id is None,
{
    lemma_dir_rows_len(root, None);
}

/// The entry that the entries table gives back for a written row: every
/// column as written.
pub open spec fn reads_back(row: SnapshotRow, e: SnapshotEntryRow) -> bool {
    &&& e.id == row.id
    &&& e.name@ == row.name@
    &&& e.path@ == row.path@
    &&& e.size == row.size
    &&& e.dir_flag == row.dir_flag
    &&& e.sub_folder_count == row.sub_folder_count
    &&& e.sub_file_count == row.sub_file_count
    &&& e.created == row.created
    &&& e.modified == row.modified
}

/// Previewing a snapshot just written shows the scanned root: the entry
/// without a parent is the root's row, a directory, and its view carries
/// the root's name, its id as stored, the scanned disk as path, its size
/// and counts, its times as stored, and no change figures.
pub proof fn law_preview_shows_written_root(root: Dir, selected_disk: Seq<char>, p: SnapshotPlan, e: SnapshotEntryRow)
    requires
        plan_holds_tree(p, root, selected_disk),
        reads_back(p.rows@[0], e),
    ensures
        p.rows@[0].parent_id is None,
        e.dir_flag,
        entry_dir_model(e, None) == (DirViewModel {
            meta: DirViewMeta {
                size: root.meta.size,
                num_files: root.meta.num_files,
                num_subdir: root.meta.num_subdir,
                diff: None,
                created: time_of_secs(stored_secs(root.meta.created)),
                modified: time_of_secs(stored_secs(root.meta.modified)),
            },
            name: root.name@,
            id: signed_decimal_text((root.id as i64) as int),
            path: Some(selected_disk),
        }),
{
    let cores = p.rows@.map_values(|r: SnapshotRow| r.fixed_part());
    assert(cores[0] == dir_rows(root, None)[0]);
    assert(dir_rows(root, None)[0] == dir_core(root, None));
    let size = root.meta.size;
    let nf = root.meta.num_files;
    let ns = root.meta.num_subdir;
    assert((size as i64) as u64 == size) by (bit_vector);
    assert((nf as i64) as u64 == nf) by (bit_vector);
    assert((ns as i64) as u64 == ns) by (bit_vector);
}

} // verus!
