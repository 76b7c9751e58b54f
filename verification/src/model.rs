//! The data the library works on: the scanned directory tree, the views of
//! it that the user interface shows, and the descriptions of disks and
//! snapshot files. Views that hold text have a model with `Seq<char>` in
//! place of each `String`.

use vstd::prelude::*;

verus! {

/// A point in time as a file system reports it, relative to the Unix epoch.
/// `before_epoch` marks times earlier than the epoch, whose distance from it
/// is then `secs` and `nanos`.
#[derive(Clone, Copy, Debug, PartialEq, Eq, Structural)]
pub struct FsTime {
    pub before_epoch: bool,
    pub secs: u64,
    pub nanos: u32,
}

/// The Unix epoch itself.
pub open spec fn epoch() -> FsTime {
    FsTime { before_epoch: false, secs: 0, nanos: 0 }
}

/// The epoch, as a value.
pub fn unix_epoch() -> (t: FsTime)
    ensures
        t == epoch(),
{
    FsTime { before_epoch: false, secs: 0, nanos: 0 }
}

/// Size and times of a file.
#[derive(Clone, Copy, Debug, PartialEq, Eq, Structural)]
pub struct FileMeta {
    pub size: u64,
    pub created: FsTime,
    pub modified: FsTime,
}

/// A file in the scanned tree.
#[derive(Debug)]
pub struct File {
    pub meta: FileMeta,
    pub name: String,
    pub id: u64,
}

/// Totals and times of a directory. `size` counts everything below the
/// directory; `num_files` and `num_subdir` count its direct children only.
#[derive(Clone, Copy, Debug, PartialEq, Eq, Structural)]
pub struct DirMeta {
    pub size: u64,
    pub created: FsTime,
    pub modified: FsTime,
    pub num_files: u64,
    pub num_subdir: u64,
}

/// A directory in the scanned tree with its direct children.
#[derive(Debug)]
pub struct Dir {
    pub name: String,
    pub files: Vec<File>,
    pub subdirs: Vec<Dir>,
    pub meta: DirMeta,
    pub id: u64,
}

/// How a directory changed between two snapshots.
#[derive(Clone, Copy, Debug, PartialEq, Eq, Structural)]
pub struct DirViewMetaDiff {
    pub new_dir_flag: bool,
    pub deleted_dir_flag: bool,
    pub previous_size: u64,
    pub prev_num_files: u64,
    pub prev_num_subdir: u64,
}

/// The figures shown for a directory.
#[derive(Clone, Copy, Debug, PartialEq, Eq, Structural)]
pub struct DirViewMeta {
    pub size: u64,
    pub num_files: u64,
    pub num_subdir: u64,
    pub diff: Option<DirViewMetaDiff>,
    pub created: FsTime,
    pub modified: FsTime,
}

/// A directory as the user interface shows it.
#[derive(Debug, PartialEq, Eq)]
pub struct DirView {
    pub meta: DirViewMeta,
    pub name: String,
    pub id: String,
    pub path: Option<String>,
}

/// How a file changed between two snapshots.
#[derive(Clone, Copy, Debug, PartialEq, Eq, Structural)]
pub struct FileViewMetaDiff {
    pub new_file_flag: bool,
    pub deleted_file_flag: bool,
    pub previous_size: u64,
}

/// The figures shown for a file.
#[derive(Clone, Copy, Debug, PartialEq, Eq, Structural)]
pub struct FileViewMeta {
    pub size: u64,
    pub diff: Option<FileViewMetaDiff>,
    pub created: FsTime,
    pub modified: FsTime,
}

/// A file as the user interface shows it.
#[derive(Debug, PartialEq, Eq)]
pub struct FileView {
    pub meta: FileViewMeta,
    pub name: String,
    pub id: String,
    pub path: Option<String>,
}

/// The children of one directory as the user interface lists them.
#[derive(Debug, PartialEq, Eq)]
pub struct DirViewChildren {
    pub subdirviews: Vec<DirView>,
    pub files: Vec<FileView>,
}

/// A disk offered for scanning.
#[derive(Debug, PartialEq, Eq)]
pub struct InitDisk {
    pub name: String,
    pub desc: String,
}

/// A snapshot file as the snapshot list shows it.
#[derive(Debug, PartialEq, Eq)]
pub struct SnapshotDbMeta {
    pub drive_letter: String,
    pub date_time: String,
    pub date_sort_key: u64,
    pub size: u64,
    pub schema_version: u8,
    pub can_preview: bool,
    pub can_compare: bool,
    pub root_path: Option<String>,
}

/// Text of an optional string.
pub open spec fn opt_text(s: Option<String>) -> Option<Seq<char>> {
    match s {
        Some(t) => Some(t@),
        None => None,
    }
}

/// A directory view with its texts as character sequences.
pub struct DirViewModel {
    pub meta: DirViewMeta,
    pub name: Seq<char>,
    pub id: Seq<char>,
    pub path: Option<Seq<char>>,
}

/// A file view with its texts as character sequences.
pub struct FileViewModel {
    pub meta: FileViewMeta,
    pub name: Seq<char>,
    pub id: Seq<char>,
    pub path: Option<Seq<char>>,
}

impl View for DirView {
    type V = DirViewModel;

    open spec fn view(&self) -> DirViewModel {
        DirViewModel { meta: self.meta, name: self.name@, id: self.id@, path: opt_text(self.path) }
    }
}

impl View for FileView {
    type V = FileViewModel;

    open spec fn view(&self) -> FileViewModel {
        FileViewModel { meta: self.meta, name: self.name@, id: self.id@, path: opt_text(self.path) }
    }
}

/// The models of a list of directory views.
pub open spec fn dir_models(s: Seq<DirView>) -> Seq<DirViewModel> {
    s.map_values(|d: DirView| d@)
}

/// The models of a list of file views.
pub open spec fn file_models(s: Seq<FileView>) -> Seq<FileViewModel> {
    s.map_values(|f: FileView| f@)
}

/// Largest first: each directory is at least as large as every one after it.
pub open spec fn dirs_by_size_desc(s: Seq<DirViewModel>) -> bool {
    forall|i: int, j: int| 0 <= i < j < s.len() ==> s[i].meta.size >= s[j].meta.size
}

/// Largest first: each file is at least as large as every one after it.
pub open spec fn files_by_size_desc(s: Seq<FileViewModel>) -> bool {
    forall|i: int, j: int| 0 <= i < j < s.len() ==> s[i].meta.size >= s[j].meta.size
}

} // verus!
