use delta::error::AppError;
use delta::model::{FsTime, SnapshotDbMeta};
use delta::snapshot::{
    capability_from_meta, children_views, compare_roots, diff_snapshot_children,
    entry_to_dir_view, entry_to_dir_view_with_diff, entry_to_file_view, legacy_snapshot_capability,
    order_snapshot_paths_by_created_at, parse_parent_id, parse_snapshot_file_name, path_history,
    preview_root, require_comparable, require_previewable, require_same_root, secs_to_system_time,
    snapshot_db_path, stats_or_default, system_time_to_secs, with_capability, SnapshotCapability,
    SnapshotEntryRow, SnapshotMetaRow, SnapshotRecord,
};
use delta::text::IntParseError;

fn row(id: i64, name: &str, size: i64, dir: bool) -> SnapshotEntryRow {
    SnapshotEntryRow {
        id,
        name: name.to_string(),
        path: format!("/root/{}", name),
        size,
        dir_flag: dir,
        sub_folder_count: if dir { 2 } else { 0 },
        sub_file_count: if dir { 3 } else { 0 },
        created: 100,
        modified: 0,
    }
}

#[test]
fn times_convert() {
    assert_eq!(system_time_to_secs(FsTime { before_epoch: false, secs: 42, nanos: 9 }), 42);
    assert_eq!(system_time_to_secs(FsTime { before_epoch: true, secs: 42, nanos: 0 }), 0);
    assert_eq!(secs_to_system_time(-5), FsTime { before_epoch: false, secs: 0, nanos: 0 });
    assert_eq!(secs_to_system_time(77), FsTime { before_epoch: false, secs: 77, nanos: 0 });
}

#[test]
fn entry_views() {
    let v = entry_to_dir_view(row(-7, "docs", 500, true));
    assert_eq!(v.id, "-7");
    assert_eq!(v.name, "docs");
    assert_eq!(v.path.as_deref(), Some("/root/docs"));
    assert_eq!(v.meta.size, 500);
    assert_eq!(v.meta.num_files, 3);
    assert_eq!(v.meta.num_subdir, 2);
    assert_eq!(v.meta.diff, None);
    assert_eq!(v.meta.created.secs, 100);
    assert_eq!(v.meta.modified.secs, 0);
    // a negative size is shown as its bits read unsigned
    let f = entry_to_file_view(row(3, "a.txt", -1, false));
    assert_eq!(f.meta.size, u64::MAX);
    assert_eq!(f.id, "3");
    let older = row(-7, "docs", 200, true);
    let d = entry_to_dir_view_with_diff(row(-7, "docs", 500, true), Some(&older), false, false);
    let diff = d.meta.diff.unwrap();
    assert_eq!(diff.previous_size, 200);
    assert_eq!(diff.prev_num_files, 3);
    assert!(!diff.new_dir_flag && !diff.deleted_dir_flag);
    let root = compare_roots(row(1, "r", 10, true), &row(1, "r", 4, true));
    assert_eq!(root.meta.diff.unwrap().previous_size, 4);
}

#[test]
fn capabilities() {
    let legacy = legacy_snapshot_capability();
    assert_eq!(legacy.schema_version, 1);
    assert!(!legacy.can_preview && !legacy.can_compare && legacy.root_path.is_none());
    assert_eq!(capability_from_meta(false, Some((2, "C:\\".to_string()))), legacy_snapshot_capability());
    assert_eq!(capability_from_meta(true, None), legacy_snapshot_capability());
    let c = capability_from_meta(true, Some((2, "C:\\".to_string())));
    assert!(c.can_preview && c.can_compare);
    assert_eq!(c.root_path.as_deref(), Some("C:\\"));
    let old = capability_from_meta(true, Some((1, "/".to_string())));
    assert!(!old.can_preview && !old.can_compare);
    // only the low byte of the version counts
    let wrapped = capability_from_meta(true, Some((257, "/".to_string())));
    assert_eq!(wrapped.schema_version, 1);
    assert!(!wrapped.can_compare);
    assert_eq!(
        require_comparable(&old),
        Err(AppError::GeneralLogicalErr(
            "Old snapshots cannot be compared. Create new snapshots to use compare.".to_string()
        ))
    );
    assert_eq!(
        require_previewable(&old),
        Err(AppError::GeneralLogicalErr(
            "Old snapshots cannot be previewed. Create a new snapshot to use preview.".to_string()
        ))
    );
    assert!(require_comparable(&c).is_ok() && require_previewable(&c).is_ok());
}

#[test]
fn same_root_and_ordering() {
    let a = SnapshotMetaRow { root_path: "C:\\".into(), created_at: "2024-05-01T10:00:00+02:00".into() };
    let b = SnapshotMetaRow { root_path: "D:\\".into(), created_at: "2024-06-01T10:00:00+02:00".into() };
    assert_eq!(
        require_same_root(&a, &b),
        Err(AppError::GeneralLogicalErr("Snapshots must belong to the same disk or root path.".to_string()))
    );
    assert!(require_same_root(&a, &a).is_ok());
    let (newer, older) = order_snapshot_paths_by_created_at("a".into(), &a.created_at, "b".into(), &b.created_at);
    assert_eq!((newer.as_str(), older.as_str()), ("b", "a"));
    let (newer, older) = order_snapshot_paths_by_created_at("b".into(), &b.created_at, "a".into(), &a.created_at);
    assert_eq!((newer.as_str(), older.as_str()), ("b", "a"));
    let (first, second) = order_snapshot_paths_by_created_at("x".into(), "same", "y".into(), "same");
    assert_eq!((first.as_str(), second.as_str()), ("x", "y"));
}

#[test]
fn preview_root_must_be_directory() {
    assert_eq!(
        preview_root(row(1, "f", 3, false)),
        Err(AppError::GeneralLogicalErr("Snapshot root entry is not a directory".to_string()))
    );
    assert_eq!(preview_root(row(1, "d", 3, true)).unwrap().name, "d");
}

#[test]
fn children_are_listed_largest_first() {
    let c = children_views(vec![
        row(1, "small", 1, true),
        row(2, "f1", 50, false),
        row(3, "big", 100, true),
        row(4, "f2", 70, false),
        row(5, "mid", 10, true),
    ]);
    let dirs: Vec<&str> = c.subdirviews.iter().map(|d| d.name.as_str()).collect();
    let files: Vec<&str> = c.files.iter().map(|f| f.name.as_str()).collect();
    assert_eq!(dirs, vec!["big", "mid", "small"]);
    assert_eq!(files, vec!["f2", "f1"]);
}

#[test]
fn equal_sizes_keep_their_order() {
    let c = children_views(vec![row(1, "a", 5, true), row(2, "b", 5, true), row(3, "c", 9, true)]);
    let dirs: Vec<&str> = c.subdirviews.iter().map(|d| d.name.as_str()).collect();
    assert_eq!(dirs, vec!["c", "a", "b"]);
}

#[test]
fn comparison_marks_new_deleted_and_changed() {
    let newer = vec![row(1, "kept", 300, true), row(2, "added", 10, false), row(4, "grown", 90, false)];
    let older = vec![row(1, "kept", 100, true), row(3, "gone", 50, true), row(4, "grown", 40, false)];
    let c = diff_snapshot_children(newer, older);
    assert_eq!(c.subdirviews.len(), 2);
    assert_eq!(c.subdirviews[0].name, "kept");
    let kept = c.subdirviews[0].meta.diff.unwrap();
    assert!(!kept.new_dir_flag && !kept.deleted_dir_flag);
    assert_eq!(kept.previous_size, 100);
    assert_eq!(c.subdirviews[1].name, "gone");
    let gone = c.subdirviews[1].meta.diff.unwrap();
    assert!(gone.deleted_dir_flag && !gone.new_dir_flag);
    assert_eq!(gone.previous_size, 0);
    let names: Vec<&str> = c.files.iter().map(|f| f.name.as_str()).collect();
    assert_eq!(names, vec!["grown", "added"]);
    let grown = c.files[0].meta.diff.unwrap();
    assert_eq!(grown.previous_size, 40);
    assert!(!grown.new_file_flag);
    let added = c.files[1].meta.diff.unwrap();
    assert!(added.new_file_flag && !added.deleted_file_flag);
}

#[test]
fn self_comparison_shows_no_change() {
    let x = || vec![row(1, "a", 5, true), row(2, "b", 7, false), row(3, "c", 1, false)];
    let c = diff_snapshot_children(x(), x());
    assert_eq!(c.subdirviews.len() + c.files.len(), 3);
    for d in &c.subdirviews {
        let diff = d.meta.diff.unwrap();
        assert!(!diff.new_dir_flag && !diff.deleted_dir_flag);
        assert_eq!(diff.previous_size, d.meta.size);
    }
    for f in &c.files {
        let diff = f.meta.diff.unwrap();
        assert!(!diff.new_file_flag && !diff.deleted_file_flag);
        assert_eq!(diff.previous_size, f.meta.size);
    }
}

#[test]
fn parent_ids_read_back() {
    for id in [0i64, -17, i64::MIN, i64::MAX] {
        let v = entry_to_dir_view(row(id, "d", 1, true));
        assert_eq!(parse_parent_id(&v.id), Ok(id));
    }
    assert_eq!(parse_parent_id("12x"), Err(AppError::IntParse(IntParseError::InvalidDigit)));
    assert_eq!(parse_parent_id(""), Err(AppError::IntParse(IntParseError::Empty)));
}

#[test]
fn snapshot_file_names_are_read() {
    let m = parse_snapshot_file_name("C_202401021530_1024").unwrap();
    assert_eq!(
        m,
        SnapshotDbMeta {
            drive_letter: "C".to_string(),
            date_time: "2024-01-02 15:30:00".to_string(),
            date_sort_key: 202401021530,
            size: 1024,
            schema_version: 1,
            can_preview: false,
            can_compare: false,
            root_path: None,
        }
    );
    assert_eq!(
        parse_snapshot_file_name("C_2024_01_1"),
        Err(AppError::GeneralLogicalErr(
            "Invalid formatted snapshot file found in app local storage. Restart App.".to_string()
        ))
    );
    assert!(matches!(parse_snapshot_file_name("C_notadate_1"), Err(AppError::DateParse(_))));
    assert_eq!(
        parse_snapshot_file_name("C_202401021530_big"),
        Err(AppError::IntParse(IntParseError::InvalidDigit))
    );
    let with = with_capability(m, SnapshotCapability {
        schema_version: 2,
        can_preview: true,
        can_compare: true,
        root_path: Some("C:\\".to_string()),
    });
    assert!(with.can_compare && with.can_preview);
    assert_eq!(with.schema_version, 2);
    assert_eq!(with.root_path.as_deref(), Some("C:\\"));
    assert_eq!(with.size, 1024);
}

#[test]
fn history_is_sorted_by_day() {
    let h = path_history(vec![
        ("C_202403011200_5".to_string(), Some(30)),
        ("C_202401011200_5".to_string(), Some(10)),
        ("C_202402011200_5".to_string(), None),
        ("C_202402151200_5".to_string(), Some(20)),
    ])
    .unwrap();
    assert_eq!(
        h,
        vec![("2024-01-01".to_string(), 10), ("2024-02-15".to_string(), 20), ("2024-03-01".to_string(), 30)]
    );
    assert_eq!(
        path_history(vec![("C_1_2".to_string(), None), ("bad".to_string(), Some(1))]),
        Err(AppError::GeneralLogicalErr(
            "Cannot parse malformed snapshot filename. Restart application".to_string()
        ))
    );
    assert!(matches!(path_history(vec![("C_nodate_2".to_string(), Some(1))]), Err(AppError::DateParse(_))));
    // a snapshot that does not hold the path is skipped without reading its date
    assert_eq!(path_history(vec![("C_nodate_2".to_string(), None)]), Ok(vec![]));
}

#[test]
fn missing_stats_default_to_empty_directory() {
    let r = stats_or_default(u64::MAX, None);
    assert_eq!(r, SnapshotRecord { id: -1, size: 0, dir_flag: true, sub_folder_count: 0, sub_file_count: 0 });
    let found = SnapshotRecord { id: 5, size: 9, dir_flag: false, sub_folder_count: 0, sub_file_count: 0 };
    assert_eq!(stats_or_default(5, Some(found)), found);
}

#[test]
fn snapshot_files_live_in_their_directory() {
    let p = snapshot_db_path("/app", "C_202401021530_1024");
    assert_eq!(
        std::path::Path::new(&p),
        std::path::Path::new("/app").join("tempsnapshot").join("C_202401021530_1024.db")
    );
}
