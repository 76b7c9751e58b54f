use delta::error::AppError;
use delta::model::{Dir, DirMeta, File, FileMeta, FsTime};
use delta::snapshot::{parse_snapshot_file_name, preview_root, SnapshotEntryRow, SnapshotRecord};
use delta::tree::{dir_children_with_diff, dir_to_view_with_diff, held_root};
use delta::tree::{
    clean_disk_name, dir_children, dir_to_view, find_subdir, plan_current_snapshot, plan_snapshot,
    query_new_dir_object, snapshot_file_stem, tree_rows,
};

fn t(secs: u64) -> FsTime {
    FsTime { before_epoch: false, secs, nanos: 0 }
}

fn file(name: &str, id: u64, size: u64) -> File {
    File { meta: FileMeta { size, created: t(1), modified: t(2) }, name: name.to_string(), id }
}

fn dir(name: &str, id: u64, files: Vec<File>, subdirs: Vec<Dir>) -> Dir {
    let size = files.iter().map(|f| f.meta.size).sum::<u64>() + subdirs.iter().map(|d| d.meta.size).sum::<u64>();
    let meta = DirMeta {
        size,
        created: t(3),
        modified: FsTime { before_epoch: true, secs: 5, nanos: 0 },
        num_files: files.len() as u64,
        num_subdir: subdirs.len() as u64,
    };
    Dir { name: name.to_string(), files, subdirs, meta, id }
}

fn sample() -> Dir {
    dir(
        "root",
        1,
        vec![file("a.txt", 10, 5), file("b.txt", 11, 7)],
        vec![
            dir("docs", 2, vec![file("c.txt", 12, 100)], vec![]),
            dir("pics", 3, vec![], vec![dir("old", 4, vec![file("d.png", 13, 1)], vec![])]),
        ],
    )
}

#[test]
fn rows_are_written_depth_first() {
    let rows = tree_rows(&sample(), "/mnt/disk");
    let names: Vec<&str> = rows.iter().map(|r| r.name.as_str()).collect();
    assert_eq!(names, vec!["root", "pics", "old", "d.png", "docs", "c.txt", "b.txt", "a.txt"]);
    assert_eq!(rows[0].path, "/mnt/disk");
    assert_eq!(rows[0].parent_id, None);
    assert_eq!(rows[0].legacy_parent_id(), 0);
    assert_eq!(rows[0].size, 113);
    assert_eq!(rows[0].sub_file_count, 2);
    assert_eq!(rows[0].sub_folder_count, 2);
    assert_eq!(rows[0].created, 3);
    assert_eq!(rows[0].modified, 0);
    let old = &rows[2];
    assert_eq!(old.parent_id, Some(3));
    assert_eq!(std::path::Path::new(&old.path), std::path::Path::new("/mnt/disk").join("pics").join("old"));
    let dpng = &rows[3];
    assert!(!dpng.dir_flag);
    assert_eq!(dpng.parent_id, Some(4));
    assert_eq!(dpng.legacy_parent_id(), 4);
    assert!(dpng.path.ends_with("d.png"));
}

#[test]
fn disk_names_and_file_names() {
    assert_eq!(clean_disk_name("C:\\"), Ok("C".to_string()));
    assert_eq!(clean_disk_name("/mnt/data_1"), Ok("mntdata1".to_string()));
    assert_eq!(
        clean_disk_name("/"),
        Err(AppError::GeneralLogicalErr("Selected disk name has no letters or digits".to_string()))
    );
    assert_eq!(snapshot_file_stem("C", "202401021530", 113), "C_202401021530_113");
}

#[test]
fn planned_name_reads_back() {
    let root = sample();
    let plan = plan_snapshot(&root, "C:\\", "202401021530", "2024-01-02T15:30:00+01:00").unwrap();
    assert_eq!(plan.file_stem, "C_202401021530_113");
    assert_eq!(plan.schema_version, 2);
    assert_eq!(plan.root_path, "C:\\");
    assert_eq!(plan.root_name, "root");
    assert_eq!(plan.created_at, "2024-01-02T15:30:00+01:00");
    assert_eq!(plan.total_size, 113);
    assert_eq!(plan.rows.len(), 8);
    let meta = parse_snapshot_file_name(&plan.file_stem).unwrap();
    assert_eq!(meta.drive_letter, "C");
    assert_eq!(meta.size, 113);
    assert_eq!(meta.date_sort_key, 202401021530);
    assert_eq!(meta.date_time, "2024-01-02 15:30:00");
}

#[test]
fn current_snapshot_is_named_now() {
    let root = sample();
    let plan = plan_current_snapshot(&root, "D:\\").unwrap();
    let meta = parse_snapshot_file_name(&plan.file_stem).unwrap();
    assert_eq!(meta.drive_letter, "D");
    assert_eq!(meta.size, 113);
    assert!(chrono::DateTime::parse_from_rfc3339(&plan.created_at).is_ok());
    assert!(plan_current_snapshot(&root, "/").is_err());
}

#[test]
fn walking_down_the_tree() {
    let root = sample();
    let path = vec!["pics".to_string(), "old".to_string()];
    let d = find_subdir(&root, &path).unwrap();
    assert_eq!(d.name, "old");
    let missing = vec!["pics".to_string(), "new".to_string()];
    assert_eq!(
        find_subdir(&root, &missing).err(),
        Some(AppError::GeneralLogicalErr(
            "Requested query path has word new which was not found in that directory".to_string()
        ))
    );
    let listing = query_new_dir_object(Some(&root), &vec![]).unwrap();
    let dirs: Vec<&str> = listing.subdirviews.iter().map(|d| d.name.as_str()).collect();
    assert_eq!(dirs, vec!["docs", "pics"]);
    let files: Vec<&str> = listing.files.iter().map(|f| f.name.as_str()).collect();
    assert_eq!(files, vec!["b.txt", "a.txt"]);
    assert_eq!(listing.files[0].id, "11");
    assert_eq!(
        query_new_dir_object(None, &vec![]),
        Err(AppError::GeneralLogicalErr("There is no root Dir object in backend memory state".to_string()))
    );
}

#[test]
fn directory_views() {
    let root = sample();
    let v = dir_to_view(&root);
    assert_eq!(v.id, "1");
    assert_eq!(v.meta.size, 113);
    assert_eq!(v.path, None);
    assert_eq!(v.meta.diff, None);
    let c = dir_children(&root.subdirs[1]);
    assert_eq!(c.subdirviews.len(), 1);
    assert_eq!(c.files.len(), 0);
}

#[test]
fn previewing_a_planned_snapshot_shows_the_root() {
    let root = sample();
    let plan = plan_snapshot(&root, "/mnt/disk", "202401021530", "2024-01-02T15:30:00+00:00").unwrap();
    let first = &plan.rows[0];
    let entry = SnapshotEntryRow {
        id: first.id,
        name: first.name.clone(),
        path: first.path.clone(),
        size: first.size,
        dir_flag: first.dir_flag,
        sub_folder_count: first.sub_folder_count,
        sub_file_count: first.sub_file_count,
        created: first.created,
        modified: first.modified,
    };
    let view = preview_root(entry).unwrap();
    assert_eq!(view.name, "root");
    assert_eq!(view.id, "1");
    assert_eq!(view.path.as_deref(), Some("/mnt/disk"));
    assert_eq!(view.meta.size, 113);
    assert_eq!(view.meta.num_files, 2);
    assert_eq!(view.meta.num_subdir, 2);
    assert_eq!(view.meta.diff, None);
    assert_eq!(view.meta.created, t(3));
}

#[test]
fn joined_paths_use_one_separator() {
    let rows = tree_rows(&sample(), "/mnt/disk/");
    assert_eq!(rows[1].path, "/mnt/disk/pics");
    let rows = tree_rows(&sample(), "/mnt/disk");
    assert_eq!(rows[1].path, "/mnt/disk/pics");
    assert_eq!(delta::config::config_path("/data/app"), "/data/app/config.json");
    assert_eq!(delta::auto_scan::log_path("/data/app"), "/data/app/auto-scan.log");
}

#[test]
fn children_are_compared_with_older_records() {
    let root = sample();
    let older = vec![
        SnapshotRecord { id: 2, size: 40, dir_flag: true, sub_folder_count: 0, sub_file_count: 3 },
        SnapshotRecord { id: 10, size: 5, dir_flag: false, sub_folder_count: 0, sub_file_count: 0 },
        SnapshotRecord { id: 99, size: 7, dir_flag: false, sub_folder_count: 0, sub_file_count: 0 },
    ];
    let c = dir_children_with_diff(&root, &older);
    let docs = c.subdirviews.iter().find(|v| v.name == "docs").unwrap();
    let d = docs.meta.diff.unwrap();
    assert!(!d.new_dir_flag && d.previous_size == 40 && d.prev_num_files == 3);
    let pics = c.subdirviews.iter().find(|v| v.name == "pics").unwrap();
    assert!(pics.meta.diff.unwrap().new_dir_flag);
    assert_eq!(c.files.len(), 2);
    let a = c.files.iter().find(|v| v.name == "a.txt").unwrap();
    assert!(!a.meta.diff.unwrap().new_file_flag);
    let b = c.files.iter().find(|v| v.name == "b.txt").unwrap();
    assert!(b.meta.diff.unwrap().new_file_flag);
    assert_eq!(c.files[0].name, "b.txt");
    let v = dir_to_view_with_diff(&root, None);
    assert!(v.meta.diff.unwrap().new_dir_flag);
    assert!(matches!(held_root(None), Err(AppError::GeneralLogicalErr(_))));
}
