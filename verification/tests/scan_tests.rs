use delta::disk::hash_path_id;
use delta::error::AppError;
use delta::model::{FileMeta, FsTime};
use delta::scan::{ChildKind, ScanEventMode, ScanState};

fn t(secs: u64) -> FsTime {
    FsTime { before_epoch: false, secs, nanos: 0 }
}

fn meta(size: u64) -> FileMeta {
    FileMeta { size, created: t(1), modified: t(2) }
}

fn add_file(s: &mut ScanState, path: &str, parent: &str, name: &str, size: u64) {
    s.note_entry();
    assert!(s.can_add_file(&Some(parent.to_string()), size));
    s.add_file(path.to_string(), Some(parent.to_string()), name.to_string(), meta(size), Some(path.to_string()));
}

#[test]
fn silent_scan_builds_the_tree() {
    let mut s = ScanState::new(ScanEventMode::Silent);
    add_file(&mut s, "/r/a/x.txt", "/r/a", "x.txt", 10);
    add_file(&mut s, "/r/a/y.txt", "/r/a", "y.txt", 5);
    let children = vec![
        ("/r/a/x.txt".to_string(), ChildKind::File),
        ("/r/a/y.txt".to_string(), ChildKind::File),
        ("/r/a/lnk".to_string(), ChildKind::Other),
    ];
    assert!(s.can_add_dir(&children));
    let (b, e) = s.add_dir("/r/a".into(), Some("/r".into()), "a".into(), t(3), t(4), Some("/r/a".into()), &children);
    assert!(b.is_none() && e.is_none());
    add_file(&mut s, "/r/z.bin", "/r", "z.bin", 100);
    let children = vec![("/r/a".to_string(), ChildKind::Dir), ("/r/z.bin".to_string(), ChildKind::File)];
    s.add_dir("/r".into(), Some("/".into()), "r".into(), t(3), t(4), Some("/r".into()), &children);
    let (batch, root) = s.finish();
    assert!(batch.is_none());
    let root = root.unwrap();
    assert_eq!(root.name, "r");
    assert_eq!(root.meta.size, 115);
    assert_eq!(root.meta.num_files, 1);
    assert_eq!(root.meta.num_subdir, 1);
    assert_eq!(root.id, hash_path_id("/r"));
    let a = &root.subdirs[0];
    assert_eq!(a.meta.size, 15);
    assert_eq!(a.meta.num_files, 2);
    assert_eq!(a.files[0].id, hash_path_id("/r/a/x.txt"));
}

#[test]
fn a_scan_needs_a_single_root() {
    let mut s = ScanState::new(ScanEventMode::Silent);
    s.add_dir("/a".into(), None, "a".into(), t(0), t(0), None, &vec![]);
    s.add_dir("/b".into(), None, "b".into(), t(0), t(0), None, &vec![]);
    let (_, r) = s.finish();
    assert_eq!(
        r.err(),
        Some(AppError::GeneralLogicalErr(
            "During scan a single root directory for the disk does not exist".to_string()
        ))
    );
    let (_, r) = ScanState::new(ScanEventMode::Live).finish();
    assert!(r.is_err());
}

#[test]
fn ids_fall_back_when_paths_are_not_text() {
    let mut s = ScanState::new(ScanEventMode::Silent);
    s.add_file("/x/f".into(), None, "f".into(), meta(1), None);
    let children = vec![("/x/f".to_string(), ChildKind::File)];
    s.add_dir("/x".into(), None, "x".into(), t(0), t(0), None, &children);
    let (_, r) = s.finish();
    let root = r.unwrap();
    assert_eq!(root.id, hash_path_id("thereisnothingthisisjusttestchangelater"));
    assert_eq!(root.files[0].id, hash_path_id("err"));
}

#[test]
fn live_scan_reports_files_in_batches() {
    let mut s = ScanState::new(ScanEventMode::Live);
    let mut batches = Vec::new();
    for i in 0..1001u64 {
        let path = format!("/r/f{}", i);
        let parent = if i % 2 == 0 { "/r" } else { "/r/sub" };
        if let Some(b) = s.add_file(path.clone(), Some(parent.to_string()), format!("f{}", i), meta(2), Some(path)) {
            batches.push(b);
        }
    }
    assert_eq!(batches.len(), 2);
    for b in &batches {
        assert_eq!(b.entry_count, 500);
        assert_eq!(b.updates.iter().map(|u| u.file_count).sum::<u64>(), 500);
        assert_eq!(b.updates.iter().map(|u| u.size).sum::<u64>(), 1000);
    }
    assert_eq!(batches[0].updates[0].parent_path, "/r");
    assert_eq!(s.pending_count, 1);
    let (b, e) = s.add_dir("/r/sub".into(), Some("/r".into()), "sub".into(), t(0), t(0), Some("/r/sub".into()), &vec![]);
    assert_eq!(b.unwrap().entry_count, 1);
    let e = e.unwrap();
    assert_eq!(e.entry_type, "directory");
    assert_eq!(e.path, "/r/sub");
    assert_eq!(e.parent_path.as_deref(), Some("/r"));
    assert_eq!(e.id, hash_path_id("/r/sub").to_string());
    assert_eq!(e.size, 0);
    let (b, e) = s.add_dir("/r".into(), None, "r".into(), t(0), t(0), Some("/r".into()), &vec![]);
    assert!(b.is_none());
    assert!(e.is_some());
}

#[test]
fn progress_every_ten_thousand_entries() {
    let mut s = ScanState::new(ScanEventMode::Live);
    let mut reported = Vec::new();
    for _ in 0..20001 {
        if let Some(n) = s.note_entry() {
            reported.push(n);
        }
    }
    assert_eq!(reported, vec![10000, 20000]);
    let mut quiet = ScanState::new(ScanEventMode::Silent);
    for _ in 0..10000 {
        assert_eq!(quiet.note_entry(), None);
    }
}

#[test]
fn oversized_listings_are_detected() {
    let mut s = ScanState::new(ScanEventMode::Silent);
    s.add_file("/r/a".into(), None, "a".into(), meta(u64::MAX), None);
    s.add_file("/r/b".into(), None, "b".into(), meta(1), None);
    let both = vec![("/r/a".to_string(), ChildKind::File), ("/r/b".to_string(), ChildKind::File)];
    assert!(!s.can_add_dir(&both));
    let one = vec![("/r/a".to_string(), ChildKind::File), ("/r/a".to_string(), ChildKind::File)];
    assert!(s.can_add_dir(&one));
}
