use delta::disk::{hash_path_id, retreive_disks, DiskSpace};
use delta::error::AppError;

#[test]
fn path_ids_are_xxhash_with_seed() {
    assert_eq!(hash_path_id("/home/user"), twox_hash::XxHash64::oneshot(420, b"/home/user"));
    assert_ne!(hash_path_id("/a"), hash_path_id("/b"));
    assert_ne!(hash_path_id("/a"), twox_hash::XxHash64::oneshot(0, b"/a"));
}

#[test]
fn disks_are_described() {
    let list = retreive_disks(vec![DiskSpace {
        mount_point: "C:\\".to_string(),
        total_space: 500_000_000_000,
        available_space: 1_500_000_000,
    }])
    .unwrap();
    assert_eq!(list.len(), 1);
    assert_eq!(list[0].name, "C:\\");
    assert_eq!(list[0].desc, "C:\\ free 1.50 GB total 500 GB");
    assert_eq!(
        retreive_disks(vec![]),
        Err(AppError::GeneralLogicalErr("No disks found while retrieving disks".to_string()))
    );
}
