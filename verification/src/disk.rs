//! Disks and ids: naming entries by a hash of their path, and describing the
//! disks that can be scanned.

use vstd::prelude::*;
use crate::error::{AppError, is_logical_error, logical_error};
use crate::model::InitDisk;
use vstd::utf8::encode_utf8;

verus! {

/// What `XxHash64::oneshot(seed, data)` gives: the 64-bit xxHash of the
/// bytes with the seed.
pub uninterp spec fn xxhash64(seed: u64, data: Seq<u8>) -> u64;

/// `twox_hash::XxHash64::oneshot`.
/// Trusted: the result is `xxhash64(seed, data)`, a function of the seed and
/// the bytes alone.
#[verifier::external_body]
fn xxhash64_oneshot(seed: u64, data: &[u8]) -> (r: u64)
    ensures
        r == xxhash64(seed, data@),
{
    twox_hash::XxHash64::oneshot(seed, data)
}

/// The seed of path ids.
pub const PATH_ID_SEED: u64 = 420;

/// The id of a file or directory: the xxHash of its path's UTF-8 bytes with
/// seed 420.
pub fn hash_path_id(path: &str) -> (r: u64)
    ensures
        r == xxhash64(PATH_ID_SEED, encode_utf8(path@)),
{
    xxhash64_oneshot(PATH_ID_SEED, path.as_bytes())
}

/// What `humansize::format_size(bytes, DECIMAL)` gives: the size in decimal
/// units with up to two decimals, such as `1.50 GB`.
pub uninterp spec fn decimal_size_text(bytes: u64) -> Seq<char>;

/// `humansize::format_size` with the `DECIMAL` options.
/// Trusted: the result is `decimal_size_text(bytes)`, a function of the
/// number alone.
#[verifier::external_body]
fn format_decimal_size(bytes: u64) -> (r: String)
    ensures
        r@ == decimal_size_text(bytes),
{
    humansize::format_size(bytes, humansize::DECIMAL)
}

/// A mounted disk as the system reports it.
#[derive(Debug, PartialEq, Eq)]
pub struct DiskSpace {
    pub mount_point: String,
    pub total_space: u64,
    pub available_space: u64,
}

/// How a disk is described: `<mount point> free <available> total <total>`.
pub open spec fn disk_description(d: DiskSpace) -> Seq<char> {
    d.mount_point@ + " free "@ + decimal_size_text(d.available_space) + " total "@
        + decimal_size_text(d.total_space)
}

/// Message when the system reports no disk.
pub open spec fn no_disks_message() -> Seq<char> {
    "No disks found while retrieving disks"@
}

/// The disks offered for scanning, in the order the system reports them,
/// named by their mount point; no disk at all is an error.
pub fn retreive_disks(disks: Vec<DiskSpace>) -> (r: Result<Vec<InitDisk>, AppError>)
    ensures
        disks@.len() == 0 ==> (r matches Err(e) && is_logical_error(e, no_disks_message())),
        disks@.len() > 0 ==> (r matches Ok(list) && list@.len() == disks@.len() && forall|i: int|
            0 <= i < disks@.len() ==> {
                &&& #[trigger] list@[i].name@ == disks@[i].mount_point@
                &&& list@[i].desc@ == disk_description(disks@[i])
            }),
{
    if disks.len() == 0 {
        return Err(logical_error("No disks found while retrieving disks"));
    }
    let mut list: Vec<InitDisk> = Vec::new();
    let mut i: usize = 0;
    while i < disks.len()
        invariant
            i <= disks@.len(),
            list@.len() == i,
            forall|j: int| 0 <= j < i ==> {
                &&& #[trigger] list@[j].name@ == disks@[j].mount_point@
                &&& list@[j].desc@ == disk_description(disks@[j])
            },
        decreases disks@.len() - i,
    {
        let d = &disks[i];
        let total_size = format_decimal_size(d.total_space);
        let size_remaining = format_decimal_size(d.available_space);
        let mut desc = d.mount_point.clone();
        desc.append(" free ");
        desc.append(size_remaining.as_str());
        desc.append(" total ");
        desc.append(total_size.as_str());
        list.push(InitDisk { name: d.mount_point.clone(), desc });
        i = i + 1;
    }
    Ok(list)
}

} // verus!
