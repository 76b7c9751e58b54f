//! Verified core of a disk-usage explorer: scanning results are folded into a
//! directory tree, trees are flattened into snapshot rows, snapshots are
//! listed, previewed and compared, and the background auto-scan decides when
//! a new snapshot is worth keeping.

pub mod error;
pub mod text;
pub mod config;
pub mod model;
pub mod order;
pub mod clock;
pub mod snapshot;
pub mod tree;
pub mod disk;
pub mod scan;
pub mod auto_scan;
pub mod autostart;
