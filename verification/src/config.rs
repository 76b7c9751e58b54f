//! Application settings: the auto-scan configuration, its defaults, its
//! normalisation after reading and its validation before saving.

use vstd::prelude::*;
use crate::error::{AppError, is_logical_error, logical_error};
use crate::text::{is_blank, is_blank_text, join_path, joined_path};

verus! {

/// Days between automatic scans when nothing else is configured.
pub const DEFAULT_INTERVAL_DAYS: u64 = 7;

/// Change in total size, in bytes, below which a new automatic scan is not
/// saved as a snapshot (one gibibyte).
pub const DEFAULT_THRESHOLD_BYTES: u64 = 1_073_741_824;

/// The settings file, inside the application data directory.
pub const CONFIG_FILE_NAME: &'static str = "config.json";

/// The whole settings file.
#[derive(Debug)]
pub struct AppConfig {
    pub auto_scan: AutoScanConfig,
}

/// What the settings page shows about the background scan set-up.
#[derive(Debug)]
pub struct AutoScanDiagnostics {
    pub log_path: String,
    pub autostart_enabled: bool,
    pub current_exe: String,
}

/// Settings and last outcome of the background scan.
#[derive(Debug)]
pub struct AutoScanConfig {
    pub enabled: bool,
    pub target_path: String,
    pub interval_days: u64,
    pub save_threshold_bytes: u64,
    pub last_scan_at: Option<String>,
    pub last_scan_size_bytes: Option<u64>,
    pub last_snapshot_file: Option<String>,
    pub last_status: AutoScanStatus,
    pub last_error: Option<String>,
}

/// Outcome of the last background scan.
#[derive(Clone, Copy, Debug, PartialEq, Eq, Structural)]
pub enum AutoScanStatus {
    NeverRun,
    SuccessSaved,
    SuccessSkippedThreshold,
    SkippedInterval,
    Disabled,
    Error,
}

/// The settings of a fresh installation.
pub open spec fn is_default_auto_scan(c: AutoScanConfig) -> bool {
    &&& !c.enabled
    &&& c.target_path@ == Seq::<char>::empty()
    &&& c.interval_days == DEFAULT_INTERVAL_DAYS
    &&& c.save_threshold_bytes == DEFAULT_THRESHOLD_BYTES
    &&& c.last_scan_at is None
    &&& c.last_scan_size_bytes is None
    &&& c.last_snapshot_file is None
    &&& c.last_status == AutoScanStatus::NeverRun
    &&& c.last_error is None
}

impl Default for AutoScanStatus {
    fn default() -> (r: Self)
        ensures
            r == AutoScanStatus::NeverRun,
    {
        AutoScanStatus::NeverRun
    }
}

impl Default for AutoScanConfig {
    fn default() -> (r: Self)
        ensures
            is_default_auto_scan(r),
    {
        AutoScanConfig {
            enabled: false,
            target_path: String::new(),
            interval_days: DEFAULT_INTERVAL_DAYS,
            save_threshold_bytes: DEFAULT_THRESHOLD_BYTES,
            last_scan_at: None,
            last_scan_size_bytes: None,
            last_snapshot_file: None,
            last_status: AutoScanStatus::NeverRun,
            last_error: None,
        }
    }
}

impl Default for AppConfig {
    fn default() -> (r: Self)
        ensures
            is_default_auto_scan(r.auto_scan),
    {
        AppConfig { auto_scan: AutoScanConfig::default() }
    }
}

/// The interval used when the settings file does not give one.
pub fn default_interval_days() -> (r: u64)
    ensures
        r == DEFAULT_INTERVAL_DAYS,
{
    DEFAULT_INTERVAL_DAYS
}

/// The save threshold used when the settings file does not give one.
pub fn default_threshold_bytes() -> (r: u64)
    ensures
        r == DEFAULT_THRESHOLD_BYTES,
{
    DEFAULT_THRESHOLD_BYTES
}

/// Where the settings file lives inside the application data directory.
pub fn config_path(local_appdata_path: &str) -> (r: String)
    ensures
        joined_path(local_appdata_path@, CONFIG_FILE_NAME@, r@),
{
    join_path(local_appdata_path, CONFIG_FILE_NAME)
}

/// Settings as they are used after reading: an interval of zero days stands
/// for the default interval; everything else is kept.
pub open spec fn normalized(c: AppConfig, r: AppConfig) -> bool {
    &&& r.auto_scan.interval_days == (if c.auto_scan.interval_days == 0 {
        DEFAULT_INTERVAL_DAYS
    } else {
        c.auto_scan.interval_days
    })
    &&& r.auto_scan.enabled == c.auto_scan.enabled
    &&& r.auto_scan.target_path == c.auto_scan.target_path
    &&& r.auto_scan.save_threshold_bytes == c.auto_scan.save_threshold_bytes
    &&& r.auto_scan.last_scan_at == c.auto_scan.last_scan_at
    &&& r.auto_scan.last_scan_size_bytes == c.auto_scan.last_scan_size_bytes
    &&& r.auto_scan.last_snapshot_file == c.auto_scan.last_snapshot_file
    &&& r.auto_scan.last_status == c.auto_scan.last_status
    &&& r.auto_scan.last_error == c.auto_scan.last_error
}

/// Replaces an interval of zero days by the default interval.
pub fn normalize_app_config(config: AppConfig) -> (r: AppConfig)
    ensures
        normalized(config, r),
        r.auto_scan.interval_days >= 1,
{
    let mut config = config;
    if config.auto_scan.interval_days == 0 {
        config.auto_scan.interval_days = DEFAULT_INTERVAL_DAYS;
    }
    config
}

/// Message when auto scan is enabled without a target.
pub open spec fn target_required_message() -> Seq<char> {
    "Auto scan target path is required when auto scan is enabled"@
}

/// Message when the interval is zero days.
pub open spec fn interval_too_small_message() -> Seq<char> {
    "Auto scan interval must be at least 1 day"@
}

/// Checks settings sent by the user before they are saved: an enabled auto
/// scan needs a target that is not blank, and the interval must be at least
/// one day. The first failing check decides the error.
pub fn validate_auto_scan_config(config: &AutoScanConfig) -> (r: Result<(), AppError>)
    ensures
        config.enabled && is_blank_text(config.target_path@) ==>
            (r matches Err(e) && is_logical_error(e, target_required_message())),
        !(config.enabled && is_blank_text(config.target_path@)) && config.interval_days == 0 ==>
            (r matches Err(e) && is_logical_error(e, interval_too_small_message())),
        !(config.enabled && is_blank_text(config.target_path@)) && config.interval_days != 0 ==>
            r is Ok,
{
    if config.enabled && is_blank(config.target_path.as_str()) {
        return Err(logical_error("Auto scan target path is required when auto scan is enabled"));
    }
    if config.interval_days == 0 {
        return Err(logical_error("Auto scan interval must be at least 1 day"));
    }
    Ok(())
}


/// Normalising settings twice changes nothing more than normalising them
/// once.
pub proof fn law_normalize_idempotent(c: AppConfig, once: AppConfig, twice: AppConfig)
    requires
        normalized(c, once),
        normalized(once, twice),
    ensures
        normalized(c, twice),
{
}

/// The settings of a fresh installation pass validation.
pub proof fn law_default_settings_are_valid(c: AutoScanConfig)
    requires
        is_default_auto_scan(c),
    ensures
        !(c.enabled && is_blank_text(c.target_path@)),
        c.interval_days != 0,
{
}

} // verus!
