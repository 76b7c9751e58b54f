//! The background scan started at login: whether it runs, what it records
//! in the settings, and whether its result is saved as a snapshot.

use vstd::prelude::*;
use crate::clock::{Elapsed, MAX_DELTA_DAYS, elapsed_since, rfc3339_parses, utc_now_rfc3339};
use crate::config::{AppConfig, AutoScanConfig, AutoScanStatus};
use crate::text::{is_blank, is_blank_text, join_path, joined_path};

verus! {

/// The background scan's log file, inside the application data directory.
pub const LOG_FILE_NAME: &'static str = "auto-scan.log";

/// Where the background scan's log lives inside the application data
/// directory.
pub fn log_path(local_appdata_path: &str) -> (r: String)
    ensures
        joined_path(local_appdata_path@, LOG_FILE_NAME@, r@),
{
    join_path(local_appdata_path, LOG_FILE_NAME)
}

/// The command-line argument that starts the application as a background
/// scan.
pub const BACKGROUND_SCAN_ARG: &'static str = "--background-scan";

/// Whether the background-scan argument is among the arguments.
pub fn is_background_scan_requested(args: &Vec<String>) -> (r: bool)
    ensures
        r == exists|i: int| 0 <= i < args@.len() && #[trigger] args@[i]@ == BACKGROUND_SCAN_ARG@,
{
    let flag = String::from_str(BACKGROUND_SCAN_ARG);
    let mut i: usize = 0;
    while i < args.len()
        invariant
            i <= args@.len(),
            flag@ == BACKGROUND_SCAN_ARG@,
            forall|j: int| 0 <= j < i ==> #[trigger] args@[j]@ != BACKGROUND_SCAN_ARG@,
        decreases args@.len() - i,
    {
        if args[i] == flag {
            return true;
        }
        i = i + 1;
    }
    false
}

/// The settings with the last outcome replaced and nothing else changed.
pub open spec fn with_outcome(c: AppConfig, r: AppConfig, status: AutoScanStatus, error: Option<String>) -> bool {
    &&& r.auto_scan.last_status == status
    &&& r.auto_scan.last_error == error
    &&& r.auto_scan.enabled == c.auto_scan.enabled
    &&& r.auto_scan.target_path == c.auto_scan.target_path
    &&& r.auto_scan.interval_days == c.auto_scan.interval_days
    &&& r.auto_scan.save_threshold_bytes == c.auto_scan.save_threshold_bytes
    &&& r.auto_scan.last_scan_at == c.auto_scan.last_scan_at
    &&& r.auto_scan.last_scan_size_bytes == c.auto_scan.last_scan_size_bytes
    &&& r.auto_scan.last_snapshot_file == c.auto_scan.last_snapshot_file
}

/// Records the outcome of the background scan in the settings.
pub fn update_status(config: AppConfig, status: AutoScanStatus, error: Option<String>) -> (r: AppConfig)
    ensures
        with_outcome(config, r, status, error),
{
    let mut config = config;
    config.auto_scan.last_status = status;
    config.auto_scan.last_error = error;
    config
}

/// Records a failure of the background scan in the settings.
pub fn record_background_error(config: AppConfig, message: String) -> (r: AppConfig)
    ensures
        with_outcome(config, r, AutoScanStatus::Error, Some(message)),
{
    update_status(config, AutoScanStatus::Error, Some(message))
}

/// Whether an interval in days is one the clock library can measure.
pub open spec fn interval_supported(interval_days: u64) -> bool {
    -MAX_DELTA_DAYS <= interval_days as i64 <= MAX_DELTA_DAYS
}

/// Tells whether `interval_supported` holds.
pub fn is_interval_supported(interval_days: u64) -> (r: bool)
    ensures
        r == interval_supported(interval_days),
{
    let days = interval_days as i64;
    -MAX_DELTA_DAYS <= days && days <= MAX_DELTA_DAYS
}

/// The length of a span in nanoseconds.
pub open spec fn span_nanos(e: Elapsed) -> int {
    e.secs * 1_000_000_000 + e.nanos
}

/// Whether a span is at least the interval, which is taken as
/// `interval_days as i64` days, as the interval setting is.
pub open spec fn passed(e: Elapsed, interval_days: u64) -> bool {
    span_nanos(e) >= (interval_days as i64) * 86_400 * 1_000_000_000
}

/// Whether a span is at least the interval.
pub fn interval_passed(elapsed: Elapsed, interval_days: u64) -> (r: bool)
    requires
        interval_supported(interval_days),
    ensures
        r == passed(elapsed, interval_days),
{
    let days = interval_days as i64;
    let span = (elapsed.secs as i128) * 1_000_000_000i128 + (elapsed.nanos as i128);
    let interval = (days as i128) * 86_400_000_000_000i128;
    span >= interval
}

/// Whether the background scan is due, given the time since the last scan
/// (`None` when it never ran or its time cannot be read).
pub open spec fn due(elapsed: Option<Elapsed>, interval_days: u64) -> bool {
    match elapsed {
        None => true,
        Some(e) => passed(e, interval_days),
    }
}

/// Whether the background scan is due: always when it never ran or the
/// time of the last scan cannot be read (`elapsed` is `None`); otherwise
/// when at least the interval has passed since then.
pub fn is_due(elapsed: Option<Elapsed>, interval_days: u64) -> (r: bool)
    requires
        elapsed is Some ==> interval_supported(interval_days),
    ensures
        r == due(elapsed, interval_days),
{
    match elapsed {
        None => true,
        Some(e) => interval_passed(e, interval_days),
    }
}

/// Whether the last scan time of the settings is an RFC 3339 time.
pub open spec fn readable_last_scan(config: AutoScanConfig) -> bool {
    config.last_scan_at matches Some(t) && rfc3339_parses(t@)
}

/// The time since the last scan recorded in the settings; `None` when there
/// is none or it cannot be read. Its length depends on the clock.
pub fn elapsed_since_last_scan(config: &AutoScanConfig) -> (r: Option<Elapsed>)
    ensures
        r is Some <==> readable_last_scan(*config),
{
    match &config.last_scan_at {
        Some(t) => elapsed_since(t.as_str()),
        None => None,
    }
}

/// What the background scan records when it stops before scanning.
#[derive(Debug, PartialEq, Eq)]
pub struct StopOutcome {
    pub status: AutoScanStatus,
    pub error: Option<String>,
}

/// The scan stops with an error carrying this message.
pub open spec fn stops_with_error(r: Option<StopOutcome>, msg: Seq<char>) -> bool {
    match r {
        Some(o) => o.status == AutoScanStatus::Error && match o.error {
            Some(m) => m@ == msg,
            None => false,
        },
        None => false,
    }
}

/// Message when the target of the background scan is blank.
pub open spec fn empty_target_message() -> Seq<char> {
    "Auto scan target path is empty"@
}

/// Message when the target of the background scan does not exist.
pub open spec fn missing_target_message() -> Seq<char> {
    "Auto scan target path does not exist"@
}

/// The checks made before the target is looked at: a disabled scan stops
/// as disabled, a blank target stops with an error; otherwise the scan
/// goes on.
pub fn precheck_auto_scan(config: &AutoScanConfig) -> (r: Option<StopOutcome>)
    ensures
        !config.enabled ==> r == Some(StopOutcome { status: AutoScanStatus::Disabled, error: None }),
        config.enabled && is_blank_text(config.target_path@) ==> stops_with_error(r, empty_target_message()),
        config.enabled && !is_blank_text(config.target_path@) ==> r is None,
{
    if !config.enabled {
        return Some(StopOutcome { status: AutoScanStatus::Disabled, error: None });
    }
    if is_blank(config.target_path.as_str()) {
        return Some(StopOutcome {
            status: AutoScanStatus::Error,
            error: Some(String::from_str("Auto scan target path is empty")),
        });
    }
    None
}

/// What the interval check records: nothing when the scan is due,
/// otherwise that it was skipped.
pub open spec fn interval_outcome(elapsed: Option<Elapsed>, interval_days: u64) -> Option<StopOutcome> {
    if due(elapsed, interval_days) {
        None
    } else {
        Some(StopOutcome { status: AutoScanStatus::SkippedInterval, error: None })
    }
}

/// The checks made once it is known whether the target exists and how long
/// ago the last scan was (`elapsed`, as `elapsed_since_last_scan` gives
/// it): a missing target stops with an error, a scan that is not due stops
/// as skipped; otherwise the target is scanned.
pub fn check_target_and_interval(config: &AutoScanConfig, target_exists: bool, elapsed: Option<Elapsed>) -> (r: Option<StopOutcome>)
    requires
        target_exists && elapsed is Some ==> interval_supported(config.interval_days),
    ensures
        !target_exists ==> stops_with_error(r, missing_target_message()),
        target_exists ==> r == interval_outcome(elapsed, config.interval_days),
{
    if !target_exists {
        return Some(StopOutcome {
            status: AutoScanStatus::Error,
            error: Some(String::from_str("Auto scan target path does not exist")),
        });
    }
    if !is_due(elapsed, config.interval_days) {
        return Some(StopOutcome { status: AutoScanStatus::SkippedInterval, error: None });
    }
    None
}

/// The checks of `check_target_and_interval`, with the time since the last
/// scan read from the clock when the target exists. `None` when the target
/// exists, the last scan time is readable and the interval is beyond what
/// the clock library can measure (it panics there); otherwise what those
/// checks give for the time read.
pub fn checked_target_and_interval(config: &AutoScanConfig, target_exists: bool) -> (r: Option<Option<StopOutcome>>)
    ensures
        r is None <==> (target_exists && readable_last_scan(*config) && !interval_supported(config.interval_days)),
        !target_exists ==> (r matches Some(o) && stops_with_error(o, missing_target_message())),
        target_exists && !readable_last_scan(*config) ==> r == Some(None::<StopOutcome>),
        target_exists && readable_last_scan(*config) && interval_supported(config.interval_days) ==>
            exists|e: Elapsed| r == Some(#[trigger] interval_outcome(Some(e), config.interval_days)),
{
    if !target_exists {
        return Some(check_target_and_interval(config, false, None));
    }
    let elapsed = elapsed_since_last_scan(config);
    if elapsed.is_some() && !is_interval_supported(config.interval_days) {
        return None;
    }
    let r = check_target_and_interval(config, true, elapsed);
    proof {
        if let Some(e) = elapsed {
            assert(r == interval_outcome(Some(e), config.interval_days));
        }
    }
    Some(r)
}

/// Whether a scan of `current_size` bytes is saved as a snapshot: when there
/// is no earlier size, or when it differs from the earlier size by at least
/// the threshold.
pub open spec fn worth_saving(previous: Option<u64>, current_size: u64, threshold: u64) -> bool {
    match previous {
        None => true,
        Some(p) => (if current_size >= p { current_size - p } else { p - current_size }) >= threshold,
    }
}

/// Decides whether a finished background scan is saved as a snapshot.
pub fn should_save(previous: Option<u64>, current_size: u64, threshold: u64) -> (r: bool)
    ensures
        r == worth_saving(previous, current_size, threshold),
{
    match previous {
        None => true,
        Some(p) => {
            let diff = if current_size >= p { current_size - p } else { p - current_size };
            diff >= threshold
        },
    }
}

/// The settings after a finished background scan: the scan time and size
/// are recorded and the error cleared; a saved snapshot is recorded with
/// status saved, otherwise the status says that the threshold was not met
/// and the last snapshot stays.
pub open spec fn after_scan(c: AppConfig, r: AppConfig, scanned_at: Seq<char>, current_size: u64, saved: Option<Seq<char>>) -> bool {
    &&& r.auto_scan.enabled == c.auto_scan.enabled
    &&& r.auto_scan.target_path == c.auto_scan.target_path
    &&& r.auto_scan.interval_days == c.auto_scan.interval_days
    &&& r.auto_scan.save_threshold_bytes == c.auto_scan.save_threshold_bytes
    &&& r.auto_scan.last_scan_at matches Some(t) && t@ == scanned_at
    &&& r.auto_scan.last_scan_size_bytes == Some(current_size)
    &&& r.auto_scan.last_error is None
    &&& match saved {
        Some(stem) => {
            &&& r.auto_scan.last_snapshot_file matches Some(f) && f@ == stem
            &&& r.auto_scan.last_status == AutoScanStatus::SuccessSaved
        },
        None => {
            &&& r.auto_scan.last_snapshot_file == c.auto_scan.last_snapshot_file
            &&& r.auto_scan.last_status == AutoScanStatus::SuccessSkippedThreshold
        },
    }
}

/// The text of an optional file name.
pub open spec fn opt_stem(s: Option<String>) -> Option<Seq<char>> {
    match s {
        Some(t) => Some(t@),
        None => None,
    }
}

/// Records a finished background scan, scanned at the given time.
pub fn record_scan_result(config: AppConfig, scanned_at: String, current_size: u64, saved_file_stem: Option<String>) -> (r: AppConfig)
    ensures
        after_scan(config, r, scanned_at@, current_size, opt_stem(saved_file_stem)),
{
    let mut config = config;
    config.auto_scan.last_scan_at = Some(scanned_at);
    config.auto_scan.last_scan_size_bytes = Some(current_size);
    config.auto_scan.last_error = None;
    match saved_file_stem {
        Some(stem) => {
            config.auto_scan.last_snapshot_file = Some(stem);
            config.auto_scan.last_status = AutoScanStatus::SuccessSaved;
        },
        None => {
            config.auto_scan.last_status = AutoScanStatus::SuccessSkippedThreshold;
        },
    }
    config
}

/// Records a finished background scan, scanned now.
pub fn record_scan_now(config: AppConfig, current_size: u64, saved_file_stem: Option<String>) -> (r: AppConfig)
    ensures
        exists|t: Seq<char>| #[trigger] after_scan(config, r, t, current_size, opt_stem(saved_file_stem)),
{
    let now = utc_now_rfc3339();
    let ghost t = now@;
    let r = record_scan_result(config, now, current_size, saved_file_stem);
    assert(after_scan(config, r, t, current_size, opt_stem(saved_file_stem)));
    r
}

/// Waiting longer never makes a due scan skipped: if the scan is due after
/// one span, it is due after any span at least as long; and a wait of at
/// least the interval is always due.
pub proof fn law_longer_wait_stays_due(e1: Elapsed, e2: Elapsed, interval_days: u64)
    requires
        span_nanos(e1) <= span_nanos(e2),
    ensures
        due(Some(e1), interval_days) ==> due(Some(e2), interval_days),
        interval_outcome(Some(e1), interval_days) is None ==> interval_outcome(Some(e2), interval_days) is None,
        span_nanos(e1) >= (interval_days as i64) * 86_400 * 1_000_000_000 ==> interval_outcome(Some(e1), interval_days) is None,
{
}

/// A scan recorded as just taken blocks the next one: right after
/// `record_scan_result` records a time, a check made no time later skips
/// the scan whenever the interval is a positive number of days.
pub proof fn law_recorded_scan_blocks_immediate_rescan(
    c: AppConfig,
    r: AppConfig,
    scanned_at: Seq<char>,
    current_size: u64,
    saved: Option<Seq<char>>,
)
    requires
        after_scan(c, r, scanned_at, current_size, saved),
        interval_supported(c.auto_scan.interval_days),
        (c.auto_scan.interval_days as i64) >= 1,
    ensures
        r.auto_scan.last_scan_at matches Some(t) && t@ == scanned_at,
        r.auto_scan.interval_days == c.auto_scan.interval_days,
        interval_outcome(Some(Elapsed { secs: 0, nanos: 0 }), r.auto_scan.interval_days)
            == Some(StopOutcome { status: AutoScanStatus::SkippedInterval, error: None }),
{
}

} // verus!
