use delta::auto_scan::{
    check_target_and_interval, checked_target_and_interval, elapsed_since_last_scan, interval_passed,
    is_background_scan_requested, is_due, is_interval_supported, log_path,
    precheck_auto_scan, record_background_error, record_scan_now, record_scan_result, should_save, update_status,
    StopOutcome,
};
use delta::clock::Elapsed;
use delta::config::{AppConfig, AutoScanConfig, AutoScanStatus};

#[test]
fn background_flag() {
    assert!(is_background_scan_requested(&vec!["app".to_string(), "--background-scan".to_string()]));
    assert!(!is_background_scan_requested(&vec!["app".to_string(), "--background".to_string()]));
}

#[test]
fn errors_are_recorded() {
    let c = record_background_error(AppConfig::default(), "boom".to_string());
    assert_eq!(c.auto_scan.last_status, AutoScanStatus::Error);
    assert_eq!(c.auto_scan.last_error.as_deref(), Some("boom"));
    assert_eq!(c.auto_scan.interval_days, 7);
    let c = update_status(c, AutoScanStatus::Disabled, None);
    assert_eq!(c.auto_scan.last_status, AutoScanStatus::Disabled);
    assert!(c.auto_scan.last_error.is_none());
}

#[test]
fn due_rules() {
    let day = 86_400i64;
    assert!(is_due(None, 7));
    assert!(!is_due(Some(Elapsed { secs: 0, nanos: 0 }), 7));
    assert!(is_due(Some(Elapsed { secs: 8 * day, nanos: 0 }), 7));
    assert!(is_due(Some(Elapsed { secs: 7 * day, nanos: 0 }), 7));
    assert!(!is_due(Some(Elapsed { secs: 7 * day - 1, nanos: 999_999_999 }), 7));
    assert!(is_due(Some(Elapsed { secs: 0, nanos: 0 }), 0));
    assert!(!is_due(Some(Elapsed { secs: -1, nanos: 0 }), 0));
    assert!(interval_passed(Elapsed { secs: 0, nanos: 1 }, 0));
    assert!(is_interval_supported(7));
    assert!(!is_interval_supported(u64::MAX / 2));
}

#[test]
fn elapsed_time_is_read_from_the_settings() {
    let mut c = enabled("/data");
    assert_eq!(elapsed_since_last_scan(&c), None);
    c.last_scan_at = Some("yesterday".to_string());
    assert_eq!(elapsed_since_last_scan(&c), None);
    c.last_scan_at = Some((chrono::Utc::now() - chrono::TimeDelta::days(8)).to_rfc3339());
    let e = elapsed_since_last_scan(&c).expect("a readable time");
    assert!(e.secs >= 8 * 86_400 && e.secs < 9 * 86_400);
}

#[test]
fn saving_threshold() {
    assert!(should_save(None, 5, 100));
    assert!(!should_save(Some(100), 150, 100));
    assert!(should_save(Some(100), 200, 100));
    assert!(should_save(Some(300), 200, 100));
    assert!(should_save(Some(u64::MAX), 0, u64::MAX));
}

fn enabled(target: &str) -> AutoScanConfig {
    let mut c = AutoScanConfig::default();
    c.enabled = true;
    c.target_path = target.to_string();
    c
}

#[test]
fn stops_before_scanning() {
    assert_eq!(
        precheck_auto_scan(&AutoScanConfig::default()),
        Some(StopOutcome { status: AutoScanStatus::Disabled, error: None })
    );
    assert_eq!(
        precheck_auto_scan(&enabled("   ")),
        Some(StopOutcome { status: AutoScanStatus::Error, error: Some("Auto scan target path is empty".to_string()) })
    );
    assert_eq!(precheck_auto_scan(&enabled("/data")), None);
    assert_eq!(
        check_target_and_interval(&enabled("/data"), false, None),
        Some(StopOutcome {
            status: AutoScanStatus::Error,
            error: Some("Auto scan target path does not exist".to_string())
        })
    );
    assert_eq!(check_target_and_interval(&enabled("/data"), true, None), None);
    let recent = enabled("/data");
    assert_eq!(
        check_target_and_interval(&recent, true, Some(Elapsed { secs: 60, nanos: 0 })),
        Some(StopOutcome { status: AutoScanStatus::SkippedInterval, error: None })
    );
}

#[test]
fn finished_scans_are_recorded() {
    let mut c = AppConfig::default();
    c.auto_scan.last_error = Some("old".to_string());
    c.auto_scan.last_snapshot_file = Some("C_1_1".to_string());
    let c = record_scan_result(c, "2024-01-01T00:00:00+00:00".to_string(), 99, None);
    assert_eq!(c.auto_scan.last_status, AutoScanStatus::SuccessSkippedThreshold);
    assert_eq!(c.auto_scan.last_snapshot_file.as_deref(), Some("C_1_1"));
    assert_eq!(c.auto_scan.last_scan_size_bytes, Some(99));
    assert!(c.auto_scan.last_error.is_none());
    let c = record_scan_result(c, "2024-02-01T00:00:00+00:00".to_string(), 5, Some("C_2_5".to_string()));
    assert_eq!(c.auto_scan.last_status, AutoScanStatus::SuccessSaved);
    assert_eq!(c.auto_scan.last_snapshot_file.as_deref(), Some("C_2_5"));
    assert_eq!(c.auto_scan.last_scan_at.as_deref(), Some("2024-02-01T00:00:00+00:00"));
}

#[test]
fn log_file_location() {
    let p = log_path("/app");
    assert_eq!(std::path::Path::new(&p), std::path::Path::new("/app").join("auto-scan.log"));
}

#[test]
fn unmeasurable_intervals_are_caught() {
    let mut huge = enabled("/data");
    huge.interval_days = u64::MAX / 2;
    assert_eq!(checked_target_and_interval(&huge, true), Some(None));
    huge.last_scan_at = Some("not a time".to_string());
    assert_eq!(checked_target_and_interval(&huge, true), Some(None));
    huge.last_scan_at = Some(chrono::Utc::now().to_rfc3339());
    assert_eq!(checked_target_and_interval(&huge, true), None);
    assert_eq!(
        checked_target_and_interval(&huge, false),
        Some(Some(StopOutcome {
            status: AutoScanStatus::Error,
            error: Some("Auto scan target path does not exist".to_string())
        }))
    );
    let mut recent = enabled("/data");
    recent.last_scan_at = Some(chrono::Utc::now().to_rfc3339());
    assert_eq!(
        checked_target_and_interval(&recent, true),
        Some(Some(StopOutcome { status: AutoScanStatus::SkippedInterval, error: None }))
    );
}

#[test]
fn scans_recorded_now_carry_a_readable_time() {
    let c = record_scan_now(AppConfig::default(), 42, Some("C_202401010000_42".to_string()));
    assert_eq!(c.auto_scan.last_status, AutoScanStatus::SuccessSaved);
    assert_eq!(c.auto_scan.last_scan_size_bytes, Some(42));
    let at = c.auto_scan.last_scan_at.expect("scan time recorded");
    assert!(chrono::DateTime::parse_from_rfc3339(&at).is_ok());
}
