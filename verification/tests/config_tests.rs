use delta::config::{
    config_path, default_interval_days, default_threshold_bytes, normalize_app_config,
    validate_auto_scan_config, AppConfig, AutoScanConfig, AutoScanStatus,
};
use delta::error::AppError;

#[test]
fn default_settings() {
    let c = AppConfig::default();
    assert!(!c.auto_scan.enabled);
    assert_eq!(c.auto_scan.target_path, "");
    assert_eq!(c.auto_scan.interval_days, 7);
    assert_eq!(c.auto_scan.save_threshold_bytes, 1_073_741_824);
    assert_eq!(c.auto_scan.last_status, AutoScanStatus::NeverRun);
    assert_eq!(AutoScanStatus::default(), AutoScanStatus::NeverRun);
    assert_eq!(default_interval_days(), 7);
    assert_eq!(default_threshold_bytes(), 1_073_741_824);
    assert!(validate_auto_scan_config(&c.auto_scan).is_ok());
}

#[test]
fn zero_interval_is_normalized() {
    let mut c = AppConfig::default();
    c.auto_scan.interval_days = 0;
    c.auto_scan.target_path = "/data".to_string();
    let n = normalize_app_config(c);
    assert_eq!(n.auto_scan.interval_days, 7);
    assert_eq!(n.auto_scan.target_path, "/data");
    let mut c = AppConfig::default();
    c.auto_scan.interval_days = 3;
    assert_eq!(normalize_app_config(c).auto_scan.interval_days, 3);
}

fn config(enabled: bool, target: &str, interval: u64) -> AutoScanConfig {
    let mut c = AutoScanConfig::default();
    c.enabled = enabled;
    c.target_path = target.to_string();
    c.interval_days = interval;
    c
}

#[test]
fn validation_errors() {
    assert_eq!(
        validate_auto_scan_config(&config(true, "  \t", 7)),
        Err(AppError::GeneralLogicalErr(
            "Auto scan target path is required when auto scan is enabled".to_string()
        ))
    );
    assert_eq!(
        validate_auto_scan_config(&config(true, "/home", 0)),
        Err(AppError::GeneralLogicalErr("Auto scan interval must be at least 1 day".to_string()))
    );
    // the target check comes first
    assert!(matches!(
        validate_auto_scan_config(&config(true, "", 0)),
        Err(AppError::GeneralLogicalErr(m)) if m.contains("target path")
    ));
    assert!(validate_auto_scan_config(&config(false, "", 1)).is_ok());
    assert!(validate_auto_scan_config(&config(true, "/home", 1)).is_ok());
}

#[test]
fn config_file_location() {
    let p = config_path("/tmp/appdata");
    assert_eq!(std::path::Path::new(&p), std::path::Path::new("/tmp/appdata").join("config.json"));
    assert!(p.ends_with("config.json"));
}
