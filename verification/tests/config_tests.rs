use moesniper::config::{check_size, parse_size, size_in_range, DalLevel, EnvVars, EnvWarning, Settings};

fn no_env() -> EnvVars {
    EnvVars {
        lock_timeout: None,
        max_file_size: None,
        backup_retention_count: None,
        backup_max_age_days: None,
        disable_audit: false,
        dal_level: None,
        pid_base_ms: None,
    }
}

#[test]
fn test_default_config() {
    let config = Settings::default();
    assert_eq!(config.lock_timeout_secs, 30);
    assert_eq!(config.max_file_size, 100 * 1024 * 1024);
    assert_eq!(config.backup_retention_count, 50);
    assert_eq!(config.backup_max_age_days, 30);
    assert!(config.audit_enabled);
}

#[test]
fn test_parse_size_bytes() {
    assert_eq!(parse_size("100"), Some(100));
    assert_eq!(parse_size("100B"), Some(100));
}

#[test]
fn test_parse_size_kb() {
    assert_eq!(parse_size("10KB"), Some(10 * 1024));
    assert_eq!(parse_size("10kb"), Some(10 * 1024));
}

#[test]
fn test_parse_size_mb() {
    assert_eq!(parse_size("100MB"), Some(100 * 1024 * 1024));
    assert_eq!(parse_size("1MB"), Some(1024 * 1024));
}

#[test]
fn test_parse_size_gb() {
    assert_eq!(parse_size("1GB"), Some(1024 * 1024 * 1024));
    assert_eq!(parse_size("2GB"), Some(2 * 1024 * 1024 * 1024));
}

#[test]
fn test_parse_size_whitespace() {
    assert_eq!(parse_size("  100  MB  "), Some(100 * 1024 * 1024));
}

#[test]
fn test_parse_size_invalid() {
    assert_eq!(parse_size("invalid"), None);
    assert_eq!(parse_size("MB"), None);
    assert_eq!(parse_size(""), None);
}

#[test]
fn parse_size_plus_sign_and_overflow_guard() {
    assert_eq!(parse_size("+5kb"), Some(5 * 1024));
    assert!(size_in_range("17179869183GB"));
    assert!(!size_in_range("17179869184GB"));
    assert!(size_in_range("not a size"));
}

#[test]
fn dal_level_from_text() {
    assert_eq!(DalLevel::from_env_value(""), DalLevel::Baseline);
    assert_eq!(DalLevel::from_env_value("Enhanced"), DalLevel::Enhanced);
    assert_eq!(DalLevel::from_env_value("MAXIMUM"), DalLevel::Maximum);
    assert_eq!(DalLevel::from_env_value("maximum"), DalLevel::Maximum);
    assert_eq!(DalLevel::from_env_value("  enhanced \n"), DalLevel::Enhanced);
    assert_eq!(DalLevel::from_env_value("garbage"), DalLevel::Baseline);
    assert_eq!(DalLevel::default(), DalLevel::Baseline);
}

#[test]
fn settings_from_env_overrides() {
    let mut env = no_env();
    env.lock_timeout = Some("60".to_string());
    env.backup_retention_count = Some("10".to_string());
    env.disable_audit = true;
    let (s, warnings) = Settings::from_env_vars(&env);
    assert_eq!(s.lock_timeout_secs, 60);
    assert_eq!(s.backup_retention_count, 10);
    assert!(!s.audit_enabled);
    assert!(warnings.is_empty());
}

#[test]
fn settings_clamp_timeout_and_pacing() {
    let mut env = no_env();
    env.lock_timeout = Some("9999".to_string());
    env.pid_base_ms = Some(" 999999 ".to_string());
    let (s, _) = Settings::from_env_vars(&env);
    assert_eq!(s.lock_timeout_secs, 60);
    assert_eq!(s.pid_base_ms, 5000);
    let mut env = no_env();
    env.lock_timeout = Some("0".to_string());
    let (s, _) = Settings::from_env_vars(&env);
    assert_eq!(s.lock_timeout_secs, 1);
    assert_eq!(s.lock_timeout_ms(), 1000);
}

#[test]
fn settings_warn_on_non_numeric() {
    let mut env = no_env();
    env.lock_timeout = Some("soon".to_string());
    env.pid_base_ms = Some("x".to_string());
    env.max_file_size = Some("huge".to_string());
    env.backup_max_age_days = Some("-3".to_string());
    let (s, warnings) = Settings::from_env_vars(&env);
    assert_eq!(s.lock_timeout_secs, 30);
    assert_eq!(s.pid_base_ms, 0);
    assert_eq!(s.max_file_size, 100 * 1024 * 1024);
    assert_eq!(s.backup_max_age_days, 30);
    assert_eq!(
        warnings,
        vec![EnvWarning::LockTimeoutNotNumeric, EnvWarning::PidBaseNotNumeric]
    );
}

#[test]
fn settings_size_and_dal_from_env() {
    let mut env = no_env();
    env.max_file_size = Some("2mb".to_string());
    env.dal_level = Some("Maximum".to_string());
    env.backup_max_age_days = Some("7".to_string());
    let (s, _) = Settings::from_env_vars(&env);
    assert_eq!(s.max_file_size, 2 * 1024 * 1024);
    assert_eq!(s.dal_level, DalLevel::Maximum);
    assert_eq!(s.backup_max_age_days, 7);
}

#[test]
fn file_size_limit() {
    assert!(check_size(100, 0).is_ok());
    assert!(check_size(100, 100).is_ok());
    assert_eq!(
        check_size(101, 100).unwrap_err(),
        "File too large: 101 bytes (max: 100 bytes). Use SNIPER_MAX_FILE_SIZE to increase limit."
    );
}
