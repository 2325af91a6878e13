use linux2rest::cli::{
    parse_log_setting_key, parse_log_settings, validate_interval, Arguments, LogSetting,
    SettingsError,
};

#[test]
fn blank_settings_list_is_empty() {
    assert_eq!(parse_log_settings(""), Ok(vec![]));
    assert_eq!(parse_log_settings("   \t  "), Ok(vec![]));
}

#[test]
fn well_formed_settings_parse_into_pairs() {
    let parsed = parse_log_settings("system-cpu=10,system-disk=30").unwrap();
    assert_eq!(
        parsed,
        vec![(LogSetting::SystemCpu, 10), (LogSetting::SystemDisk, 30)]
    );
}

#[test]
fn repeated_key_overwrites_earlier_value() {
    let parsed = parse_log_settings("netstat=10,netstat=20").unwrap();
    assert_eq!(parsed, vec![(LogSetting::Netstat, 20)]);
}

#[test]
fn text_after_a_second_equals_sign_is_ignored() {
    let parsed = parse_log_settings("netstat=10=whatever").unwrap();
    assert_eq!(parsed, vec![(LogSetting::Netstat, 10)]);
}

#[test]
fn missing_equals_sign_is_invalid_format() {
    assert_eq!(parse_log_settings("system-cpu"), Err(SettingsError::InvalidFormat));
    assert_eq!(
        parse_log_settings("system-cpu=10,oops"),
        Err(SettingsError::InvalidFormat)
    );
}

#[test]
fn unknown_key_is_rejected() {
    assert_eq!(parse_log_settings("bogus=10"), Err(SettingsError::UnknownKey));
}

#[test]
fn non_numeric_value_is_rejected() {
    assert_eq!(
        parse_log_settings("system-cpu=ten"),
        Err(SettingsError::InvalidValue)
    );
    assert_eq!(parse_log_settings("system-cpu="), Err(SettingsError::InvalidValue));
    assert_eq!(
        parse_log_settings("system-cpu=-10"),
        Err(SettingsError::InvalidValue)
    );
}

#[test]
fn interval_below_the_minimum_is_rejected() {
    assert_eq!(
        parse_log_settings("system-unix-time-seconds=0"),
        Err(SettingsError::IntervalTooSmall(LogSetting::SystemUnixTimeSeconds))
    );
    assert_eq!(
        parse_log_settings("system-temperature=4"),
        Err(SettingsError::IntervalTooSmall(LogSetting::SystemTemperature))
    );
    assert_eq!(
        parse_log_settings("platform=4"),
        Err(SettingsError::IntervalTooSmall(LogSetting::Platform))
    );
    assert_eq!(
        parse_log_settings("system-cpu=9"),
        Err(SettingsError::IntervalTooSmall(LogSetting::SystemCpu))
    );
    assert_eq!(
        parse_log_settings("system-disk=29"),
        Err(SettingsError::IntervalTooSmall(LogSetting::SystemDisk))
    );
}

#[test]
fn the_first_offending_piece_decides_the_error() {
    assert_eq!(
        parse_log_settings("bogus=10,system-cpu"),
        Err(SettingsError::UnknownKey)
    );
    assert_eq!(
        parse_log_settings("system-cpu=9,bogus=10"),
        Err(SettingsError::IntervalTooSmall(LogSetting::SystemCpu))
    );
}

#[test]
fn validate_interval_thresholds() {
    assert!(validate_interval(&LogSetting::SystemUnixTimeSeconds, 1).is_ok());
    assert_eq!(
        validate_interval(&LogSetting::SystemUnixTimeSeconds, 0),
        Err(SettingsError::IntervalTooSmall(LogSetting::SystemUnixTimeSeconds))
    );
    assert!(validate_interval(&LogSetting::SystemTemperature, 5).is_ok());
    assert!(validate_interval(&LogSetting::Platform, 5).is_ok());
    assert!(validate_interval(&LogSetting::SystemProcess, 10).is_ok());
    assert!(validate_interval(&LogSetting::Netstat, 10).is_ok());
    assert!(validate_interval(&LogSetting::SerialPorts, 10).is_ok());
    assert!(validate_interval(&LogSetting::SystemMemory, 10).is_ok());
    assert!(validate_interval(&LogSetting::SystemNetwork, 10).is_ok());
    assert_eq!(
        validate_interval(&LogSetting::SystemNetwork, 9),
        Err(SettingsError::IntervalTooSmall(LogSetting::SystemNetwork))
    );
    assert!(validate_interval(&LogSetting::SystemDisk, 30).is_ok());
    assert!(validate_interval(&LogSetting::SystemInfo, 0).is_ok());
}

#[test]
fn keys_parse_by_their_kebab_case_names() {
    assert_eq!(
        parse_log_setting_key(&"netstat".to_string()),
        Some(LogSetting::Netstat)
    );
    assert_eq!(
        parse_log_setting_key(&"serial-ports".to_string()),
        Some(LogSetting::SerialPorts)
    );
    assert_eq!(
        parse_log_setting_key(&"system-unix-time-seconds".to_string()),
        Some(LogSetting::SystemUnixTimeSeconds)
    );
    assert_eq!(parse_log_setting_key(&"Netstat".to_string()), None);
    assert_eq!(parse_log_setting_key(&"".to_string()), None);
}

#[test]
fn names_round_trip_through_parsing() {
    let all = [
        LogSetting::Netstat,
        LogSetting::Platform,
        LogSetting::SerialPorts,
        LogSetting::SystemCpu,
        LogSetting::SystemDisk,
        LogSetting::SystemInfo,
        LogSetting::SystemMemory,
        LogSetting::SystemNetwork,
        LogSetting::SystemProcess,
        LogSetting::SystemTemperature,
        LogSetting::SystemUnixTimeSeconds,
    ];
    for k in all {
        assert_eq!(parse_log_setting_key(&k.name()), Some(k));
    }
}

#[test]
fn default_arguments() {
    let args = Arguments::default();
    assert!(!args.verbose);
    assert_eq!(args.log_path, "./logs");
    assert_eq!(args.port, 6030);
    assert!(args.log_settings.is_empty());
}
