use cachebox::config::{
    help_text, parse_nonzero_usize, DEFAULT_BIND_ADDR, DEFAULT_CLEANUP_INTERVAL_MS,
    DEFAULT_CLEANUP_MAX_ENTRIES_PER_TICK, DEFAULT_MAX_BODY_BYTES, DEFAULT_MAX_MEMORY_BYTES,
    DEFAULT_MAX_VALUE_BYTES, DEFAULT_NATIVE_BIND_ADDR, parse_u64_option, read_setting, ConfigError, ConfigSetting,
    NumericOption,
};

fn read(argument: &str, value: Option<&str>) -> Result<ConfigSetting, ConfigError> {
    read_setting(argument.to_string(), value.map(|v| v.to_string()))
}

#[test]
fn help_text_names_the_program_and_every_option() {
    let text = help_text("cachebox");
    assert!(text.starts_with("Cachebox cache server\n\nUsage:\n  cachebox [--bind <addr:port>]"));
    assert!(text.contains("\n  cachebox --help\n"));
    assert!(text.contains("Default: 127.0.0.1:7400"));
    assert!(text.contains("Default: 67108864"));
    assert!(text.ends_with("  -h, --help          Print this help text.\n"));
}

#[test]
fn numeric_options_reject_missing_zero_and_bad_values() {
    assert_eq!(
        parse_nonzero_usize("--max-body-bytes", None, NumericOption::MaxBodyBytes),
        Err(ConfigError::MissingValue { flag: "--max-body-bytes".to_string() })
    );
    assert_eq!(
        parse_nonzero_usize("--max-body-bytes", Some("0".to_string()), NumericOption::MaxBodyBytes),
        Err(ConfigError::InvalidMaxBodyBytes { value: "0".to_string() })
    );
    assert_eq!(
        parse_nonzero_usize("--max-memory-bytes", Some("nope".to_string()), NumericOption::MaxMemoryBytes),
        Err(ConfigError::InvalidMaxMemoryBytes { value: "nope".to_string() })
    );
    assert_eq!(
        parse_nonzero_usize("--max-value-bytes", Some("2048".to_string()), NumericOption::MaxValueBytes),
        Ok(2048)
    );
    assert_eq!(
        parse_u64_option("--cleanup-interval-ms", Some("0".to_string()), NumericOption::CleanupIntervalMs),
        Ok(0)
    );
    assert_eq!(
        parse_u64_option("--cleanup-interval-ms", Some("-1".to_string()), NumericOption::CleanupIntervalMs),
        Err(ConfigError::InvalidCleanupIntervalMs { value: "-1".to_string() })
    );
}

#[test]
fn config_errors_read_as_text() {
    assert_eq!(ConfigError::HelpRequested.message(), "help requested");
    assert_eq!(
        ConfigError::MissingValue { flag: "--bind".to_string() }.message(),
        "missing value for --bind"
    );
    assert_eq!(
        ConfigError::InvalidNativeUnixSocket { value: String::new() }.message(),
        "invalid native Unix socket path: "
    );
}

#[test]
fn parses_bind_address() {
    assert_eq!(
        read("--bind", Some("0.0.0.0:9000")),
        Ok(ConfigSetting::BindAddr("0.0.0.0:9000".to_string()))
    );
    assert_eq!(
        read("--native-bind", Some("127.0.0.1:9001")),
        Ok(ConfigSetting::NativeBindAddr("127.0.0.1:9001".to_string()))
    );
    assert_eq!(
        read("--native-unix", Some("/tmp/cachebox.sock")),
        Ok(ConfigSetting::NativeUnixSocket("/tmp/cachebox.sock".to_string()))
    );
}

#[test]
fn reports_missing_bind_value() {
    assert_eq!(
        read("--bind", None),
        Err(ConfigError::MissingValue {
            flag: "--bind".to_string()
        })
    );
}

#[test]
fn reports_invalid_bind_address() {
    assert_eq!(
        read("--native-unix", Some("")),
        Err(ConfigError::InvalidNativeUnixSocket {
            value: String::new()
        })
    );
}

#[test]
fn parses_max_body_bytes() {
    assert_eq!(read("--max-body-bytes", Some("1024")), Ok(ConfigSetting::MaxBodyBytes(1024)));
    assert_eq!(read("--max-memory-bytes", Some("2048")), Ok(ConfigSetting::MaxMemoryBytes(2048)));
    assert_eq!(read("--max-value-bytes", Some("512")), Ok(ConfigSetting::MaxValueBytes(512)));
    assert_eq!(read("--cleanup-interval-ms", Some("100")), Ok(ConfigSetting::CleanupIntervalMs(100)));
    assert_eq!(
        read("--cleanup-max-entries-per-tick", Some("64")),
        Ok(ConfigSetting::CleanupMaxEntriesPerTick(64))
    );
}

#[test]
fn allows_disabling_background_cleanup() {
    assert_eq!(read("--cleanup-interval-ms", Some("0")), Ok(ConfigSetting::CleanupIntervalMs(0)));
}

#[test]
fn rejects_invalid_max_body_bytes() {
    assert_eq!(
        read("--max-body-bytes", Some("0")),
        Err(ConfigError::InvalidMaxBodyBytes {
            value: "0".to_string()
        })
    );
}

#[test]
fn rejects_invalid_memory_limits() {
    assert_eq!(
        read("--max-memory-bytes", Some("nope")),
        Err(ConfigError::InvalidMaxMemoryBytes {
            value: "nope".to_string()
        })
    );
    assert_eq!(
        read("--max-value-bytes", Some("0")),
        Err(ConfigError::InvalidMaxValueBytes {
            value: "0".to_string()
        })
    );
    assert_eq!(
        read("--cleanup-interval-ms", Some("nope")),
        Err(ConfigError::InvalidCleanupIntervalMs {
            value: "nope".to_string()
        })
    );
    assert_eq!(
        read("--cleanup-max-entries-per-tick", Some("0")),
        Err(ConfigError::InvalidCleanupMaxEntriesPerTick {
            value: "0".to_string()
        })
    );
}

#[test]
fn reports_unknown_argument() {
    assert_eq!(
        read("--verbose", None),
        Err(ConfigError::UnknownArgument {
            argument: "--verbose".to_string()
        })
    );
}

#[test]
fn reports_help_request() {
    assert_eq!(read("--help", None), Err(ConfigError::HelpRequested));
    assert_eq!(read("-h", Some("--bind")), Err(ConfigError::HelpRequested));
}

#[test]
fn uses_default_bind_address() {
    assert_eq!(DEFAULT_BIND_ADDR, "127.0.0.1:7400");
    assert_eq!(DEFAULT_NATIVE_BIND_ADDR, "127.0.0.1:7401");
    assert_eq!(DEFAULT_MAX_BODY_BYTES, 8 * 1024 * 1024);
    assert_eq!(DEFAULT_MAX_MEMORY_BYTES, 64 * 1024 * 1024);
    assert_eq!(DEFAULT_MAX_VALUE_BYTES, 8 * 1024 * 1024);
    assert_eq!(DEFAULT_CLEANUP_INTERVAL_MS, 250);
    assert_eq!(DEFAULT_CLEANUP_MAX_ENTRIES_PER_TICK, 128);
}
