//! Server configuration: defaults, the errors of command-line parsing, the
//! numeric option values, and the help text.

use vstd::prelude::*;
use crate::bytes::{text_bytes, text_eq};
use crate::text::{parse_u64, parse_u64_range};

verus! {

pub const DEFAULT_BIND_ADDR: &'static str = "127.0.0.1:7400";
pub const DEFAULT_NATIVE_BIND_ADDR: &'static str = "127.0.0.1:7401";
pub const DEFAULT_MAX_BODY_BYTES: usize = 8388608;
pub const DEFAULT_MAX_MEMORY_BYTES: usize = 67108864;
pub const DEFAULT_MAX_VALUE_BYTES: usize = 8388608;
pub const DEFAULT_CLEANUP_INTERVAL_MS: u64 = 250;
pub const DEFAULT_CLEANUP_MAX_ENTRIES_PER_TICK: usize = 128;

#[derive(Debug, Clone, PartialEq, Eq)]
pub enum ConfigError {
    HelpRequested,
    MissingValue { flag: String },
    UnknownArgument { argument: String },
    InvalidBindAddress { value: String },
    InvalidNativeBindAddress { value: String },
    InvalidNativeUnixSocket { value: String },
    InvalidMaxBodyBytes { value: String },
    InvalidMaxMemoryBytes { value: String },
    InvalidMaxValueBytes { value: String },
    InvalidCleanupIntervalMs { value: String },
    InvalidCleanupMaxEntriesPerTick { value: String },
}

/// The human-readable text of a configuration error.
pub open spec fn config_error_text(e: ConfigError) -> Seq<char> {
    match e {
        ConfigError::HelpRequested => "help requested"@,
        ConfigError::MissingValue { flag } => "missing value for "@ + flag@,
        ConfigError::UnknownArgument { argument } => "unknown argument: "@ + argument@,
        ConfigError::InvalidBindAddress { value } => "invalid bind address: "@ + value@,
        ConfigError::InvalidNativeBindAddress { value } => "invalid native bind address: "@ + value@,
        ConfigError::InvalidNativeUnixSocket { value } => "invalid native Unix socket path: "@
            + value@,
        ConfigError::InvalidMaxBodyBytes { value } => "invalid max body byte limit: "@ + value@,
        ConfigError::InvalidMaxMemoryBytes { value } => "invalid max memory byte limit: "@ + value@,
        ConfigError::InvalidMaxValueBytes { value } => "invalid max value byte limit: "@ + value@,
        ConfigError::InvalidCleanupIntervalMs { value } =>
            "invalid cleanup interval in milliseconds: "@ + value@,
        ConfigError::InvalidCleanupMaxEntriesPerTick { value } =>
            "invalid cleanup max entries per tick: "@ + value@,
    }
}

fn prefixed(prefix: &str, rest: &String) -> (r: String)
    ensures
        r@ == prefix@ + rest@,
{
    let mut t = String::from_str(prefix);
    t.append(rest.as_str());
    t
}

impl ConfigError {
    /// The error's human-readable text.
    pub fn message(&self) -> (r: String)
        ensures
            r@ == config_error_text(*self),
    {
        match self {
            ConfigError::HelpRequested => String::from_str("help requested"),
            ConfigError::MissingValue { flag } => prefixed("missing value for ", flag),
            ConfigError::UnknownArgument { argument } => prefixed("unknown argument: ", argument),
            ConfigError::InvalidBindAddress { value } => prefixed("invalid bind address: ", value),
            ConfigError::InvalidNativeBindAddress { value } => prefixed(
                "invalid native bind address: ",
                value,
            ),
            ConfigError::InvalidNativeUnixSocket { value } => prefixed(
                "invalid native Unix socket path: ",
                value,
            ),
            ConfigError::InvalidMaxBodyBytes { value } => prefixed(
                "invalid max body byte limit: ",
                value,
            ),
            ConfigError::InvalidMaxMemoryBytes { value } => prefixed(
                "invalid max memory byte limit: ",
                value,
            ),
            ConfigError::InvalidMaxValueBytes { value } => prefixed(
                "invalid max value byte limit: ",
                value,
            ),
            ConfigError::InvalidCleanupIntervalMs { value } => prefixed(
                "invalid cleanup interval in milliseconds: ",
                value,
            ),
            ConfigError::InvalidCleanupMaxEntriesPerTick { value } => prefixed(
                "invalid cleanup max entries per tick: ",
                value,
            ),
        }
    }
}

/// The numeric options and the error each reports for a bad value.
#[derive(Debug, Clone, Copy, PartialEq, Eq, Structural)]
pub enum NumericOption {
    MaxBodyBytes,
    MaxMemoryBytes,
    MaxValueBytes,
    CleanupIntervalMs,
    CleanupMaxEntriesPerTick,
}

/// The error for a bad value of a numeric option.
pub open spec fn option_error(option: NumericOption, value: String) -> ConfigError {
    match option {
        NumericOption::MaxBodyBytes => ConfigError::InvalidMaxBodyBytes { value },
        NumericOption::MaxMemoryBytes => ConfigError::InvalidMaxMemoryBytes { value },
        NumericOption::MaxValueBytes => ConfigError::InvalidMaxValueBytes { value },
        NumericOption::CleanupIntervalMs => ConfigError::InvalidCleanupIntervalMs { value },
        NumericOption::CleanupMaxEntriesPerTick => ConfigError::InvalidCleanupMaxEntriesPerTick {
            value,
        },
    }
}

fn option_error_of(option: NumericOption, value: String) -> (r: ConfigError)
    ensures
        r == option_error(option, value),
{
    match option {
        NumericOption::MaxBodyBytes => ConfigError::InvalidMaxBodyBytes { value },
        NumericOption::MaxMemoryBytes => ConfigError::InvalidMaxMemoryBytes { value },
        NumericOption::MaxValueBytes => ConfigError::InvalidMaxValueBytes { value },
        NumericOption::CleanupIntervalMs => ConfigError::InvalidCleanupIntervalMs { value },
        NumericOption::CleanupMaxEntriesPerTick => ConfigError::InvalidCleanupMaxEntriesPerTick {
            value,
        },
    }
}

/// What `usize::from_str` accepts: as for `u64`, within `usize`.
pub open spec fn parse_usize(b: Seq<u8>) -> Option<usize> {
    match parse_u64(b) {
        Some(v) => if v <= usize::MAX {
            Some(v as usize)
        } else {
            None
        },
        None => None,
    }
}

/// The value of a numeric option that must be a positive `usize`: a
/// missing value names the flag, a bad one carries the value.
pub fn parse_nonzero_usize(flag: &str, value: Option<String>, option: NumericOption) -> (r: Result<
    usize,
    ConfigError,
>)
    ensures
        match value {
            None => r matches Err(e) && e matches ConfigError::MissingValue { flag: f } && f@
                == flag@,
            Some(v) => if parse_usize(text_bytes(v@)) matches Some(n) && n > 0 {
                r == Ok::<usize, ConfigError>(parse_usize(text_bytes(v@))->0)
            } else {
                r == Err::<usize, ConfigError>(option_error(option, v))
            },
        },
{
    let value = match value {
        None => {
            return Err(ConfigError::MissingValue { flag: String::from_str(flag) });
        },
        Some(v) => v,
    };
    let b = value.as_str().as_bytes();
    proof {
        assert(b@.subrange(0, b@.len() as int) =~= b@);
    }
    match parse_u64_range(b, 0, b.len()) {
        Some(n) => {
            if n > usize::MAX as u64 || n == 0 {
                Err(option_error_of(option, value))
            } else {
                Ok(n as usize)
            }
        },
        None => Err(option_error_of(option, value)),
    }
}

/// The value of a numeric option that is a `u64`: a missing value names
/// the flag, a bad one carries the value.
pub fn parse_u64_option(flag: &str, value: Option<String>, option: NumericOption) -> (r: Result<
    u64,
    ConfigError,
>)
    ensures
        match value {
            None => r matches Err(e) && e matches ConfigError::MissingValue { flag: f } && f@
                == flag@,
            Some(v) => match parse_u64(text_bytes(v@)) {
                Some(n) => r == Ok::<u64, ConfigError>(n),
                None => r == Err::<u64, ConfigError>(option_error(option, v)),
            },
        },
{
    let value = match value {
        None => {
            return Err(ConfigError::MissingValue { flag: String::from_str(flag) });
        },
        Some(v) => v,
    };
    let b = value.as_str().as_bytes();
    proof {
        assert(b@.subrange(0, b@.len() as int) =~= b@);
    }
    match parse_u64_range(b, 0, b.len()) {
        Some(n) => Ok(n),
        None => Err(option_error_of(option, value)),
    }
}

/// What one command-line option sets. Addresses and paths are carried as
/// the text given; the server reads them as socket addresses and paths.
#[derive(Debug, Clone, PartialEq, Eq)]
pub enum ConfigSetting {
    BindAddr(String),
    NativeBindAddr(String),
    NativeUnixSocket(String),
    MaxBodyBytes(usize),
    MaxMemoryBytes(usize),
    MaxValueBytes(usize),
    CleanupIntervalMs(u64),
    CleanupMaxEntriesPerTick(usize),
}

/// The setting of a numeric option with a positive `usize` value.
pub open spec fn usize_setting(option: NumericOption, n: usize) -> ConfigSetting {
    match option {
        NumericOption::MaxBodyBytes => ConfigSetting::MaxBodyBytes(n),
        NumericOption::MaxMemoryBytes => ConfigSetting::MaxMemoryBytes(n),
        NumericOption::MaxValueBytes => ConfigSetting::MaxValueBytes(n),
        _ => ConfigSetting::CleanupMaxEntriesPerTick(n),
    }
}

/// The numeric option that a flag names, if any.
pub open spec fn numeric_flag(argument: Seq<char>) -> Option<NumericOption> {
    if argument == "--max-body-bytes"@ {
        Some(NumericOption::MaxBodyBytes)
    } else if argument == "--max-memory-bytes"@ {
        Some(NumericOption::MaxMemoryBytes)
    } else if argument == "--max-value-bytes"@ {
        Some(NumericOption::MaxValueBytes)
    } else if argument == "--cleanup-interval-ms"@ {
        Some(NumericOption::CleanupIntervalMs)
    } else if argument == "--cleanup-max-entries-per-tick"@ {
        Some(NumericOption::CleanupMaxEntriesPerTick)
    } else {
        None
    }
}

/// Whether `r` is the error for a flag given without its value.
pub open spec fn is_missing_value(r: Result<ConfigSetting, ConfigError>, flag: Seq<char>) -> bool {
    r matches Err(ConfigError::MissingValue { flag: f }) && f@ == flag
}

/// What reading one option, with the argument after it, gives: help asked
/// for, an address or path as given (a Unix socket path must not be
/// empty), a number within its range (zero is refused where a count or a
/// size is meant), a missing value, or an unknown option.
pub open spec fn setting_outcome(
    argument: String,
    value: Option<String>,
    r: Result<ConfigSetting, ConfigError>,
) -> bool {
    let a = argument@;
    if a == "-h"@ || a == "--help"@ {
        r == Err::<ConfigSetting, ConfigError>(ConfigError::HelpRequested)
    } else if a == "--bind"@ || a == "--native-bind"@ || a == "--native-unix"@ {
        match value {
            None => is_missing_value(r, a),
            Some(v) => if a == "--bind"@ {
                r == Ok::<ConfigSetting, ConfigError>(ConfigSetting::BindAddr(v))
            } else if a == "--native-bind"@ {
                r == Ok::<ConfigSetting, ConfigError>(ConfigSetting::NativeBindAddr(v))
            } else if v@.len() == 0 {
                r == Err::<ConfigSetting, ConfigError>(
                    ConfigError::InvalidNativeUnixSocket { value: v },
                )
            } else {
                r == Ok::<ConfigSetting, ConfigError>(ConfigSetting::NativeUnixSocket(v))
            },
        }
    } else {
        match numeric_flag(a) {
            Some(option) => match value {
                None => is_missing_value(r, a),
                Some(v) => if option == NumericOption::CleanupIntervalMs {
                    match parse_u64(text_bytes(v@)) {
                        Some(n) => r == Ok::<ConfigSetting, ConfigError>(
                            ConfigSetting::CleanupIntervalMs(n),
                        ),
                        None => r == Err::<ConfigSetting, ConfigError>(option_error(option, v)),
                    }
                } else {
                    match parse_usize(text_bytes(v@)) {
                        Some(n) => if n > 0 {
                            r == Ok::<ConfigSetting, ConfigError>(usize_setting(option, n))
                        } else {
                            r == Err::<ConfigSetting, ConfigError>(option_error(option, v))
                        },
                        None => r == Err::<ConfigSetting, ConfigError>(option_error(option, v)),
                    }
                },
            },
            None => r == Err::<ConfigSetting, ConfigError>(
                ConfigError::UnknownArgument { argument },
            ),
        }
    }
}

/// Reads one command-line option, given the argument that follows it
/// (taken as the option's value where the option has one).
pub fn read_setting(argument: String, value: Option<String>) -> (r: Result<ConfigSetting, ConfigError>)
    ensures
        setting_outcome(argument, value, r),
{
    let a = argument.as_str();
    if text_eq(a, "-h") || text_eq(a, "--help") {
        return Err(ConfigError::HelpRequested);
    }
    let bind = text_eq(a, "--bind");
    let native_bind = text_eq(a, "--native-bind");
    let native_unix = text_eq(a, "--native-unix");
    if bind || native_bind || native_unix {
        let v = match value {
            None => {
                return Err(ConfigError::MissingValue { flag: argument });
            },
            Some(v) => v,
        };
        if bind {
            return Ok(ConfigSetting::BindAddr(v));
        }
        if native_bind {
            return Ok(ConfigSetting::NativeBindAddr(v));
        }
        if v.as_str().as_bytes().len() == 0 {
            proof {
                crate::bytes::lemma_text_bytes(v@);
            }
            return Err(ConfigError::InvalidNativeUnixSocket { value: v });
        }
        proof {
            crate::bytes::lemma_text_bytes(v@);
        }
        return Ok(ConfigSetting::NativeUnixSocket(v));
    }
    let option = if text_eq(a, "--max-body-bytes") {
        NumericOption::MaxBodyBytes
    } else if text_eq(a, "--max-memory-bytes") {
        NumericOption::MaxMemoryBytes
    } else if text_eq(a, "--max-value-bytes") {
        NumericOption::MaxValueBytes
    } else if text_eq(a, "--cleanup-interval-ms") {
        NumericOption::CleanupIntervalMs
    } else if text_eq(a, "--cleanup-max-entries-per-tick") {
        NumericOption::CleanupMaxEntriesPerTick
    } else {
        return Err(ConfigError::UnknownArgument { argument });
    };
    match option {
        NumericOption::CleanupIntervalMs => match parse_u64_option(a, value, option) {
            Ok(n) => Ok(ConfigSetting::CleanupIntervalMs(n)),
            Err(e) => Err(e),
        },
        _ => match parse_nonzero_usize(a, value, option) {
            Ok(n) => Ok(
                match option {
                    NumericOption::MaxBodyBytes => ConfigSetting::MaxBodyBytes(n),
                    NumericOption::MaxMemoryBytes => ConfigSetting::MaxMemoryBytes(n),
                    NumericOption::MaxValueBytes => ConfigSetting::MaxValueBytes(n),
                    _ => ConfigSetting::CleanupMaxEntriesPerTick(n),
                },
            ),
            Err(e) => Err(e),
        },
    }
}

/// The help text, with the program's name in its usage lines.
pub open spec fn help_text_of(program_name: Seq<char>) -> Seq<char> {
    "Cachebox cache server\n\nUsage:\n  "@ + program_name + " [--bind <addr:port>] [--native-bind <addr:port>] [--native-unix <path>] [--max-body-bytes <bytes>] [--max-memory-bytes <bytes>] [--max-value-bytes <bytes>] [--cleanup-interval-ms <ms>] [--cleanup-max-entries-per-tick <count>]\n  "@
        + program_name + HELP_OPTIONS@
}

/// The options part of the help text.
pub const HELP_OPTIONS: &'static str = " --help\n\nOptions:\n  --bind <addr:port>  Address for the HTTP admin server to bind.\n                      Default: 127.0.0.1:7400\n  --native-bind <addr:port>\n                      Address for the native TCP data-plane listener.\n                      Default: 127.0.0.1:7401\n  --native-unix <path>\n                      Path for the native Unix socket data-plane listener.\n                      Disabled unless provided. Unix platforms only.\n  --max-body-bytes    Maximum accepted request body size.\n                      Default: 8388608\n  --max-memory-bytes  Maximum estimated in-memory cache size.\n                      Default: 67108864\n  --max-value-bytes   Maximum single cached value size.\n                      Default: 8388608\n  --cleanup-interval-ms\n                      Background expired-entry cleanup interval in milliseconds.\n                      Use 0 to disable background cleanup.\n                      Default: 250\n  --cleanup-max-entries-per-tick\n                      Maximum expired entries reclaimed per cleanup tick.\n                      Default: 128\n  -h, --help          Print this help text.\n";

/// The help text printed for `--help`.
pub fn help_text(program_name: &str) -> (r: String)
    ensures
        r@ == help_text_of(program_name@),
{
    let mut t = String::from_str("Cachebox cache server\n\nUsage:\n  ");
    t.append(program_name);
    t.append(" [--bind <addr:port>] [--native-bind <addr:port>] [--native-unix <path>] [--max-body-bytes <bytes>] [--max-memory-bytes <bytes>] [--max-value-bytes <bytes>] [--cleanup-interval-ms <ms>] [--cleanup-max-entries-per-tick <count>]\n  ");
    t.append(program_name);
    t.append(HELP_OPTIONS);
    t
}

} // verus!
