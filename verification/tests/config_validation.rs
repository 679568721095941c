use refx_core::config::{
    settle_config, settle_config_with, validate_log_filter, ConfigError, GeneralConfig, LoggingConfig, ENV_LOG_LEVEL,
};
use refx_core::RefxConfig;

fn invalid(key: &'static str, message: &str) -> Result<(), ConfigError> {
    Err(ConfigError::Invalid { key, message: message.to_string() })
}

#[test]
fn env_overrides_file() {
    let mut cfg = RefxConfig::default();
    cfg.apply_env(|k| if k == ENV_LOG_LEVEL { Some("trace".to_string()) } else { None });
    assert_eq!(cfg.logging.level, "trace");
}

#[test]
fn blank_env_value_is_ignored() {
    let mut cfg = RefxConfig::default();
    cfg.apply_env(|_| Some("  ".into()));
    assert_eq!(cfg.logging.level, "info");
}

#[test]
fn log_filter_validation() {
    for ok in ["info", "WARN", "info,refx_core=debug", "refx_core::task=trace"] {
        assert!(validate_log_filter(ok).is_ok(), "{ok} should be valid");
    }
    for bad in ["", "verbose", "info,refx_core=loud"] {
        assert!(validate_log_filter(bad).is_err(), "{bad} should be invalid");
    }
}

#[test]
fn empty_instance_name_is_invalid() {
    let mut cfg = RefxConfig::default();
    cfg.general.instance_name = " ".into();
    assert!(cfg.validate().is_err());
}

#[test]
fn defaults_are_as_documented() {
    let cfg = RefxConfig::default();
    assert_eq!(cfg.general, GeneralConfig { instance_name: "REFX".into(), data_dir: "data".into() });
    assert_eq!(cfg.logging, LoggingConfig { level: "info".into(), ansi: true });
    assert_eq!(cfg.validate(), Ok(()));
}

#[test]
fn absent_env_value_keeps_level() {
    let mut cfg = RefxConfig::default();
    cfg.apply_env(|_| None);
    assert_eq!(cfg.logging.level, "info");
    cfg.apply_log_level(Some("debug,refx_core=trace".into()));
    assert_eq!(cfg.logging.level, "debug,refx_core=trace");
    assert!(cfg.logging.ansi);
}

#[test]
fn filter_errors_name_the_offending_level() {
    let expected = "`verbose` is not one of trace, debug, info, warn, error";
    assert_eq!(validate_log_filter("verbose"), invalid("logging.level", expected));
    assert_eq!(
        validate_log_filter("info,refx_core=loud"),
        invalid("logging.level", "`loud` is not one of trace, debug, info, warn, error")
    );
    assert_eq!(validate_log_filter("  \t"), invalid("logging.level", "must not be empty"));
}

#[test]
fn directives_are_trimmed_but_levels_after_equals_are_not() {
    assert_eq!(validate_log_filter(" info , Debug "), Ok(()));
    assert_eq!(validate_log_filter("a=b=ERROR"), Ok(()));
    assert_eq!(
        validate_log_filter("refx= debug"),
        invalid("logging.level", "` debug` is not one of trace, debug, info, warn, error")
    );
    assert_eq!(
        validate_log_filter("info,"),
        invalid("logging.level", "`` is not one of trace, debug, info, warn, error")
    );
    assert_eq!(
        validate_log_filter("x=info,y="),
        invalid("logging.level", "`` is not one of trace, debug, info, warn, error")
    );
}

#[test]
fn first_bad_directive_is_reported() {
    assert_eq!(
        validate_log_filter("loud,quiet"),
        invalid("logging.level", "`loud` is not one of trace, debug, info, warn, error")
    );
}

#[test]
fn instance_name_is_checked_before_level() {
    let mut cfg = RefxConfig::default();
    cfg.general.instance_name = "\n".into();
    cfg.logging.level = "nope".into();
    assert_eq!(cfg.validate(), invalid("general.instance_name", "must not be empty"));
    cfg.general.instance_name = "box".into();
    assert_eq!(cfg.validate(), invalid("logging.level", "`nope` is not one of trace, debug, info, warn, error"));
}

fn file_config(name: &str, data_dir: &str, level: &str) -> RefxConfig {
    let mut cfg = RefxConfig::default();
    cfg.general.instance_name = name.into();
    cfg.general.data_dir = data_dir.into();
    cfg.logging.level = level.into();
    cfg.logging.ansi = false;
    cfg
}

#[test]
fn missing_file_settles_on_defaults() {
    let cfg = settle_config(None, Some("/etc/refx".into()), None).expect("defaults are valid");
    assert_eq!(cfg, RefxConfig::default());
}

#[test]
fn relative_data_dir_is_resolved_against_the_file_directory() {
    let file = file_config("lab", "data", "debug");
    let cfg = settle_config(Some(file), Some("/etc/refx".into()), None).expect("valid");
    assert_eq!(cfg.general.data_dir, "/etc/refx/data");
    assert_eq!(cfg.general.instance_name, "lab");
    assert_eq!(cfg.logging.level, "debug");
    assert!(!cfg.logging.ansi);
}

#[test]
fn absolute_data_dir_is_kept() {
    let file = file_config("lab", "/var/lib/refx", "info");
    let cfg = settle_config(Some(file), Some("/etc/refx".into()), None).expect("valid");
    assert_eq!(cfg.general.data_dir, "/var/lib/refx");
}

#[test]
fn data_dir_without_file_directory_is_kept() {
    let file = file_config("lab", "data", "info");
    let cfg = settle_config(Some(file), None, None).expect("valid");
    assert_eq!(cfg.general.data_dir, "data");
}

#[test]
fn env_level_overrides_the_file_when_settling() {
    let file = file_config("lab", "data", "warn");
    let cfg = settle_config(Some(file.clone()), None, Some("trace".into())).expect("valid");
    assert_eq!(cfg.logging.level, "trace");
    let kept = settle_config(Some(file), None, Some("  ".into())).expect("valid");
    assert_eq!(kept.logging.level, "warn");
}

#[test]
fn settled_config_is_validated() {
    let file = file_config(" ", "data", "info");
    assert_eq!(
        settle_config(Some(file), None, None),
        Err(ConfigError::Invalid { key: "general.instance_name", message: "must not be empty".into() })
    );
    let bad_env = settle_config(None, None, Some("verbose".into()));
    assert!(matches!(bad_env, Err(ConfigError::Invalid { key: "logging.level", .. })));
}

#[test]
fn settling_with_a_resolved_directory_replaces_it() {
    let file = file_config("lab", "data", "info");
    let cfg = settle_config_with(Some(file), Some("/srv/refx/data".into()), None).expect("valid");
    assert_eq!(cfg.general.data_dir, "/srv/refx/data");
}
