use strip_ansi::{
    parse_filter_name, ConfigError, FilterName, FilterToml, GeneralConfig, SeqGroup, SeqKind,
    StripAnsiConfig,
};

fn config(buffer_size: usize, names: &[&str]) -> StripAnsiConfig {
    StripAnsiConfig {
        general: GeneralConfig { buffer_size, mode: None },
        filter: FilterToml { no_strip: names.iter().map(|n| n.to_string()).collect() },
    }
}

#[test]
fn all_group_names_valid() {
    for name in &["csi", "osc", "dcs", "apc", "pm", "sos", "ss2", "ss3", "fe"] {
        assert!(parse_filter_name(name).is_ok(), "group name {name:?} should be valid");
    }
}

#[test]
fn all_sub_kind_names_valid() {
    for name in &[
        "csi_sgr",
        "csi_cursor",
        "csi_erase",
        "csi_scroll",
        "csi_mode",
        "csi_device_status",
        "csi_window",
        "csi_other",
    ] {
        assert!(parse_filter_name(name).is_ok(), "sub-kind name {name:?} should be valid");
    }
}

#[test]
fn parse_filter_name_resolves_group_and_kind() {
    assert!(matches!(parse_filter_name("osc"), Ok(FilterName::Group(SeqGroup::Osc))));
    assert!(matches!(parse_filter_name("csi_sgr"), Ok(FilterName::Kind(SeqKind::CsiSgr))));
}

#[test]
fn default_general_config() {
    let g = GeneralConfig::default();
    assert_eq!(g.buffer_size, 32_768);
    assert!(g.mode.is_none());
    assert!(FilterToml::default().no_strip.is_empty());
}

#[test]
fn empty_no_strip_produces_strip_all() {
    let fc = config(32_768, &[]).to_filter_config().unwrap();
    assert!(fc.is_strip_all());
}

#[test]
fn preserves_group_by_name() {
    let fc = config(32_768, &["osc"]).to_filter_config().unwrap();
    assert!(!fc.should_strip(SeqKind::Osc));
    assert!(fc.should_strip(SeqKind::CsiSgr));
}

#[test]
fn preserves_sub_kind_by_name() {
    let fc = config(32_768, &["csi_sgr", "osc"]).to_filter_config().unwrap();
    assert!(!fc.should_strip(SeqKind::CsiSgr));
    assert!(!fc.should_strip(SeqKind::Osc));
    assert!(fc.should_strip(SeqKind::Dcs));
    // A sub-kind does not set its group: other CSI kinds stay stripped.
    assert!(fc.should_strip(SeqKind::CsiCursor));
}

#[test]
fn unknown_name_returns_validation_error() {
    let err = config(32_768, &["bogus"]).to_filter_config().unwrap_err();
    assert!(matches!(err, ConfigError::Validation(_)));
    assert_eq!(err.message(), "validation error: unknown filter name: \"bogus\"");
}

#[test]
fn duplicates_silently_ignored() {
    let fc = config(32_768, &["osc", "osc", "osc"]).to_filter_config().unwrap();
    assert!(!fc.should_strip(SeqKind::Osc));
}

#[test]
fn buffer_size_too_small() {
    let err = config(512, &[]).to_filter_config().unwrap_err();
    assert!(matches!(err, ConfigError::Validation(_)));
    assert_eq!(err.message(), "validation error: buffer_size 512 is out of range (1024..=16777216)");
}

#[test]
fn buffer_size_too_large() {
    let err = config(33_554_432, &[]).to_filter_config().unwrap_err();
    assert!(matches!(err, ConfigError::Validation(_)));
}

#[test]
fn buffer_size_at_min_boundary() {
    assert!(config(1024, &[]).to_filter_config().is_ok());
}

#[test]
fn buffer_size_at_max_boundary() {
    assert!(config(16_777_216, &[]).to_filter_config().is_ok());
}

#[test]
fn buffer_checked_before_names() {
    let err = config(1, &["bogus"]).to_filter_config().unwrap_err();
    assert!(err.message().contains("buffer_size 1 "));
}

#[test]
fn first_unknown_name_reported() {
    let err = config(4096, &["osc", "nope", "bad"]).to_filter_config().unwrap_err();
    assert_eq!(err.message(), "validation error: unknown filter name: \"nope\"");
}

#[test]
fn parse_error_message() {
    let e = ConfigError::Parse("expected `=`".to_string());
    assert_eq!(e.message(), "TOML parse error: expected `=`");
}

#[test]
fn io_error_message() {
    let e = ConfigError::Io(std::io::Error::new(std::io::ErrorKind::NotFound, "gone"));
    assert_eq!(e.message(), "I/O error: gone");
}
