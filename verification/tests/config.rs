use railway_rs::config::{flag_enabled, Config};

#[test]
fn askdisha_flag_parses_truthy_values_case_insensitively() {
    assert!(flag_enabled(Some("1".into()), false));
    assert!(flag_enabled(Some("true".into()), false));
    assert!(flag_enabled(Some("TRUE".into()), false));
    assert!(flag_enabled(Some("Yes".into()), false));
    assert!(flag_enabled(Some(" yes ".into()), false));
}

#[test]
fn askdisha_flag_defaults_to_false_on_falsy_or_missing() {
    assert!(!flag_enabled(None, false));
    assert!(!flag_enabled(Some(String::new()), false));
    assert!(!flag_enabled(Some("0".into()), false));
    assert!(!flag_enabled(Some("false".into()), false));
    assert!(!flag_enabled(Some("FALSE".into()), false));
    assert!(!flag_enabled(Some("off".into()), false));
    assert!(!flag_enabled(Some("no".into()), false));
    assert!(!flag_enabled(Some("enabled".into()), false));
    assert!(flag_enabled(None, true));
}

#[test]
fn default_config_ships_askdisha_enabled_with_real_origins() {
    let d = Config::default();
    assert!(d.askdisha_enabled);
    assert_eq!(d.corover_base, "https://api.disha.corover.ai");
    assert_eq!(d.corover_cdn_base, "https://cdn.corover.ai");
}

#[test]
fn source_url_drops_trailing_slashes_of_the_base() {
    let d = Config::default();
    assert_eq!(d.source_url("https://x.test//", "/api?q=1"), "https://x.test/api?q=1");
    assert_eq!(d.source_url("https://x.test", "/a"), "https://x.test/a");
}
