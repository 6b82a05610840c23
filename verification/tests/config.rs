use remux::config::{
    config_path, default_base_url, default_show_qr, remux_home, Config, ConfigFile,
};

#[test]
fn defaults() {
    assert_eq!(default_base_url(), "https://remux.sh");
    assert!(default_show_qr());
    let c = Config::default();
    assert_eq!(c.base_url, "https://remux.sh");
    assert!(c.show_qr_on_start);
    assert_eq!(c.display_base_url(), "remux.sh");
}

#[test]
fn a_file_overrides_what_it_names() {
    let c = Config::load(None);
    assert_eq!(c.base_url, "https://remux.sh");
    let c = Config::load(Some(ConfigFile { base_url: Some("http://x.y".to_string()), show_qr_on_start: None }));
    assert_eq!(c.base_url, "http://x.y");
    assert!(c.show_qr_on_start);
    assert_eq!(c.display_base_url(), "x.y");
    let c = Config::load(Some(ConfigFile { base_url: None, show_qr_on_start: Some(false) }));
    assert_eq!(c.base_url, "https://remux.sh");
    assert!(!c.show_qr_on_start);
}

#[test]
fn schemes_are_not_shown() {
    let shown = |url: &str| {
        Config { base_url: url.to_string(), show_qr_on_start: true }.display_base_url().to_string()
    };
    assert_eq!(shown("https://a.b/c"), "a.b/c");
    assert_eq!(shown("http://a.b"), "a.b");
    assert_eq!(shown("a.b"), "a.b");
    assert_eq!(shown("https://https://http://a"), "a");
    assert_eq!(shown("http://https://a"), "https://a");
}

#[test]
fn everything_is_kept_in_one_directory() {
    assert_eq!(remux_home(Some("/r"), Some("/home/u")), "/r");
    assert_eq!(remux_home(None, Some("/home/u")), "/home/u/.remux");
    assert_eq!(remux_home(None, None), "./.remux");
    assert_eq!(config_path("/r"), "/r/config.toml");
}

#[test]
fn stored_settings_are_loaded() {
    for show in [true, false] {
        let c = Config { base_url: "http://a.b".to_string(), show_qr_on_start: show };
        let file = c.stored();
        assert_eq!(file.base_url.as_deref(), Some("http://a.b"));
        assert_eq!(file.show_qr_on_start, Some(show));
        let loaded = Config::load(Some(file));
        assert_eq!(loaded.base_url, "http://a.b");
        assert_eq!(loaded.show_qr_on_start, show);
    }
}
