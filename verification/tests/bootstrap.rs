use narou_bridge::config::{
    build_app_config, derive_bind_addr, derive_host_name, load_app_config, parse_bool, parse_port,
    parse_u64, resolve_runtime_dir, IniDocument, normalize_domain_value, extract_bind_host,
    ConfigError, resolve_app_config,
};
use narou_bridge::rotation::AccountRotation;

#[test]
fn rotation_returns_accounts_in_order_with_active_first() {
    let rotation = AccountRotation::new(
        Some("login"),
        vec!["alpha".to_string(), "login".to_string(), "beta".to_string()],
    );

    assert_eq!(rotation.current(), Some("login"));
}

#[test]
fn rotation_advances_to_next_account_after_failure() {
    let mut rotation = AccountRotation::new(
        Some("alpha"),
        vec!["alpha".to_string(), "beta".to_string(), "gamma".to_string()],
    );

    assert_eq!(rotation.current(), Some("alpha"));
    assert_eq!(rotation.mark_failed(), Some("beta"));
    assert_eq!(rotation.current(), Some("beta"));
    assert_eq!(rotation.mark_failed(), Some("gamma"));
    assert_eq!(rotation.mark_failed(), None);
}

#[test]
fn rotation_skips_empty_and_repeated_names() {
    let mut rotation = AccountRotation::new(
        Some(""),
        vec!["".to_string(), "a".to_string(), "a".to_string(), "b".to_string()],
    );
    assert_eq!(rotation.current(), Some("a"));
    assert_eq!(rotation.mark_failed(), Some("b"));
    assert_eq!(rotation.mark_failed(), None);
    assert_eq!(rotation.current(), Some("b"));
}

#[test]
fn rotation_without_accounts_has_no_current() {
    let mut rotation = AccountRotation::new(None, Vec::new());
    assert_eq!(rotation.current(), None);
    assert_eq!(rotation.mark_failed(), None);
}

#[test]
fn runtime_dirs_default_to_repo_root_children() {
    let dir = resolve_runtime_dir(r"C:\repo", Some(""), "data");
    assert_eq!(dir, r"C:\repo\data");
}

#[test]
fn runtime_dirs_keep_existing_contract_folder() {
    let dir = resolve_runtime_dir(r"C:\repo", Some(r"D:\library\data"), "data");
    assert_eq!(dir, r"D:\library\data");
}

#[test]
fn runtime_dirs_resolve_relative_values_below_root() {
    assert_eq!(resolve_runtime_dir("/srv/app", Some(" store "), "data"), "/srv/app/store");
    assert_eq!(resolve_runtime_dir("/srv/app/", None, "log"), "/srv/app/log");
}

#[test]
fn host_name_uses_proxy_public_settings() {
    let host_name = derive_host_name(Some("example.tailnet.ts.net"), 8080, true, 443, true);
    assert_eq!(host_name, "https://example.tailnet.ts.net");
}

#[test]
fn host_name_keeps_explicit_urls_and_ports() {
    assert_eq!(
        derive_host_name(Some(" https://example.org/ "), 8080, false, 443, false),
        "https://example.org"
    );
    assert_eq!(derive_host_name(None, 80, false, 443, false), "http://localhost");
    assert_eq!(
        derive_host_name(Some("example.org"), 8080, true, 8443, true),
        "https://example.org:8443"
    );
}

#[test]
fn bind_addr_falls_back_to_localhost_for_domain_names() {
    let bind_addr = derive_bind_addr(Some("example.tailnet.ts.net"), 8080);
    assert_eq!(bind_addr, "127.0.0.1:8080");
}

#[test]
fn bind_addr_keeps_ipv4_hosts() {
    assert_eq!(derive_bind_addr(Some("http://192.168.1.20:80/path"), 9000), "192.168.1.20:9000");
    assert_eq!(derive_bind_addr(Some("256.1.1.1"), 1), "127.0.0.1:1");
    assert_eq!(derive_bind_addr(None, 65535), "127.0.0.1:65535");
    assert_eq!(extract_bind_host("LOCALHOST"), "127.0.0.1");
}

#[test]
fn normalize_domain_strips_scheme_path_and_port() {
    assert_eq!(normalize_domain_value(" https://example.com:8443/x?y#z "), "example.com");
    assert_eq!(normalize_domain_value("[::1]:8080"), "::1");
    assert_eq!(normalize_domain_value("a:b:c"), "a:b:c");
}

#[test]
fn parse_u64_uses_default_for_invalid_values() {
    assert_eq!(parse_u64(Some("600"), 43_200), 600);
    assert_eq!(parse_u64(Some("invalid"), 43_200), 43_200);
    assert_eq!(parse_u64(None, 43_200), 43_200);
}

#[test]
fn parse_port_and_flags_follow_std_parsing() {
    assert_eq!(parse_port(Some(" +8080 "), 1), 8080);
    assert_eq!(parse_port(Some("65536"), 1), 1);
    assert_eq!(parse_port(Some("-1"), 7), 7);
    assert!(parse_bool(Some(" YES ")));
    assert!(parse_bool(Some("1")));
    assert!(!parse_bool(Some("2")));
    assert!(!parse_bool(None));
}

#[test]
fn build_config_reads_runtime_sections() {
    let document = IniDocument::parse(
        r#"
[setting]
data=
auto_update=1
auto_update_interval=600

[server]
domain=localhost
port=9000
use_proxy=0
"#,
    )
    .expect("ini parsing should succeed");

    let config = build_app_config(r"C:\repo", &document);
    assert_eq!(config.data_dir, r"C:\repo\data");
    assert_eq!(config.bind_addr, "127.0.0.1:9000");
    assert_eq!(config.host_name, "http://localhost:9000");
    assert_eq!(config.img_url, "");
    assert!(config.auto_update);
    assert_eq!(config.auto_update_interval, 600);
}

#[test]
fn build_config_preserves_absolute_external_data_dir() {
    let document = IniDocument::parse(
        r#"
[setting]
data=C:\Users\user\Documents\Webnovel\narou_bridge
pdf=C:\Users\user\Documents\Webnovel\pdf
log=C:\Users\user\Documents\Webnovel\log

[server]
domain=localhost
port=8080
"#,
    )
    .expect("ini parsing should succeed");

    let config = build_app_config(r"C:\repo", &document);
    assert_eq!(config.data_dir, r"C:\Users\user\Documents\Webnovel\narou_bridge");
    assert_eq!(
        config.db_path,
        r"C:\Users\user\Documents\Webnovel\narou_bridge\runtime.sqlite3"
    );
}

#[test]
fn build_config_preserves_img_url_override() {
    let document = IniDocument::parse(
        r#"
[server]
domain=example.invalid
port=8080
img_url=https://cdn.example.invalid/novels/
"#,
    )
    .expect("ini parsing should succeed");

    let config = build_app_config(r"C:\repo", &document);
    assert_eq!(config.host_name, "http://example.invalid:8080");
    assert_eq!(config.img_url, "https://cdn.example.invalid/novels/");
}

#[test]
fn ini_lookup_ignores_case_and_keeps_last_assignment() {
    let document = IniDocument::parse("; c\n[Server]\nPort = 1\n# x\nport=2\r\n[other]\nport=3\n")
        .expect("parse");
    assert_eq!(document.get("SERVER", "PORT"), Some("2"));
    assert_eq!(document.get("other", "port"), Some("3"));
    assert_eq!(document.get("missing", "port"), None);
}

#[test]
fn ini_parse_reports_first_malformed_line() {
    let err = match IniDocument::parse("[a]\nok=1\nbroken line\nalso broken\n") {
        Ok(_) => panic!("malformed line should fail"),
        Err(err) => err,
    };
    assert_eq!(err.line, 3);
    assert_eq!(err.text, "broken line");
}

#[test]
fn load_app_config_requires_setting_file() {
    match load_app_config("/srv/app", None) {
        Err(ConfigError::MissingSettingFile(path)) => assert_eq!(path, "/srv/app/setting.ini"),
        _ => panic!("missing file should fail"),
    }
    let config = load_app_config("/srv/app", Some("[setting]\ndata=/var/data\n")).expect("config");
    assert_eq!(config.db_path, "/var/data/runtime.sqlite3");
    assert_eq!(config.data_images_dir(), "/var/data/images");
}

#[test]
fn settings_fall_back_to_the_setting_directory() {
    let (config, copy) = resolve_app_config("/srv/app", None, Some("[setting]\ndata=/var/other\n")).expect("fallback");
    assert!(copy);
    assert_eq!(config.data_dir, "/var/other");
    let (config, copy) =
        resolve_app_config("/srv/app", Some("[setting]\ndata=/var/root\n"), Some("[setting]\ndata=/var/other\n"))
            .expect("root");
    assert!(!copy);
    assert_eq!(config.data_dir, "/var/root");
    match resolve_app_config("/srv/app", None, None) {
        Err(ConfigError::MissingSettingFile(path)) => assert_eq!(path, "/srv/app/setting.ini"),
        _ => panic!("missing files should fail"),
    }
}
