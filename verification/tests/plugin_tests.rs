use scylla::plugin_install::{release_api_url, wasm_asset_domain};
use scylla::plugin_api::ConfigField;
use scylla::plugin_config::{ConfigValues, PluginConfig};
use scylla::plugin_install::parse_github_url;

fn config(cookies: &str, schema: Vec<ConfigField>, path: &str) -> PluginConfig {
    PluginConfig {
        domain: "test".into(),
        schema,
        values: ConfigValues::new(),
        cookies: cookies.into(),
        accepts_cookies: true,
        path: path.into(),
    }
}

fn field(key: &str, label: &str, field_type: &str, default: &str) -> ConfigField {
    ConfigField {
        key: key.into(),
        label: label.into(),
        field_type: field_type.into(),
        default: default.into(),
    }
}

#[test]
fn test_preview_no_schema_no_cookies() {
    let config = config("", vec![], "");
    assert_eq!(config.preview(), "No configurable fields");
}

#[test]
fn test_preview_no_schema_with_cookies() {
    let config = config("key=value", vec![], "");
    assert_eq!(config.preview(), "Cookies only");
}

#[test]
fn test_preview_with_schema_no_cookies() {
    let config = config("", vec![field("k", "K", "string", "")], "");
    assert_eq!(config.preview(), "1 field(s)");
}

#[test]
fn test_preview_with_schema_and_cookies() {
    let config = config("key=value", vec![field("k", "K", "string", "")], "");
    assert_eq!(config.preview(), "1 field(s) + cookies");
}

#[test]
fn test_cookies_preview_empty() {
    let config = config("", vec![], "");
    assert_eq!(config.cookies_preview(), "<empty>");
}

#[test]
fn test_cookies_preview_short() {
    let config = config("key=value", vec![], "");
    assert_eq!(config.cookies_preview(), "key=value");
}

#[test]
fn test_cookies_preview_long_truncated() {
    let long = "abcdefghijklmnopqrstuvwxyz0123456789abcdefghijklmnopqrstuvwxyz";
    let config = config(long, vec![], "");
    let preview = config.cookies_preview();
    assert!(preview.ends_with("..."), "got: {}", preview);
    assert!(preview.chars().count() <= 43);
}

#[test]
fn test_parse_cookies_skips_comments_and_blanks() {
    let config = config("# comment\nkey1=val1\n\nkey2=val2\n", vec![], "");
    assert_eq!(config.parse_cookies(), "key1=val1; key2=val2");
}

#[test]
fn test_for_domain_new_creates_default_values() {
    let schema = vec![field("a", "A", "string", "default_a")];
    // No configuration file is stored for this domain.
    let config = PluginConfig::for_domain("nonexistent_test_domain", schema, true, None);
    assert_eq!(config.values.get("a").map(|v| v.as_str()), Some("default_a"));
    assert!(config.cookies.is_empty());
}

#[test]
fn test_default_values_matches_schema() {
    let schema = vec![field("x", "X", "number", "42"), field("y", "Y", "string", "hello")];
    let values = PluginConfig::default_values(&schema);
    assert_eq!(values.get("x").map(|v| v.as_str()), Some("42"));
    assert_eq!(values.get("y").map(|v| v.as_str()), Some("hello"));
    assert_eq!(values.len(), 2);
}

#[test]
fn test_is_pending_empty_path_returns_false() {
    let config = config("", vec![], "");
    assert!(!config.is_pending());
}

#[test]
fn test_preview_pending_shows_loading() {
    let config = config("", vec![], "/nonexistent/path/test.json");
    assert!(config.is_pending());
    assert_eq!(config.preview(), "loading...");
}

#[test]
fn stored_values_override_defaults_and_cookies_are_read() {
    let schema = vec![field("a", "A", "string", "default_a"), field("b", "B", "string", "default_b")];
    let stored = r#"{"_schema":[],"_accepts_cookies":true,"_cookies":"k=v","a":"stored_a","n":5}"#;
    let config = PluginConfig::for_domain("example.com", schema, true, Some(stored.to_string()));
    assert_eq!(config.values.get("a").map(|v| v.as_str()), Some("stored_a"));
    assert_eq!(config.values.get("b").map(|v| v.as_str()), Some("default_b"));
    assert!(config.values.get("n").is_none());
    assert!(config.values.get("_cookies").is_none());
    assert_eq!(config.cookies, "k=v");
    assert!(config.path.ends_with("/plugin-example.com.json"));
}

#[test]
fn unreadable_stored_config_falls_back_to_defaults() {
    let schema = vec![field("a", "A", "string", "default_a")];
    let config = PluginConfig::for_domain("example.com", schema, false, Some("not json".into()));
    assert_eq!(config.values.get("a").map(|v| v.as_str()), Some("default_a"));
    assert_eq!(config.values.len(), 1);
    assert!(config.cookies.is_empty());
    assert!(!config.accepts_cookies);
}

#[test]
fn update_value_replaces_or_adds() {
    let mut config = config("", vec![field("a", "A", "string", "x")], "");
    config.values = PluginConfig::default_values(&config.schema);
    config.update_value("a", "y".into());
    config.update_value("b", "z".into());
    assert_eq!(config.values.get("a").map(|v| v.as_str()), Some("y"));
    assert_eq!(config.values.get("b").map(|v| v.as_str()), Some("z"));
    assert_eq!(config.values.len(), 2);
}

#[test]
fn later_default_for_same_key_wins() {
    let schema = vec![field("a", "A", "string", "first"), field("a", "A2", "string", "second")];
    let values = PluginConfig::default_values(&schema);
    assert_eq!(values.get("a").map(|v| v.as_str()), Some("second"));
    assert_eq!(values.len(), 1);
}

#[test]
fn preview_counts_fields_and_ignores_comment_only_cookies() {
    let config = config("# only a comment\n   \n", vec![field("a", "A", "s", ""), field("b", "B", "s", "")], "");
    assert_eq!(config.preview(), "2 field(s)");
}

#[test]
fn cookies_preview_trims_and_cuts_at_forty_characters() {
    let text = format!("  {}  ", "x".repeat(45));
    let config = config(&text, vec![], "");
    assert_eq!(config.cookies_preview(), format!("{}...", "x".repeat(40)));
    let exact = config_with_cookies(&"y".repeat(40));
    assert_eq!(exact.cookies_preview(), "y".repeat(40));
}

fn config_with_cookies(c: &str) -> PluginConfig {
    config(c, vec![], "")
}

#[test]
fn parse_cookies_trims_lines_and_handles_crlf() {
    let config = config("  a=1  \r\n#x\r\nb=2", vec![], "");
    assert_eq!(config.parse_cookies(), "a=1; b=2");
}

#[test]
fn test_parse_github_url_https() {
    let (owner, repo) = parse_github_url("https://github.com/owner/repo").unwrap();
    assert_eq!(owner, "owner");
    assert_eq!(repo, "repo");
}

#[test]
fn test_parse_github_url_with_trailing_slash() {
    let (owner, repo) = parse_github_url("https://github.com/owner/repo/").unwrap();
    assert_eq!(owner, "owner");
    assert_eq!(repo, "repo");
}

#[test]
fn test_parse_github_url_with_dot_git() {
    let (owner, repo) = parse_github_url("https://github.com/owner/repo.git").unwrap();
    assert_eq!(owner, "owner");
    assert_eq!(repo, "repo");
}

#[test]
fn test_parse_github_url_ssh() {
    let (owner, repo) = parse_github_url("git@github.com:owner/repo").unwrap();
    assert_eq!(owner, "owner");
    assert_eq!(repo, "repo");
}

#[test]
fn test_parse_github_url_shorthand() {
    let (owner, repo) = parse_github_url("owner/repo").unwrap();
    assert_eq!(owner, "owner");
    assert_eq!(repo, "repo");
}

#[test]
fn test_parse_github_url_invalid() {
    let result = parse_github_url("not-a-url");
    assert!(result.is_err());
}

#[test]
fn test_parse_github_url_empty() {
    let result = parse_github_url("");
    assert!(result.is_err());
}

#[test]
fn parse_github_url_error_names_the_cleaned_reference() {
    assert_eq!(
        parse_github_url("  https://github.com/owner.git/ ").unwrap_err(),
        "Invalid GitHub URL: https://github.com/owner.git. Expected https://github.com/owner/repo"
    );
}

#[test]
fn parse_github_url_takes_first_two_segments() {
    let (owner, repo) = parse_github_url("github.com/owner/repo/tree/main").unwrap();
    assert_eq!(owner, "owner");
    assert_eq!(repo, "repo");
    assert!(parse_github_url("owner//repo").is_err());
}

#[test]
fn release_assets_and_api_url() {
    assert_eq!(release_api_url("o", "r"), "https://api.github.com/repos/o/r/releases/latest");
    assert_eq!(wasm_asset_domain("plugin-royalroad.wasm"), Some("royalroad".to_string()));
    assert_eq!(wasm_asset_domain("site.wasm"), None);
    assert_eq!(wasm_asset_domain("tool.wasm"), None);
    assert_eq!(wasm_asset_domain("plugin-example.com.wasm"), Some("example.com".to_string()));
    assert_eq!(wasm_asset_domain("README.md"), None);
}

#[test]
fn config_values_list_in_first_stored_order() {
    let mut v = scylla::plugin_config::ConfigValues::new();
    v.insert("b".into(), "1".into());
    v.insert("a".into(), "2".into());
    v.insert("b".into(), "3".into());
    assert_eq!(v.to_vec(), vec![("b".to_string(), "3".to_string()), ("a".to_string(), "2".to_string())]);
}
