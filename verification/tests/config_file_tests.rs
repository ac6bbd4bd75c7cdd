use scylla::config_file::{
    config_text, field_json_text, init_config_text, migrated_config_text, reads_old_cookie_file,
    schema_json_text, stored_accepts_cookies,
};
use scylla::plugin_api::ConfigField;
use scylla::plugin_config::{ConfigValues, PluginConfig};

fn field(key: &str, default: &str) -> ConfigField {
    ConfigField { key: key.into(), label: format!("Label {}", key), field_type: "text".into(), default: default.into() }
}

fn parse(t: &str) -> serde_json::Value {
    serde_json::from_str(t).unwrap()
}

#[test]
fn json_strings_are_escaped_as_serde_json_writes_them() {
    for s in ["plain", "quote \" and \\ back", "tab\tnl\ncr\rbs\u{8}ff\u{c}", "ctl\u{1}\u{1f}", "é ✓"] {
        let f = ConfigField { key: s.into(), label: "L".into(), field_type: "text".into(), default: "d".into() };
        let expected = format!("{{\"default\":\"d\",\"field_type\":\"text\",\"key\":{},\"label\":\"L\"}}", serde_json::to_string(s).unwrap());
        assert_eq!(field_json_text(&f), expected);
    }
}

#[test]
fn schema_text_is_serde_jsons_compact_form() {
    let schema = vec![field("a", "1"), field("b\"", "x\ny")];
    let text = schema_json_text(&schema);
    assert_eq!(parse(&text).to_string(), text);
    assert_eq!(parse(&text)[1]["key"], "b\"");
    assert_eq!(schema_json_text(&[]), "[]");
}

#[test]
fn new_config_file_gets_everything() {
    let schema = vec![field("a", "1"), field("b", "2")];
    assert!(reads_old_cookie_file(None));
    let text = init_config_text(None, &schema, true, Some("c=1\n")).unwrap();
    let v = parse(&text);
    assert_eq!(v["_accepts_cookies"], true);
    assert_eq!(v["a"], "1");
    assert_eq!(v["b"], "2");
    assert_eq!(v["_cookies"], "c=1\n");
    assert_eq!(v["_schema"].as_array().unwrap().len(), 2);
    // Blank old cookies are not taken in.
    let v = parse(&init_config_text(None, &schema, false, Some("  \n")).unwrap());
    assert!(v.get("_cookies").is_none());
    assert_eq!(v["_accepts_cookies"], false);
}

#[test]
fn up_to_date_config_file_is_left_alone() {
    let schema = vec![field("a", "1")];
    let text = init_config_text(None, &schema, true, None).unwrap();
    assert!(reads_old_cookie_file(Some(&text)));
    assert_eq!(init_config_text(Some(&text), &schema, true, None), None);
}

#[test]
fn stored_config_gets_missing_defaults_and_keeps_values() {
    let schema = vec![field("a", "1"), field("b", "2")];
    let first = init_config_text(None, &[field("a", "1")], true, None).unwrap();
    let mut v = parse(&first);
    v["a"] = serde_json::Value::String("mine".into());
    v["extra"] = serde_json::Value::from(5);
    let stored = v.to_string();
    let v = parse(&init_config_text(Some(&stored), &schema, true, None).unwrap());
    assert_eq!(v["a"], "mine");
    assert_eq!(v["b"], "2");
    assert_eq!(v["extra"], 5);
    assert_eq!(v["_schema"].as_array().unwrap().len(), 2);
}

#[test]
fn stored_config_flag_change_is_written() {
    let schema = vec![field("a", "1")];
    let text = init_config_text(None, &schema, true, None).unwrap();
    let v = parse(&init_config_text(Some(&text), &schema, false, None).unwrap());
    assert_eq!(v["_accepts_cookies"], false);
}

#[test]
fn stored_config_with_cookies_keeps_them() {
    let schema = vec![field("a", "1")];
    let text = init_config_text(None, &schema, true, Some("old")).unwrap();
    assert!(!reads_old_cookie_file(Some(&text)));
    assert_eq!(init_config_text(Some(&text), &schema, true, Some("new")), None);
}

#[test]
fn non_object_json_is_left_alone_and_broken_json_is_rebuilt() {
    let schema = vec![field("a", "1")];
    assert_eq!(init_config_text(Some("[1, 2]"), &schema, true, None), None);
    let v = parse(&init_config_text(Some("{ not json"), &schema, true, None).unwrap());
    assert_eq!(v["a"], "1");
}

#[test]
fn old_cookie_files_move_into_configs_without_cookies() {
    let v = parse(&migrated_config_text("{\"a\":\"1\"}", "c=2").unwrap());
    assert_eq!(v["_cookies"], "c=2");
    assert_eq!(v["a"], "1");
    let v = parse(&migrated_config_text("{\"_cookies\":\"\"}", "c=2").unwrap());
    assert_eq!(v["_cookies"], "c=2");
    assert_eq!(migrated_config_text("{\"_cookies\":\"kept\"}", "c=2"), None);
    assert_eq!(migrated_config_text("not json", "c=2"), None);
}

#[test]
fn stored_cookie_flag_reads_with_default() {
    assert_eq!(stored_accepts_cookies("{\"_accepts_cookies\":false}"), Some(false));
    assert_eq!(stored_accepts_cookies("{\"_accepts_cookies\":true}"), Some(true));
    assert_eq!(stored_accepts_cookies("{}"), Some(true));
    assert_eq!(stored_accepts_cookies("{\"_accepts_cookies\":\"no\"}"), Some(true));
    assert_eq!(stored_accepts_cookies("[]"), Some(true));
    assert_eq!(stored_accepts_cookies("nope"), None);
}

#[test]
fn saved_config_text_holds_every_part() {
    let mut values = ConfigValues::new();
    values.insert("a".into(), "x".into());
    let c = PluginConfig {
        domain: "example.com".into(),
        schema: vec![field("a", "1")],
        accepts_cookies: false,
        values,
        cookies: "k=v".into(),
        path: "/tmp/plugin-example.com.json".into(),
    };
    let v = parse(&config_text(&c).unwrap());
    assert_eq!(v["a"], "x");
    assert_eq!(v["_cookies"], "k=v");
    assert_eq!(v["_accepts_cookies"], false);
    assert_eq!(v["_schema"][0]["default"], "1");
}

#[test]
fn plugin_sees_its_settings_without_the_readers_members() {
    use_plugin_view();
}

fn use_plugin_view() {
    let stored = "{\"_schema\":[],\"_cookies\":\"c\",\"_accepts_cookies\":true,\"max\":\"3\",\"n\":1}";
    let t = scylla::config_file::plugin_config_text(stored).unwrap();
    assert_eq!(t, "{\"max\":\"3\",\"n\":1}");
    assert_eq!(scylla::config_file::plugin_config_text("[1, 2]"), Some("[1,2]".to_string()));
    assert_eq!(scylla::config_file::plugin_config_text("nope"), None);
}

fn found(domain: &str, cookies: &str) -> PluginConfig {
    PluginConfig {
        domain: domain.into(),
        schema: vec![],
        accepts_cookies: false,
        values: ConfigValues::new(),
        cookies: cookies.into(),
        path: format!("/c/plugin-{}.json", domain),
    }
}

#[test]
fn config_file_names_give_domains() {
    use_config_file_domain();
}

fn use_config_file_domain() {
    let d = scylla::config_file::config_file_domain;
    assert_eq!(d("plugin-example.com.json"), Some("example.com".to_string()));
    assert_eq!(d("settings.json"), None);
    assert_eq!(d("libraries.json"), None);
    assert_eq!(d("example.com.json"), None);
    assert_eq!(d("plugin-x.txt"), None);
    assert_eq!(d("plugin-.json"), Some(String::new()));
}

#[test]
fn discovered_configs_keep_one_per_domain_and_add_installed() {
    let cs = scylla::config_file::discovered_configs(
        vec![found("a", "old"), found("b", ""), found("a", "new")],
        &["b".to_string(), "c".to_string(), "c".to_string()],
        "/c",
    );
    let domains: Vec<&str> = cs.iter().map(|c| c.domain.as_str()).collect();
    assert_eq!(domains, vec!["a", "b", "c"]);
    assert_eq!(cs[0].cookies, "new");
    assert!(cs[2].accepts_cookies);
    assert!(cs[2].schema.is_empty());
    assert_eq!(cs[2].path, "/c/plugin-c.json");
}
