use scylla::backends::{add_backend, backend_configs, rename_backend, unique_backend_name, Backend};
use scylla::models::BackendKind;

fn mock(name: &str) -> Backend {
    Backend { name: name.into(), kind: BackendKind::Remote, url: Some("http://mock".into()) }
}

fn remote(name: &str, url: &str) -> Backend {
    Backend { name: name.into(), kind: BackendKind::Remote, url: Some(url.into()) }
}

fn names(bs: &[Backend]) -> Vec<&str> {
    bs.iter().map(|b| b.name.as_str()).collect()
}

#[test]
fn test_rename_backend_preserves_url() {
    let mut bs = vec![mock("old")];
    rename_backend(&mut bs, 0, "new".to_string());
    assert_eq!(bs.len(), 1);
    assert_eq!(bs[0].name, "new");
    assert_eq!(bs[0].url, Some("http://mock".to_string()));
}

#[test]
fn test_rename_backend_out_of_range_is_noop() {
    let mut bs = vec![mock("old")];
    rename_backend(&mut bs, 5, "new".to_string());
    assert_eq!(bs.len(), 1);
    assert_eq!(bs[0].name, "old");
}

#[test]
fn test_rename_backend_dedupes_against_existing_names() {
    let mut bs = vec![mock("a"), mock("b")];
    rename_backend(&mut bs, 0, "b".to_string());
    assert_eq!(names(&bs), vec!["b-2", "b"]);
}

#[test]
fn test_rename_backend_to_same_name_is_noop() {
    let mut bs = vec![mock("a")];
    rename_backend(&mut bs, 0, "a".to_string());
    assert_eq!(bs.len(), 1);
    assert_eq!(bs[0].name, "a");
}

#[test]
fn test_deleted_backend_configs_preserve_urls() {
    let mut bs = vec![remote("a", "http://a.example"), remote("b", "http://b.example")];
    bs.remove(0);
    let configs = backend_configs(&bs);
    assert_eq!(configs.len(), 1);
    assert_eq!(configs[0].name, "b");
    assert_eq!(configs[0].url, "http://b.example");
}

#[test]
fn test_backend_configs_preserve_all_urls() {
    let bs = vec![remote("a", "http://a.example"), remote("b", "https://b.example")];
    let configs = backend_configs(&bs);
    let urls: Vec<&str> = configs.iter().map(|c| c.url.as_str()).collect();
    assert_eq!(urls, vec!["http://a.example", "https://b.example"]);
}

#[test]
fn test_add_backend_url_generates_unique_names() {
    let mut bs = vec![mock("remote")];
    add_backend(&mut bs, "http://example.com");
    add_backend(&mut bs, "http://other.com");
    assert_eq!(names(&bs), vec!["remote", "remote-2", "remote-3"]);
    assert_eq!(bs[1].url, Some("http://example.com".to_string()));
    assert_eq!(bs[2].url, Some("http://other.com".to_string()));
}

#[test]
fn test_add_backend_plain_name_derives_url_and_unique_name() {
    let mut bs = vec![mock("local")];
    add_backend(&mut bs, "local");
    assert_eq!(bs[1].name, "local-2");
    assert_eq!(bs[1].url, Some("http://local".to_string()));
}

#[test]
fn test_backend_configs_empty_after_clear() {
    let mut bs = vec![mock("only")];
    bs.clear();
    assert!(backend_configs(&bs).is_empty());
}

#[test]
fn unique_name_skips_every_taken_number() {
    let bs = vec![mock("x"), mock("x-2"), mock("x-3"), mock("x-5")];
    assert_eq!(unique_backend_name(&bs, "x"), "x-4");
    assert_eq!(unique_backend_name(&bs, "y"), "y");
    let local = Backend { name: "local".into(), kind: BackendKind::Local, url: None };
    let configs = backend_configs(&[local]);
    assert_eq!(configs[0].url, "");
    assert!(!configs[0].default);
}
