use scylla::backend_picker::{handle_backend_picker, BackendKey, BackendPicker, BackendRequest};
use scylla::backends::Backend;
use scylla::library::Library;
use scylla::models::BackendKind;

fn mock(name: &str) -> Backend {
    Backend { name: name.into(), kind: BackendKind::Remote, url: Some("http://mock".into()) }
}

#[test]
fn test_whitespace_only_rename_is_rejected() {
    let mut bs = vec![mock("old")];
    let mut lib = Library::new();
    let mut p = BackendPicker::new();
    p.input = Some("   ".to_string());
    p.editing_idx = Some(0);
    let r = handle_backend_picker(&mut p, &mut bs, &mut lib, BackendKey::Enter);
    assert_eq!(r, BackendRequest::Stay);
    assert!(p.input.is_some());
    assert_eq!(p.editing_idx, Some(0));
    assert_eq!(bs[0].name, "old");
}

#[test]
fn test_deleting_active_filter_backend_clears_filter_library() {
    let mut bs = vec![mock("a"), mock("b")];
    let mut lib = Library::new();
    lib.filter.library = Some("a".into());
    lib.selected_index = 3;
    let mut p = BackendPicker::new();
    let r = handle_backend_picker(&mut p, &mut bs, &mut lib, BackendKey::Char('d'));
    assert_eq!(r, BackendRequest::Save);
    assert_eq!(lib.filter.library, None);
    assert_eq!(lib.selected_index, 0);
    assert_eq!(bs.len(), 1);
}

#[test]
fn test_deleting_last_active_filter_backend_clears_filter_library() {
    let mut bs = vec![mock("only")];
    let mut lib = Library::new();
    lib.filter.library = Some("only".into());
    lib.selected_index = 2;
    let mut p = BackendPicker::new();
    assert_eq!(handle_backend_picker(&mut p, &mut bs, &mut lib, BackendKey::Char('d')), BackendRequest::Stay);
    assert_eq!(
        handle_backend_picker(&mut p, &mut bs, &mut lib, BackendKey::Char('d')),
        BackendRequest::SaveAndClose
    );
    assert_eq!(lib.filter.library, None);
    assert_eq!(lib.selected_index, 0);
    assert!(bs.is_empty());
}

#[test]
fn backend_picker_delete_other_backend_keeps_filter() {
    let mut bs = vec![mock("a"), mock("b")];
    let mut lib = Library::new();
    lib.filter.library = Some("a".into());
    lib.selected_index = 3;
    let mut p = BackendPicker::new();
    p.cursor = 1;
    handle_backend_picker(&mut p, &mut bs, &mut lib, BackendKey::Char('d'));
    assert_eq!(lib.filter.library, Some("a".to_string()));
    assert_eq!(lib.selected_index, 3);
    assert_eq!(p.cursor, 0);
}

#[test]
fn backend_picker_enter_selects_backend() {
    let mut bs = vec![mock("a"), mock("b")];
    let mut lib = Library::new();
    lib.selected_index = 4;
    let mut p = BackendPicker::new();
    handle_backend_picker(&mut p, &mut bs, &mut lib, BackendKey::Down);
    handle_backend_picker(&mut p, &mut bs, &mut lib, BackendKey::Down);
    assert_eq!(p.cursor, 1);
    let r = handle_backend_picker(&mut p, &mut bs, &mut lib, BackendKey::Enter);
    assert_eq!(r, BackendRequest::Select("b".into()));
    assert_eq!(lib.filter.library, Some("b".to_string()));
    assert_eq!(lib.selected_index, 0);
}

#[test]
fn backend_picker_adds_typed_backend() {
    let mut bs = vec![mock("local")];
    let mut lib = Library::new();
    let mut p = BackendPicker::new();
    handle_backend_picker(&mut p, &mut bs, &mut lib, BackendKey::Char('n'));
    for c in " local ".chars() {
        handle_backend_picker(&mut p, &mut bs, &mut lib, BackendKey::Char(c));
    }
    assert_eq!(handle_backend_picker(&mut p, &mut bs, &mut lib, BackendKey::Enter), BackendRequest::Save);
    assert_eq!(bs.len(), 2);
    assert_eq!(bs[1].name, "local-2");
    assert_eq!(bs[1].url, Some("http://local".to_string()));
    assert!(p.input.is_none());
}

#[test]
fn backend_picker_rename_and_other_key_cancels_pending() {
    let mut bs = vec![mock("only")];
    let mut lib = Library::new();
    let mut p = BackendPicker::new();
    handle_backend_picker(&mut p, &mut bs, &mut lib, BackendKey::Char('d'));
    assert_eq!(p.pending_delete_idx, Some(0));
    handle_backend_picker(&mut p, &mut bs, &mut lib, BackendKey::Char('x'));
    assert_eq!(p.pending_delete_idx, None);
    handle_backend_picker(&mut p, &mut bs, &mut lib, BackendKey::Char('r'));
    assert_eq!(p.input.as_deref(), Some("only"));
    handle_backend_picker(&mut p, &mut bs, &mut lib, BackendKey::Backspace);
    handle_backend_picker(&mut p, &mut bs, &mut lib, BackendKey::Enter);
    assert_eq!(bs[0].name, "onl");
}
