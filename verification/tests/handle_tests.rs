use config_scheme::handle::{HandleMap, NodeHandle, OpenMode, SchemeError};
use config_scheme::path::{fix_path, trim_separators};

#[test]
fn fix_path_strips_leading_and_trailing_separators() {
    assert_eq!(fix_path("/a/b/"), "a/b");
    assert_eq!(fix_path("a"), "a");
    assert_eq!(fix_path("//x//y//"), "x//y");
}

#[test]
fn trim_separators_handles_edge_inputs() {
    assert_eq!(trim_separators(""), "");
    assert_eq!(trim_separators("///"), "");
    assert_eq!(trim_separators("/only/"), "only");
}

#[test]
fn node_handle_tracks_its_cursor() {
    let mut h = NodeHandle::new("some/path".to_string(), 7, OpenMode::Read, 42);
    assert_eq!(h.get_id(), 7);
    assert_eq!(h.get_path(), "some/path");
    assert_eq!(h.get_seek(), 0);
    h.set_seek(5);
    assert_eq!(h.get_seek(), 5);
    h.advance_seek(3);
    assert_eq!(h.get_seek(), 8);
}

#[test]
fn open_handle_normalizes_and_allocates_ascending_ids() {
    let mut map = HandleMap::new();
    let a = map.open_handle("/a/", 0, OpenMode::Read).unwrap();
    let b = map.open_handle("b", 0, OpenMode::Read).unwrap();
    assert_eq!((a, b), (1, 2));
    let h = map.get_handle(a).unwrap();
    assert_eq!(h.get_path(), "a");
}

#[test]
fn open_handle_rejects_empty_and_busy_paths() {
    let mut map = HandleMap::new();
    assert!(matches!(
        map.open_handle("//", 0, OpenMode::Read),
        Err(SchemeError::MalformedPath)
    ));
    let _parent = map.open_handle("dir", 0, OpenMode::Read).unwrap();
    assert!(matches!(
        map.open_handle("dir/leaf", 0, OpenMode::Write),
        Err(SchemeError::Busy)
    ));
    // The exact same path is not an ancestor of itself: a second open on
    // it succeeds even for writing.
    assert!(map.open_handle("dir", 0, OpenMode::Write).is_ok());
}

#[test]
fn close_removes_exactly_one_handle() {
    let mut map = HandleMap::new();
    let a = map.open_handle("x", 0, OpenMode::Read).unwrap();
    let b = map.open_handle("y", 0, OpenMode::Read).unwrap();
    assert_eq!(map.close(a), Ok(0));
    assert!(matches!(map.get_handle(a), Err(SchemeError::BadHandle)));
    assert!(map.get_handle(b).is_ok());
    assert!(matches!(map.close(a), Err(SchemeError::BadHandle)));
}

#[test]
fn take_and_put_preserve_handle_state() {
    let mut map = HandleMap::new();
    let a = map.open_handle("p/q", 0, OpenMode::ReadWrite).unwrap();
    let mut h = map.take_handle(a).unwrap();
    assert!(matches!(map.get_handle(a), Err(SchemeError::BadHandle)));
    h.advance_seek(9);
    map.put_handle(h);
    let back = map.get_handle(a).unwrap();
    assert_eq!(back.get_seek(), 9);
    assert_eq!(back.get_path(), "p/q");
}
