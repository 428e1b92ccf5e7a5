use config_scheme::handle::SchemeError;
use config_scheme::scheme::ConfigScheme;

use syscall::{O_RDONLY, O_RDWR, O_TRUNC, O_WRONLY};

#[test]
fn read_of_unwritten_path_returns_zero() {
    let mut scheme = ConfigScheme::new();
    let id = scheme.open("never/written", O_RDONLY, 0).unwrap();
    let mut buf = vec![0u8; 8];
    assert_eq!(scheme.read(id, &mut buf), Ok(0));
    // Still zero on a later read, wherever the cursor would be.
    assert_eq!(scheme.read(id, &mut buf), Ok(0));
}

#[test]
fn writes_concatenate_in_call_order() {
    let mut scheme = ConfigScheme::new();
    let w = scheme.open("cfg/x", O_WRONLY, 0).unwrap();
    assert_eq!(scheme.write(w, b"ab"), Ok(2));
    assert_eq!(scheme.write(w, b"cd"), Ok(2));
    let r = scheme.open("cfg/x", O_RDONLY, 0).unwrap();
    let mut buf = vec![0u8; 16];
    assert_eq!(scheme.read(r, &mut buf), Ok(4));
    assert_eq!(&buf[..4], b"abcd");
}

#[test]
fn writes_append_regardless_of_cursor() {
    let mut scheme = ConfigScheme::new();
    let h = scheme.open("cur/x", O_RDWR, 0).unwrap();
    assert_eq!(scheme.write(h, b"one"), Ok(3));
    // Move the handle's cursor by reading, then write again: the second
    // write still appends at the end, not at the cursor.
    let mut small = vec![0u8; 2];
    assert_eq!(scheme.read(h, &mut small), Ok(2));
    assert_eq!(scheme.write(h, b"two"), Ok(3));
    let r = scheme.open("cur/x", O_RDONLY, 0).unwrap();
    let mut buf = vec![0u8; 16];
    assert_eq!(scheme.read(r, &mut buf), Ok(6));
    assert_eq!(&buf[..6], b"onetwo");
}

#[test]
fn truncate_clears_existing_content() {
    let mut scheme = ConfigScheme::new();
    let w = scheme.open("t/x", O_WRONLY, 0).unwrap();
    assert_eq!(scheme.write(w, b"hello"), Ok(5));
    let t = scheme.open("t/x", O_RDWR | O_TRUNC, 0).unwrap();
    let mut buf = vec![0u8; 8];
    assert_eq!(scheme.read(t, &mut buf), Ok(0));
    // A fresh reader from cursor 0 sees nothing either.
    let r = scheme.open("t/x", O_RDONLY, 0).unwrap();
    assert_eq!(scheme.read(r, &mut buf), Ok(0));
}

#[test]
fn truncate_of_unwritten_path_is_noop() {
    let mut scheme = ConfigScheme::new();
    let t = scheme.open("fresh/y", O_RDWR | O_TRUNC, 0).unwrap();
    let mut buf = vec![0u8; 8];
    assert_eq!(scheme.read(t, &mut buf), Ok(0));
}

#[test]
fn write_open_under_open_ancestor_is_busy() {
    let mut scheme = ConfigScheme::new();
    let _a = scheme.open("a", O_RDONLY, 0).unwrap();
    assert_eq!(scheme.open("a/b", O_WRONLY, 0), Err(SchemeError::Busy));
    assert_eq!(scheme.open("a/b", O_RDWR, 0), Err(SchemeError::Busy));
    // Read access under an open ancestor is fine.
    assert!(scheme.open("a/b", O_RDONLY, 0).is_ok());
}

#[test]
fn busy_check_ends_when_ancestor_closes() {
    let mut scheme = ConfigScheme::new();
    let a = scheme.open("a", O_RDONLY, 0).unwrap();
    assert_eq!(scheme.open("a/b", O_WRONLY, 0), Err(SchemeError::Busy));
    assert_eq!(scheme.close(a), Ok(0));
    assert!(scheme.open("a/b", O_WRONLY, 0).is_ok());
}

#[test]
fn handle_ids_strictly_increase_and_are_not_reused() {
    let mut scheme = ConfigScheme::new();
    let id1 = scheme.open("p/one", O_RDONLY, 0).unwrap();
    let id2 = scheme.open("p/two", O_RDONLY, 0).unwrap();
    let id3 = scheme.open("p/three", O_RDONLY, 0).unwrap();
    assert_eq!((id1, id2, id3), (1, 2, 3));
    assert_eq!(scheme.close(id2), Ok(0));
    // The freed id is not handed out again.
    let id4 = scheme.open("p/four", O_RDONLY, 0).unwrap();
    assert_eq!(id4, 4);
}

#[test]
fn operations_on_a_closed_handle_fail_bad_handle() {
    let mut scheme = ConfigScheme::new();
    let id = scheme.open("c/x", O_RDWR, 0).unwrap();
    assert_eq!(scheme.close(id), Ok(0));
    let mut buf = vec![0u8; 4];
    assert_eq!(scheme.read(id, &mut buf), Err(SchemeError::BadHandle));
    assert_eq!(scheme.write(id, b"zz"), Err(SchemeError::BadHandle));
    assert_eq!(scheme.close(id), Err(SchemeError::BadHandle));
}

#[test]
fn round_trip_scenario() {
    let mut scheme = ConfigScheme::new();
    let w = scheme.open("cfg/x", O_RDWR, 0).unwrap();
    assert_eq!(scheme.write(w, b"hello"), Ok(5));
    let r = scheme.open("cfg/x", O_RDONLY, 0).unwrap();
    let mut buf = vec![0u8; 10];
    assert_eq!(scheme.read(r, &mut buf), Ok(5));
    assert_eq!(&buf[..5], b"hello");
    // The cursor advanced past the end: the second read returns nothing.
    assert_eq!(scheme.read(r, &mut buf), Ok(0));
}

#[test]
fn empty_path_is_rejected() {
    let mut scheme = ConfigScheme::new();
    assert_eq!(scheme.open("", O_RDONLY, 0), Err(SchemeError::MalformedPath));
    assert_eq!(scheme.open("///", O_RDONLY, 0), Err(SchemeError::MalformedPath));
}

#[test]
fn paths_are_normalized_on_open() {
    let mut scheme = ConfigScheme::new();
    let w = scheme.open("/n/x/", O_WRONLY, 0).unwrap();
    assert_eq!(scheme.write(w, b"data"), Ok(4));
    // The stripped spelling addresses the same content.
    let r = scheme.open("n/x", O_RDONLY, 0).unwrap();
    let mut buf = vec![0u8; 8];
    assert_eq!(scheme.read(r, &mut buf), Ok(4));
    assert_eq!(&buf[..4], b"data");
}
