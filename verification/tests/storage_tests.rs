use config_scheme::handle::{NodeHandle, OpenMode};
use config_scheme::storage::{MemStorage, Storage};

fn handle_on(path: &str, id: usize) -> NodeHandle {
    NodeHandle::new(path.to_string(), id, OpenMode::ReadWrite, 0)
}

#[test]
fn read_of_empty_storage_copies_nothing() {
    let storage = MemStorage::new();
    let mut h = handle_on("no/entry", 1);
    let mut buf = vec![9u8; 4];
    assert_eq!(storage.read(&mut h, &mut buf), 0);
    // The buffer is untouched and the cursor did not move.
    assert_eq!(buf, vec![9u8; 4]);
    assert_eq!(h.get_seek(), 0);
}

#[test]
fn write_appends_and_read_advances_cursor() {
    let mut storage = MemStorage::new();
    let mut h = handle_on("k", 1);
    assert_eq!(storage.write(&h, b"abcdef"), 6);
    let mut buf = vec![0u8; 4];
    assert_eq!(storage.read(&mut h, &mut buf), 4);
    assert_eq!(&buf[..], b"abcd");
    assert_eq!(h.get_seek(), 4);
    // The rest comes on the next read; only the copied prefix changes.
    let mut buf2 = vec![7u8; 4];
    assert_eq!(storage.read(&mut h, &mut buf2), 2);
    assert_eq!(&buf2[..], &[b'e', b'f', 7u8, 7u8]);
    assert_eq!(h.get_seek(), 6);
}

#[test]
fn read_past_end_returns_zero() {
    let mut storage = MemStorage::new();
    let mut h = handle_on("k", 1);
    assert_eq!(storage.write(&h, b"xy"), 2);
    h.set_seek(5);
    let mut buf = vec![0u8; 4];
    assert_eq!(storage.read(&mut h, &mut buf), 0);
    assert_eq!(h.get_seek(), 5);
}

#[test]
fn writes_to_distinct_paths_stay_separate() {
    let mut storage = MemStorage::new();
    let one = handle_on("one", 1);
    let two = handle_on("two", 2);
    assert_eq!(storage.write(&one, b"first"), 5);
    assert_eq!(storage.write(&two, b"second"), 6);
    let mut h = handle_on("one", 3);
    let mut buf = vec![0u8; 8];
    assert_eq!(storage.read(&mut h, &mut buf), 5);
    assert_eq!(&buf[..5], b"first");
}

#[test]
fn trunc_clears_only_existing_entries() {
    let mut storage = MemStorage::new();
    let h = handle_on("t", 1);
    assert_eq!(storage.write(&h, b"gone"), 4);
    storage.trunc(&h);
    let mut reader = handle_on("t", 2);
    let mut buf = vec![0u8; 4];
    assert_eq!(storage.read(&mut reader, &mut buf), 0);
    // Truncating a path with no entry is a no-op.
    let missing = handle_on("missing", 3);
    storage.trunc(&missing);
    let mut reader2 = handle_on("missing", 4);
    assert_eq!(storage.read(&mut reader2, &mut buf), 0);
}

#[test]
fn write_after_trunc_starts_fresh() {
    let mut storage = MemStorage::new();
    let h = handle_on("t", 1);
    assert_eq!(storage.write(&h, b"old"), 3);
    storage.trunc(&h);
    assert_eq!(storage.write(&h, b"new"), 3);
    let mut reader = handle_on("t", 2);
    let mut buf = vec![0u8; 8];
    assert_eq!(storage.read(&mut reader, &mut buf), 3);
    assert_eq!(&buf[..3], b"new");
}
