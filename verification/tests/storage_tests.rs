use chiyocore::directory::{
    fs_error_of, FlashErrorKind, FsErrorKind,
    dir_index_hash, entry_of, global_dir, index_after_delete, index_after_set, index_key, DirKey,
    Directory, DirectoryEntries, FileKey, FlashAccessError, FsPartition, SerializationError,
};

#[test]
fn directory_names_hash_with_the_store_seed() {
    assert_eq!(global_dir(), DirKey(0x473c51d1));
    assert_eq!(DirKey::const_new(b"channels"), DirKey(0x08976709));
    assert_eq!(DirKey::const_new(b"contacts"), DirKey(0x4f3af40a));
    assert_eq!(dir_index_hash(), 0x1cf2e78e);
    assert_eq!(index_key(DirKey(5)), FileKey(5, 0x1cf2e78e));
}

#[test]
fn file_keys_hash_their_names() {
    let dir = DirKey(77);
    assert_eq!(dir.file(&[0u8]), FileKey(77, 0xfa783fc2));
    assert_eq!(dir.file(&[5u8]), FileKey(77, 0x69115b60));
    assert_eq!(dir.file(b"abc"), FileKey(77, 0xab6ae50e));
    assert_eq!(dir.file(b"abc").1, DirKey::const_new(b"abc").0);
}

#[test]
fn file_key_round_trips() {
    let key = FileKey(0x01020304, 0xA0B0C0D0);
    let mut buf = [0xEEu8; 10];
    assert_eq!(key.serialize_into(&mut buf), Ok(8));
    assert_eq!(buf, [4, 3, 2, 1, 0xD0, 0xC0, 0xB0, 0xA0, 0xEE, 0xEE]);
    assert_eq!(FileKey::deserialize_from(&buf), Ok((key, 8)));
    assert_eq!(FileKey::get_len(&[]), Ok(8));
}

#[test]
fn file_key_needs_eight_bytes() {
    let mut small = [0u8; 7];
    assert_eq!(FileKey(1, 2).serialize_into(&mut small), Err(SerializationError::BufferTooSmall));
    assert_eq!(small, [0u8; 7]);
    assert_eq!(FileKey::deserialize_from(&[1, 2, 3]), Err(SerializationError::BufferTooSmall));
}

#[test]
fn directory_round_trips() {
    let dir = Directory { len: 2, dir_key: DirKey(0x11223344), entries: vec![[1, 2, 3, 4], [5, 6, 7, 8]] };
    let mut buf = [0u8; 16];
    assert_eq!(dir.serialize_into(&mut buf), Ok(14));
    assert_eq!(&buf[..14], &[2, 0, 0x44, 0x33, 0x22, 0x11, 1, 2, 3, 4, 5, 6, 7, 8]);
    assert_eq!(Directory::deserialize_from(&buf), Ok((dir, 14)));
}

#[test]
fn directory_buffer_errors() {
    let dir = Directory { len: 1, dir_key: DirKey(1), entries: vec![[1, 2, 3, 4]] };
    let mut buf = [9u8; 9];
    assert_eq!(dir.serialize_into(&mut buf), Err(SerializationError::BufferTooSmall));
    assert_eq!(buf, [9u8; 9]);
    assert_eq!(Directory::deserialize_from(&[1, 0, 0]), Err(SerializationError::BufferTooSmall));
    assert_eq!(
        Directory::deserialize_from(&[2, 0, 0, 0, 0, 0, 1, 2, 3, 4]),
        Err(SerializationError::BufferTooSmall)
    );
}

#[test]
fn directory_count_wraps_in_sixteen_bits() {
    // 16384 entries announce 0 bytes of entries once multiplied by four.
    let buf = [0u8, 0x40, 1, 0, 0, 0];
    let (dir, used) = Directory::deserialize_from(&buf).unwrap();
    assert_eq!(used, 6);
    assert_eq!(dir.len, 16384);
    assert!(dir.entries.is_empty());
}

#[test]
fn directory_lists_files_by_name_hash() {
    let key = FileKey(1, 0x04030201);
    assert_eq!(entry_of(&key), [1, 2, 3, 4]);
    let dir = Directory { len: 1, dir_key: DirKey(1), entries: vec![[1, 2, 3, 4]] };
    assert!(dir.contains(&key));
    assert!(!dir.contains(&FileKey(1, 0x01020304)));
}

#[test]
fn set_creates_sorts_and_skips() {
    let dir = DirKey(9);
    let first = index_after_set(None, dir, FileKey(9, 0x000000FF)).unwrap();
    assert_eq!(first, Directory { len: 1, dir_key: dir, entries: vec![[0xFF, 0, 0, 0]] });
    let second = index_after_set(Some(&first), dir, FileKey(9, 0x00000001)).unwrap();
    assert_eq!(second.entries, vec![[1, 0, 0, 0], [0xFF, 0, 0, 0]]);
    assert_eq!(second.len, 2);
    let third = index_after_set(Some(&second), dir, FileKey(9, 0x00000200)).unwrap();
    assert_eq!(third.entries, vec![[0, 2, 0, 0], [1, 0, 0, 0], [0xFF, 0, 0, 0]]);
    assert_eq!(index_after_set(Some(&third), dir, FileKey(9, 0x00000001)), None);
}

#[test]
fn delete_removes_first_entry() {
    let d = Directory { len: 3, dir_key: DirKey(4), entries: vec![[1, 0, 0, 0], [2, 0, 0, 0], [1, 0, 0, 0]] };
    let after = index_after_delete(Some(&d), FileKey(6, 1)).unwrap();
    assert_eq!(after, Directory { len: 2, dir_key: DirKey(6), entries: vec![[2, 0, 0, 0], [1, 0, 0, 0]] });
    assert_eq!(index_after_delete(Some(&d), FileKey(6, 3)), None);
    assert_eq!(index_after_delete(None, FileKey(6, 1)), None);
}

#[test]
fn directory_entries_hand_out_files() {
    let d = Directory { len: 2, dir_key: DirKey(3), entries: vec![[1, 0, 0, 0], [2, 0, 0, 0], [3, 0, 0, 0]] };
    let mut entries = DirectoryEntries::new(DirKey(8), d);
    assert_eq!(entries.len(), 2);
    assert_eq!(entries.next(), Some(FileKey(8, 1)));
    assert_eq!(entries.next(), Some(FileKey(8, 2)));
    assert_eq!(entries.next(), None);
    assert_eq!(entries.next(), None);
}

#[test]
fn partition_maps_offsets() {
    let p = FsPartition { partition_size: 0x1000, partition_offset: 0x9000 };
    assert_eq!(p.size(), 0x1000);
    assert!(p.in_range(0x9000));
    assert!(p.in_range(0xA000));
    assert!(!p.in_range(0xA001));
    assert!(!p.in_range(0x8FFF));
    assert_eq!(p.map_offset(0x10), Some(0x9010));
    assert_eq!(p.map_offset(0x1001), None);
    assert_eq!(p.access_range(0xFF0, 0x10), Ok(0x9FF0));
    assert_eq!(p.access_range(0xFF0, 0x11), Err(FlashAccessError::OutOfBounds));
    assert_eq!(p.erase_range(0, 0x1000), Ok((0x9000, 0xA000)));
    assert_eq!(p.erase_range(0, 0x1001), Err(FlashAccessError::OutOfBounds));
}

#[test]
fn flash_errors_map_to_file_system_errors() {
    assert_eq!(fs_error_of(FlashErrorKind::IoTimeout), FsErrorKind::Io);
    assert_eq!(fs_error_of(FlashErrorKind::OtherCoreRunning), FsErrorKind::Io);
    assert_eq!(fs_error_of(FlashErrorKind::NotAligned), FsErrorKind::Invalid);
    assert_eq!(fs_error_of(FlashErrorKind::Other), FsErrorKind::Invalid);
}

#[test]
fn listing_len_counts_the_files_next_gives() {
    let d = Directory { len: 3, dir_key: DirKey(3), entries: vec![[7, 0, 0, 0], [8, 0, 0, 0], [9, 0, 0, 0]] };
    let mut entries = DirectoryEntries::new(DirKey(5), d);
    let total = entries.len();
    let mut given = 0usize;
    while let Some(_) = entries.next() {
        given += 1;
        assert_eq!(entries.len(), total);
    }
    assert_eq!(given, total);
    assert_eq!(entries.len(), 3);
    assert_eq!(entries.next(), None);
}
