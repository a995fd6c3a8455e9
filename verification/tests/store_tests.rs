use tus_core::file_info::FileInfo;
use tus_core::store::CreationErrorKind;
use tus_core::store::FileStore;
use tus_core::store::FileStoreError;
use tus_core::store::LocalFileStore;
use tus_core::store::PatchOption;
use tus_core::store::ReadErrorKind;
use tus_core::store::TerminationErrorKind;
use tus_core::metadata::MetadataError;

fn fresh_store() -> LocalFileStore {
    LocalFileStore::new("/tmp/tus-root".to_string())
}

#[test]
fn test_build_create_get_info() {
    let mut store = fresh_store();
    let built = store
        .build_file(1024, Some("filename dGVzdC5tb3Y="))
        .unwrap();
    assert_eq!(built.id().len(), 32);
    let id = built.id().to_string();
    let created = store.create_file(built).unwrap();
    assert_eq!(created.id(), id);
    assert!(store.file_exists(id.as_str()));
    let info = store.get_file_info(id.as_str()).unwrap();
    assert_eq!(*info.offset(), 0);
    assert_eq!(*info.length(), 1024);
    let meta = info.metadata().as_ref().unwrap();
    assert_eq!(meta.get_raw("filename").unwrap(), b"test.mov".to_vec());
}

#[test]
fn test_build_file_identifier_is_hex() {
    let store = fresh_store();
    let built = store.build_file(1, None).unwrap();
    assert_eq!(built.id().len(), 32);
    assert!(built.id().chars().all(|c| c.is_ascii_hexdigit() && !c.is_uppercase()));
}

#[test]
fn test_build_file_bad_metadata() {
    let store = fresh_store();
    let r = store.build_file(5, Some("a b c"));
    assert!(matches!(
        r,
        Err(FileStoreError::CreationError(CreationErrorKind::InvalidMetadata(
            MetadataError::InvalidMetadataFormat
        )))
    ));
}

#[test]
fn test_patch_sequence_completes_once() {
    let mut store = fresh_store();
    let built = store.build_file(10, None).unwrap();
    let id = built.id().to_string();
    store.create_file(built).unwrap();

    match store.patch_file(id.as_str(), 0, b"abcdef").unwrap() {
        PatchOption::Patched(off) => assert_eq!(off, 6),
        PatchOption::Completed(_) => panic!("completed too early"),
    }
    match store.patch_file(id.as_str(), 6, b"ghij").unwrap() {
        PatchOption::Patched(_) => panic!("should have completed"),
        PatchOption::Completed(fi) => {
            assert_eq!(*fi.length(), 10);
        }
    }
    // The record is complete and retained: any further patch is a conflict.
    let after = store.patch_file(id.as_str(), 6, b"x");
    assert!(matches!(
        after,
        Err(FileStoreError::ReadError(ReadErrorKind::OffsetMismatch))
    ));
}

#[test]
fn test_patch_wrong_offset_changes_nothing() {
    let mut store = fresh_store();
    let built = store.build_file(10, None).unwrap();
    let id = built.id().to_string();
    store.create_file(built).unwrap();
    store.patch_file(id.as_str(), 0, b"abc").unwrap();

    // A stale retransmission and an out-of-order chunk both conflict.
    let r = store.patch_file(id.as_str(), 0, b"zzz");
    assert!(matches!(
        r,
        Err(FileStoreError::ReadError(ReadErrorKind::OffsetMismatch))
    ));
    let r = store.patch_file(id.as_str(), 7, b"zzz");
    assert!(matches!(
        r,
        Err(FileStoreError::ReadError(ReadErrorKind::OffsetMismatch))
    ));
    let info = store.get_file_info(id.as_str()).unwrap();
    assert_eq!(*info.offset(), 3);
}

#[test]
fn test_patch_missing_id() {
    let mut store = fresh_store();
    let r = store.patch_file("nope", 0, b"a");
    assert!(matches!(
        r,
        Err(FileStoreError::ReadError(ReadErrorKind::NotFound))
    ));
}

#[test]
fn test_patch_beyond_length() {
    let mut store = fresh_store();
    let built = store.build_file(4, None).unwrap();
    let id = built.id().to_string();
    store.create_file(built).unwrap();
    let r = store.patch_file(id.as_str(), 0, b"abcde");
    assert!(matches!(
        r,
        Err(FileStoreError::ReadError(ReadErrorKind::OffsetBeyondLength))
    ));
    let info = store.get_file_info(id.as_str()).unwrap();
    assert_eq!(*info.offset(), 0);
}

#[test]
fn test_create_duplicate_id() {
    let mut store = fresh_store();
    let a = FileInfo::new(5).with_raw_id("fixed-id".to_string()).build();
    let b = FileInfo::new(5).with_raw_id("fixed-id".to_string()).build();
    store.create_file(a).unwrap();
    let r = store.create_file(b);
    assert!(matches!(
        r,
        Err(FileStoreError::CreationError(CreationErrorKind::DuplicateId))
    ));
}

#[test]
fn test_delete_then_absent() {
    let mut store = fresh_store();
    let built = store.build_file(10, None).unwrap();
    let id = built.id().to_string();
    store.create_file(built).unwrap();
    assert!(store.file_exists(id.as_str()));

    store.delete_file(id.as_str()).unwrap();
    assert!(!store.file_exists(id.as_str()));
    assert!(matches!(
        store.get_file_info(id.as_str()),
        Err(FileStoreError::ReadError(ReadErrorKind::NotFound))
    ));
    assert!(matches!(
        store.delete_file(id.as_str()),
        Err(FileStoreError::TerminationError(TerminationErrorKind::NotFound))
    ));
}

#[test]
fn test_zero_length_upload_policy() {
    // A zero-length upload is created with offset equal to its length; it is
    // already complete, so every patch on it is refused as a conflict.
    let mut store = fresh_store();
    let built = store.build_file(0, None).unwrap();
    let id = built.id().to_string();
    store.create_file(built).unwrap();
    let info = store.get_file_info(id.as_str()).unwrap();
    assert_eq!(*info.offset(), 0);
    assert_eq!(*info.length(), 0);
    let r = store.patch_file(id.as_str(), 0, b"");
    assert!(matches!(
        r,
        Err(FileStoreError::ReadError(ReadErrorKind::OffsetMismatch))
    ));
}

#[test]
fn test_created_record_name_joins_root() {
    let mut store = fresh_store();
    let built = store.build_file(3, Some("filename dGVzdC5tb3Y=")).unwrap();
    let created = store.create_file(built).unwrap();
    assert_eq!(created.name(), "/tmp/tus-root/test.mov");
}
