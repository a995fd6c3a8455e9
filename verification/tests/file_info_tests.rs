use tus_core::file_info::FileInfo;
use tus_core::metadata::Metadata;

#[test]
fn test_build_carries_fields() {
    let built = FileInfo::new(42).with_raw_id("abc".to_string()).build();
    assert_eq!(built.id(), "abc");
    assert_eq!(*built.length(), 42);
    assert_eq!(built.length_str(), "42");
}

#[test]
fn test_with_metadata_derives_name() {
    let meta = Metadata::try_from("filename dGVzdC5tb3Y=").unwrap();
    let info = FileInfo::new(7).with_raw_id("x".to_string()).with_metadata(meta);
    assert_eq!(info.name(), "test.mov");
}

#[test]
fn test_with_metadata_without_filename_keeps_name() {
    let meta = Metadata::try_from("other dGVzdC5tb3Y=").unwrap();
    let info = FileInfo::new(7).with_raw_id("x".to_string()).with_metadata(meta);
    assert_eq!(info.name(), "");
}

#[test]
fn test_metadata_str_echoes_wire_format() {
    let meta = Metadata::try_from("filename dGVzdC5tb3Y=,empty ").unwrap();
    let info = FileInfo::new(7).with_raw_id("x".to_string()).with_metadata(meta);
    assert_eq!(info.metadata_str(), "filename dGVzdC5tb3Y=,empty");
}

#[test]
fn test_set_offset_and_completion() {
    let built = FileInfo::new(10).with_raw_id("abc".to_string()).build();
    let mut created = built.mark_as_created("/root/abc");
    assert_eq!(*created.offset(), 0);
    assert!(created.set_offset(11).is_err());
    assert_eq!(*created.offset(), 0);
    assert!(created.set_offset(4).is_ok());
    assert_eq!(*created.offset(), 4);
    let created = match created.check_completion() {
        Some(_) => panic!("offset 4 of 10 is not complete"),
        None => FileInfo::new(10).with_raw_id("abc".to_string()).build().mark_as_created("/root/abc"),
    };
    let mut created = created;
    created.set_offset(10).unwrap();
    let completed = created.check_completion().unwrap();
    assert_eq!(completed.file_name(), "/root/abc");
}

#[test]
fn test_mark_as_terminated_keeps_fields() {
    let mut created = FileInfo::new(10)
        .with_raw_id("abc".to_string())
        .build()
        .mark_as_created("/root/abc");
    created.set_offset(3).unwrap();
    let terminated = created.mark_as_terminated();
    assert_eq!(*terminated.offset(), 3);
    assert_eq!(terminated.file_name(), "/root/abc");
}

#[test]
fn test_uuid_ids_are_distinct() {
    let a = FileInfo::new(1).with_uuid();
    let b = FileInfo::new(1).with_uuid();
    assert_eq!(a.id().len(), 32);
    assert_eq!(b.id().len(), 32);
    assert_ne!(a.id(), b.id());
}
