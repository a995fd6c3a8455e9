use tus_core::metadata::Metadata;
use tus_core::metadata::MetadataError;

#[test]
fn test_parse_and_decode_scenario() {
    let m = Metadata::try_from("filename dGVzdC5tb3Y=,empty ").unwrap();
    assert_eq!(m.get_raw("filename").unwrap(), b"test.mov".to_vec());
    assert_eq!(m.get_raw("empty").unwrap(), Vec::<u8>::new());
    assert!(matches!(m.get_raw("missing"), Err(MetadataError::InvalidKey)));
}

#[test]
fn test_parse_empty_string_yields_empty_metadata() {
    let m = Metadata::try_from("").unwrap();
    assert_eq!(m.len(), 0);
}

#[test]
fn test_parse_blank_pairs_are_skipped() {
    let m = Metadata::try_from("a YQ==,, ,b").unwrap();
    assert_eq!(m.len(), 2);
    assert_eq!(m.get_raw("a").unwrap(), b"a".to_vec());
    assert_eq!(m.get_raw("b").unwrap(), Vec::<u8>::new());
}

#[test]
fn test_parse_three_tokens_is_format_error() {
    assert!(matches!(
        Metadata::try_from("a b c"),
        Err(MetadataError::InvalidMetadataFormat)
    ));
}

#[test]
fn test_parse_double_space_is_format_error() {
    assert!(matches!(
        Metadata::try_from("a  b"),
        Err(MetadataError::InvalidMetadataFormat)
    ));
}

#[test]
fn test_parse_missing_value_defaults_to_empty() {
    let m = Metadata::try_from("key").unwrap();
    assert_eq!(m.len(), 1);
    assert_eq!(m.get_raw("key").unwrap(), Vec::<u8>::new());
}

#[test]
fn test_parse_duplicate_key_keeps_last_value() {
    let m = Metadata::try_from("k YQ==,k Yg==").unwrap();
    assert_eq!(m.len(), 1);
    assert_eq!(m.get_raw("k").unwrap(), b"b".to_vec());
}

#[test]
fn test_decode_bad_base64_is_decode_error() {
    let m = Metadata::try_from("k %%%").unwrap();
    assert!(matches!(m.get_raw("k"), Err(MetadataError::DecodeError(_))));
}

#[test]
fn test_parse_never_validates_values() {
    // Parsing is lazy per key: a bad value under a key that is never
    // queried does not fail the parse, nor other keys' decodes.
    let m = Metadata::try_from("bad !!!,good YQ==").unwrap();
    assert_eq!(m.get_raw("good").unwrap(), b"a".to_vec());
}

#[test]
fn test_metadata_round_trip() {
    let mut m = Metadata::new();
    m.insert_raw("filename", b"test.mov");
    m.insert_raw("payload", &[0u8, 255, 7, 42]);
    m.insert_raw("empty", b"");
    let wire = m.serialize();
    let back = Metadata::try_from(wire.as_str()).unwrap();
    assert_eq!(back.len(), 3);
    assert_eq!(back.get_raw("filename").unwrap(), b"test.mov".to_vec());
    assert_eq!(back.get_raw("payload").unwrap(), vec![0u8, 255, 7, 42]);
    assert_eq!(back.get_raw("empty").unwrap(), Vec::<u8>::new());
}

#[test]
fn test_serialize_wire_shape() {
    let mut m = Metadata::new();
    m.insert_raw("k", b"a");
    m.insert_raw("empty", b"");
    assert_eq!(m.serialize(), "k YQ==,empty");
}

#[test]
fn test_insert_raw_replaces_earlier_binding() {
    let mut m = Metadata::new();
    m.insert_raw("k", b"a");
    m.insert_raw("k", b"b");
    assert_eq!(m.len(), 1);
    assert_eq!(m.get_raw("k").unwrap(), b"b".to_vec());
}

#[test]
fn test_try_file_name() {
    let m = Metadata::try_from("filename dGVzdC5tb3Y=").unwrap();
    assert_eq!(m.try_file_name().unwrap(), "test.mov");
    let none = Metadata::try_from("other dGVzdC5tb3Y=").unwrap();
    assert!(none.try_file_name().is_none());
}
