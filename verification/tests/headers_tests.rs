use tus_core::auth::AuthClaims;
use tus_core::auth::ExampleJwtClaims;
use tus_core::headers::AxumTusHeaders;
use tus_core::headers::TusExtensions;
use tus_core::headers::TusHeaderMap;

#[test]
fn test_header_names() {
    assert_eq!(AxumTusHeaders::MaxSize.name(), "Tus-Max-Size");
    assert_eq!(AxumTusHeaders::Extensions.name(), "Tus-Extension");
    assert_eq!(AxumTusHeaders::Version.name(), "Tus-Version");
    assert_eq!(AxumTusHeaders::Resumable.name(), "Tus-Resumable");
    assert_eq!(AxumTusHeaders::UploadLength.name(), "Upload-Length");
    assert_eq!(AxumTusHeaders::UploadOffset.name(), "Upload-Offset");
    assert_eq!(AxumTusHeaders::UploadMetadata.name(), "Upload-Metadata");
}

#[test]
fn test_extension_name() {
    assert_eq!(TusExtensions::Creation.name(), "creation");
}

#[test]
fn test_with_tus_version_announcement() {
    let h = TusHeaderMap::with_tus_version();
    assert_eq!(h.resumable.as_deref(), Some("1.0.0"));
    assert_eq!(h.version, Some(vec!["1.0.0".to_string()]));
    assert_eq!(h.extensions, Some(vec!["creation".to_string()]));
    assert_eq!(h.max_size, Some(300_000_000_000));
    assert!(h.upload_length.is_none());
    assert!(h.upload_metadata.is_none());
    assert!(h.upload_offset.is_none());
}

#[test]
fn test_default_header_map_is_empty() {
    let h = TusHeaderMap::default();
    assert!(h.max_size.is_none());
    assert!(h.extensions.is_none());
    assert!(h.version.is_none());
    assert!(h.resumable.is_none());
    assert!(h.upload_length.is_none());
    assert!(h.upload_metadata.is_none());
    assert!(h.upload_offset.is_none());
}

#[test]
fn test_example_claims() {
    let claims = ExampleJwtClaims {
        sub: "subject".to_string(),
        user_id: "user-1".to_string(),
        exp: 1700000000,
    };
    assert_eq!(claims.get_user_id(), "user-1");
    assert_eq!(claims.get_expiration(), 1700000000);
    assert_eq!(claims.get_subject(), "subject");
}
