//! The protocol's header names and the announcement a service makes.

use vstd::prelude::*;

verus! {

/// The headers the resumable-upload protocol speaks through.
#[derive(Debug)]
pub enum AxumTusHeaders {
    MaxSize,
    Extensions,
    Version,
    Resumable,
    UploadLength,
    UploadOffset,
    UploadMetadata,
}

impl AxumTusHeaders {
    /// The header's wire name.
    pub fn name(&self) -> (r: &'static str)
        ensures
            match self {
                AxumTusHeaders::MaxSize => r@ == "Tus-Max-Size"@,
                AxumTusHeaders::Extensions => r@ == "Tus-Extension"@,
                AxumTusHeaders::Version => r@ == "Tus-Version"@,
                AxumTusHeaders::Resumable => r@ == "Tus-Resumable"@,
                AxumTusHeaders::UploadLength => r@ == "Upload-Length"@,
                AxumTusHeaders::UploadOffset => r@ == "Upload-Offset"@,
                AxumTusHeaders::UploadMetadata => r@ == "Upload-Metadata"@,
            },
    {
        match self {
            AxumTusHeaders::MaxSize => "Tus-Max-Size",
            AxumTusHeaders::Extensions => "Tus-Extension",
            AxumTusHeaders::Version => "Tus-Version",
            AxumTusHeaders::Resumable => "Tus-Resumable",
            AxumTusHeaders::UploadLength => "Upload-Length",
            AxumTusHeaders::UploadOffset => "Upload-Offset",
            AxumTusHeaders::UploadMetadata => "Upload-Metadata",
        }
    }
}

/// The protocol extensions a service can announce. Only `Creation` is
/// offered so far; the others have no wire name yet, so `name` asks for
/// `Creation`.
#[derive(Debug)]
pub enum TusExtensions {
    Creation,
    Concatenation,
    Termination,
    CreationWithUpload,
    Checksum,
}

impl TusExtensions {
    /// The extension's wire name.
    pub fn name(&self) -> (r: String)
        requires
            self is Creation,
        ensures
            r@ == "creation"@,
    {
        "creation".to_owned()
    }
}

/// The protocol headers of one request or response, read into plain values.
#[derive(Debug)]
pub struct TusHeaderMap {
    pub max_size: Option<u64>,
    pub extensions: Option<Vec<String>>,
    pub version: Option<Vec<String>>,
    pub resumable: Option<String>,
    pub upload_length: Option<u64>,
    pub upload_metadata: Option<String>,
    pub upload_offset: Option<u64>,
}

impl Default for TusHeaderMap {
    /// A header map with nothing set.
    fn default() -> (r: TusHeaderMap)
        ensures
            r.max_size is None,
            r.extensions is None,
            r.version is None,
            r.resumable is None,
            r.upload_length is None,
            r.upload_metadata is None,
            r.upload_offset is None,
    {
        TusHeaderMap {
            max_size: None,
            extensions: None,
            version: None,
            resumable: None,
            upload_length: None,
            upload_metadata: None,
            upload_offset: None,
        }
    }
}

impl TusHeaderMap {
    /// The announcement applied to every response: protocol version 1.0.0,
    /// the `creation` extension, and the default maximum size.
    pub fn with_tus_version() -> (r: TusHeaderMap)
        ensures
            r.resumable matches Some(s) && s@ == "1.0.0"@,
            r.version matches Some(v) && v@.len() == 1 && v@[0]@ == "1.0.0"@,
            r.extensions matches Some(e) && e@.len() == 1 && e@[0]@ == "creation"@,
            r.max_size == Some(300_000_000_000u64),
            r.upload_length is None,
            r.upload_metadata is None,
            r.upload_offset is None,
    {
        let mut version: Vec<String> = Vec::new();
        version.push("1.0.0".to_owned());
        let mut extensions: Vec<String> = Vec::new();
        extensions.push(TusExtensions::Creation.name());
        TusHeaderMap {
            max_size: Some(300_000_000_000),
            extensions: Some(extensions),
            version: Some(version),
            resumable: Some("1.0.0".to_owned()),
            upload_length: None,
            upload_metadata: None,
            upload_offset: None,
        }
    }
}

} // verus!
