//! Core of a resumable-upload service: the metadata wire codec, the upload
//! lifecycle state machine, the storage-backend contract, and an in-memory
//! reference backend that implements it.

pub mod auth;
pub mod file_info;
pub mod headers;
pub mod laws;
pub mod metadata;
pub mod store;
