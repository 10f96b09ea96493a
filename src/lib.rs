//! A catalog-and-delivery gateway for video files kept in an object-storage
//! bucket: it lists one folder level with filtering, sorting and pagination,
//! and turns an encoded key into a request for a time-limited signed URL.
//! The storage backend and the HTTP transport are left to the caller, which
//! hands backend results in as plain values.

pub mod access;
pub mod error;
pub mod config;
pub mod keycodec;
pub mod listing;
pub mod pagination;
pub mod video;
