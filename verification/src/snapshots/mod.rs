//! Snapshots of file trees: what is hashed, uploaded, downloaded, and in which order.

pub mod download;
pub mod file_download;
pub mod file_upload;
pub mod hash_cache;
pub mod hashing;
pub mod layout;
pub mod manifest;
pub mod names;
pub mod operations;
pub mod parts;
pub mod progress;
pub mod round_trip;
pub mod symlinks;
pub mod transfer;
pub mod upload;
