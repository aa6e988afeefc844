//! Package integrity: size limits, content hashes, and the manifest that records
//! the schema, every table file and a combined data hash.

pub mod files;
pub mod hashes;
pub mod json;
pub mod manifest;

pub use files::{MAX_FILE_BYTES, MAX_MANIFEST_BYTES, MAX_PACKAGE_BYTES, add_package_size};
pub use hashes::package_schema_hash;
