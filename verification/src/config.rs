//! Game-owned configuration: decoding, preparation, validation, compilation plans,
//! inspection and package integrity.

pub mod catalog;
pub mod compiler;
pub mod decoding;
pub mod error;
pub mod generated;
pub mod inspection;
pub mod loading;
pub mod numeric;
pub mod package;
pub mod text;



pub use error::{ConfigError, ConfigErrorKind, ConfigLocation};
