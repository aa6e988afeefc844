//! Verified configuration core of a game built on a gameplay ability system:
//! bounds-checked decoding of the binary configuration tables, reference
//! preparation, authoring validation, compilation plans, inspection reports
//! and package integrity records.

pub mod config;
