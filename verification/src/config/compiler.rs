//! Preparation, authoring validation and compilation plans of the configuration
//! tables.

pub mod abilities;
pub mod compilability;
pub mod effects;
pub mod magnitude;
pub mod planning;
pub mod preparation;
pub mod registration;
pub mod startup;
pub mod targeting;
pub mod validation;
