//! Inspection reports of authored abilities.

pub mod report;

pub use report::{describe_ability, describe_ability_at_level};
