//! Stable configuration identifiers and owner-local bindings of granted abilities.

pub mod definitions;
pub mod grants;

pub use definitions::{AbilityId, EffectId};
pub use grants::ConfiguredAbilities;
