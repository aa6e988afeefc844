//! Stable identifiers authored in the configuration tables.

use vstd::prelude::*;

verus! {

/// Stable ability identifier authored in the configuration tables.
#[derive(Debug, Clone, Copy, PartialEq, Eq, PartialOrd, Ord, Hash, Structural)]
pub struct AbilityId(pub i32);

/// Stable effect identifier authored in the configuration tables.
#[derive(Debug, Clone, Copy, PartialEq, Eq, PartialOrd, Ord, Hash, Structural)]
pub struct EffectId(pub i32);

} // verus!
