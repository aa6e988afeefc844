//! Startup catalog construction: the failures it reports itself.

use crate::config::error::{ConfigError, ConfigErrorKind, ConfigLocation, LocationView};
use vstd::prelude::*;

verus! {

/// The failure of a runtime registry `name` that is not installed.
pub fn missing_registry(name: &'static str) -> (e: ConfigError)
    ensures
        e@.kind == ConfigErrorKind::MissingResource,
        e@.location == LocationView::Resource(name@),
        e@.message == "install GameplayAbilitySystemPlugin before compiling configuration"@,
{
    ConfigError::new(
        ConfigErrorKind::MissingResource,
        ConfigLocation::Resource(name),
        "install GameplayAbilitySystemPlugin before compiling configuration",
    )
}

} // verus!
