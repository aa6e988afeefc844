//! The compilation step of catalog construction: every effect, then every
//! targeting pipeline, then every ability, each in table row order, against the
//! tag names that registration adds.

use super::abilities::{AbilityPlan, ability_plans_check, plan_abilities, spec_ability_plan};
use super::effects::{EffectPlan, effect_plans_check, plan_effects, spec_effect_plan};
use super::preparation::{PreparedTables, PreparedView};
use super::targeting::{TargetingPlan, plan_targetings, spec_targeting_plan, targeting_plans_check};
use super::validation::first_failure;
use crate::config::error::{ConfigError, ErrorSite, reports};
use crate::config::generated::TablesView;
use vstd::prelude::*;

verus! {

/// The runtime definitions of a catalog, each list in table row order.
#[derive(Debug)]
pub struct CatalogPlan {
    /// One plan per effect row.
    pub effects: Vec<EffectPlan>,
    /// One pipeline per targeting row.
    pub targetings: Vec<TargetingPlan>,
    /// One plan per ability row.
    pub abilities: Vec<AbilityPlan>,
}

/// The first failure of compiling prepared tables `t` (prepared as `p`) against
/// the registered tag names: of an effect row, else of a targeting row, else of
/// an ability row.
pub open spec fn catalog_failure(t: TablesView, p: PreparedView, registered: Seq<Seq<char>>) -> Option<ErrorSite> {
    let effects = first_failure(effect_plans_check(t, p, registered), t.effects.len());
    let targetings = first_failure(targeting_plans_check(t, registered), t.targetings.len());
    if effects is Some {
        effects
    } else if targetings is Some {
        targetings
    } else {
        first_failure(ability_plans_check(t, p, registered), t.abilities.len())
    }
}

/// `plan` holds exactly the effect, targeting and ability plans of `t`.
pub open spec fn plans_catalog(plan: CatalogPlan, t: TablesView, p: PreparedView) -> bool {
    &&& plan.effects.deep_view() == Seq::new(t.effects.len(), |i: int| spec_effect_plan(t, p, t.effects[i]))
    &&& plan.targetings@.len() == t.targetings.len()
    &&& forall|i: int| 0 <= i < plan.targetings@.len() ==> (#[trigger] plan.targetings@[i]).id == t.targetings[i].id
        && plan.targetings@[i].steps@ == spec_targeting_plan(t.targetings[i])
    &&& plan.abilities.deep_view() == Seq::new(t.abilities.len(), |i: int| spec_ability_plan(t, p, t.abilities[i]))
}

/// Compiles the prepared tables against the registered tag names: the effects,
/// then the targeting pipelines, then the abilities, stopping at the first row
/// that cannot be represented or whose references do not resolve.
pub fn plan_catalog(prepared: &PreparedTables, registered: &Vec<String>) -> (res: Result<CatalogPlan, ConfigError>)
    ensures
        match catalog_failure(prepared.source(), prepared@, registered.deep_view()) {
            Some(s) => res matches Err(e) && reports(e@, s),
            None => res matches Ok(plan) && plans_catalog(plan, prepared.source(), prepared@),
        },
{
    let effects = plan_effects(prepared, registered)?;
    let targetings = plan_targetings(prepared.tables(), registered)?;
    let abilities = plan_abilities(prepared, registered)?;
    Ok(CatalogPlan { effects, targetings, abilities })
}

} // verus!
