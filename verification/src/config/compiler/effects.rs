//! Shared effect definitions: which modifiers, duration, period, probability and
//! tags each effect row compiles to, and the checks that construction makes.

use super::preparation::{
    PreparedMagnitude, PreparedModifier, PreparedModifierView, PreparedTables, PreparedView,
    modifiers_of,
};
use super::registration::{resolve_tags, tag_resolution_failure};
use super::validation::{first_failure, lemma_failure_persists, row_field};
use crate::config::error::{
    ConfigError, ConfigErrorKind, ErrorSite, LocationView, reports, row_field_location,
    site_with,
};
use crate::config::generated::{
    Attribute, DurationKind, Effect, EffectView, ModifierOperation, RowKey, Tables, TablesView,
    row_with_key,
};
use crate::config::numeric::{probability_is_valid, spec_probability_is_valid};
use crate::config::text::owned;
use vstd::prelude::*;

verus! {

/// How long an effect lasts once applied.
#[derive(Debug, Clone, Copy, PartialEq, Eq, Structural)]
pub enum DurationPlan {
    /// Applied once, with no lasting state.
    Instant,
    /// Lasts until removed.
    Infinite,
    /// Lasts this many ticks.
    Ticks(u32),
}

/// Periodic execution of a lasting effect.
#[derive(Debug, Clone, Copy, PartialEq, Eq, Structural)]
pub struct PeriodPlan {
    /// The positive period, in ticks.
    pub ticks: u32,
    /// Whether the effect also executes when applied.
    pub execute_on_applied: bool,
}

/// The mathematical content of a [`ModifierPlan`].
pub struct ModifierPlanView {
    pub attribute: Seq<char>,
    pub operation: ModifierOperation,
    pub magnitude: PreparedMagnitude,
}

/// One attribute modifier of a compiled effect.
#[derive(Debug)]
pub struct ModifierPlan {
    /// The registered attribute name.
    pub attribute: String,
    /// How the magnitude combines with the attribute.
    pub operation: ModifierOperation,
    /// The magnitude formula actually used.
    pub magnitude: PreparedMagnitude,
}

impl DeepView for ModifierPlan {
    type V = ModifierPlanView;

    open spec fn deep_view(&self) -> ModifierPlanView {
        ModifierPlanView { attribute: self.attribute@, operation: self.operation, magnitude: self.magnitude }
    }
}

/// The mathematical content of an [`EffectPlan`].
pub struct EffectPlanView {
    pub id: i32,
    pub modifiers: Seq<ModifierPlanView>,
    pub duration: DurationPlan,
    pub period: Option<PeriodPlan>,
    pub probability: u32,
    pub asset_tags: Seq<Seq<char>>,
    pub granted_tags: Seq<Seq<char>>,
}

/// Everything one shared effect definition is built from.
#[derive(Debug)]
pub struct EffectPlan {
    /// The authored effect ID.
    pub id: i32,
    /// The modifiers, in authored order.
    pub modifiers: Vec<ModifierPlan>,
    /// How long the effect lasts.
    pub duration: DurationPlan,
    /// Periodic execution, when configured.
    pub period: Option<PeriodPlan>,
    /// The application probability, as a binary32 bit pattern.
    pub probability: u32,
    /// The registered asset tag names.
    pub asset_tags: Vec<String>,
    /// The registered tag names granted while the effect lasts.
    pub granted_tags: Vec<String>,
}

impl DeepView for EffectPlan {
    type V = EffectPlanView;

    open spec fn deep_view(&self) -> EffectPlanView {
        EffectPlanView {
            id: self.id,
            modifiers: self.modifiers.deep_view(),
            duration: self.duration,
            period: self.period,
            probability: self.probability,
            asset_tags: self.asset_tags.deep_view(),
            granted_tags: self.granted_tags.deep_view(),
        }
    }
}

// ---------------------------------------------------------------------------
// Specification

/// The positive integer `n` is exactly representable as a binary32 value: it is
/// below `2^24`, or even with a representable half.
pub open spec fn f32_exact(n: nat) -> bool
    decreases n,
{
    if n < 0x100_0000 {
        true
    } else if n % 2 == 0 {
        f32_exact(n / 2)
    } else {
        false
    }
}

/// A tick count is positive and exactly representable as a binary32 value.
pub open spec fn ticks_fit(ticks: i32) -> bool {
    ticks > 0 && f32_exact(ticks as nat)
}

/// Modifier `i` of `ms` names an attribute without an attribute row.
pub open spec fn attribute_check(t: TablesView, ms: Seq<PreparedModifierView>) -> spec_fn(int) -> Option<LocationView> {
    |i: int| if row_with_key::<Attribute>(t.attributes, RowKey::Name(ms[i].attribute)) is Some {
        None
    } else {
        Some(row_field("Modifier"@, ms[i].id, "attribute"@))
    }
}

/// The first failure of compiling effect row `e`, given the registered tag names.
pub open spec fn effect_plan_failure(t: TablesView, p: PreparedView, registered: Seq<Seq<char>>, e: EffectView) -> Option<ErrorSite> {
    let ms = modifiers_of(t, p, e.id);
    let table = "Effect"@;
    let attributes = first_failure(attribute_check(t, ms), ms.len());
    let assets = tag_resolution_failure(registered, e.asset_tags);
    let granted = tag_resolution_failure(registered, e.granted_tags);
    if !spec_probability_is_valid(e.probability) {
        Some(site_with(ConfigErrorKind::InvalidValue, row_field(table, e.id, "probability"@), "probability must be finite and in 0..=1"@))
    } else if attributes is Some {
        Some(site_with(ConfigErrorKind::Reference, attributes.unwrap(), "unresolved attribute"@))
    } else if e.duration_kind == DurationKind::DurationTicks && !(e.duration_ticks matches Some(d) && ticks_fit(d)) {
        Some(site_with(ConfigErrorKind::InvalidValue, row_field(table, e.id, "duration_ticks"@),
            if e.duration_ticks is None { "missing duration"@ } else { "ticks must be positive and exactly representable as f32"@ }))
    } else if e.period_ticks matches Some(d) && !ticks_fit(d) {
        Some(site_with(ConfigErrorKind::InvalidValue, row_field(table, e.id, "period_ticks"@), "ticks must be positive and exactly representable as f32"@))
    } else if assets is Some {
        Some(site_with(ConfigErrorKind::Reference, assets.unwrap(), "unresolved registered tag"@))
    } else if granted is Some {
        Some(site_with(ConfigErrorKind::Reference, granted.unwrap(), "unresolved registered tag"@))
    } else {
        None
    }
}

/// What effect row `e` compiles to.
pub open spec fn spec_effect_plan(t: TablesView, p: PreparedView, e: EffectView) -> EffectPlanView {
    let ms = modifiers_of(t, p, e.id);
    EffectPlanView {
        id: e.id,
        modifiers: Seq::new(ms.len(), |i: int| ModifierPlanView { attribute: ms[i].attribute, operation: ms[i].operation, magnitude: ms[i].magnitude }),
        duration: match e.duration_kind {
            DurationKind::Instant => DurationPlan::Instant,
            DurationKind::Infinite => DurationPlan::Infinite,
            DurationKind::DurationTicks => DurationPlan::Ticks(e.duration_ticks.unwrap() as u32),
        },
        period: match e.period_ticks {
            Some(d) => Some(PeriodPlan { ticks: d as u32, execute_on_applied: e.execute_on_applied }),
            None => None,
        },
        probability: e.probability,
        asset_tags: e.asset_tags,
        granted_tags: e.granted_tags,
    }
}

/// Checks of compiling the effect rows, in row order.
pub open spec fn effect_plans_check(t: TablesView, p: PreparedView, registered: Seq<Seq<char>>) -> spec_fn(int) -> Option<ErrorSite> {
    |i: int| effect_plan_failure(t, p, registered, t.effects[i])
}

// ---------------------------------------------------------------------------
// Construction

/// Whether `ticks` is positive and exactly representable as a binary32 value.
pub fn ticks_exact(ticks: i32) -> (r: bool)
    ensures
        r == ticks_fit(ticks),
{
    if ticks <= 0 {
        return false;
    }
    let mut n: u32 = ticks as u32;
    while n >= 0x100_0000 && n % 2 == 0
        invariant
            f32_exact(n as nat) == f32_exact(ticks as nat),
        decreases n,
    {
        n = n / 2;
    }
    n < 0x100_0000
}

/// A copy of a list of texts.
pub fn copy_texts(v: &Vec<String>) -> (c: Vec<String>)
    ensures
        c.deep_view() == v.deep_view(),
{
    let mut c: Vec<String> = Vec::new();
    let mut i: usize = 0;
    while i < v.len()
        invariant
            i <= v@.len(),
            c.deep_view() == v.deep_view().take(i as int),
        decreases v@.len() - i,
    {
        let ghost before = c.deep_view();
        c.push(owned(v[i].as_str()));
        assert(c.deep_view() =~= before.push(v@[i as int]@));
        assert(v.deep_view().take(i + 1) =~= v.deep_view().take(i as int).push(v@[i as int]@));
        i = i + 1;
    }
    assert(v.deep_view().take(v@.len() as int) =~= v.deep_view());
    c
}

fn plan_modifiers(tables: &Tables, ms: &[PreparedModifier]) -> (res: Result<Vec<ModifierPlan>, ConfigError>)
    ensures
        match first_failure(attribute_check(tables.deep_view(), ms.deep_view()), ms.deep_view().len()) {
            Some(l) => res matches Err(e) && reports(e@, site_with(ConfigErrorKind::Reference, l, "unresolved attribute"@)),
            None => res matches Ok(plans) && plans.deep_view() == Seq::new(ms.deep_view().len(), |i: int| ModifierPlanView {
                attribute: ms.deep_view()[i].attribute,
                operation: ms.deep_view()[i].operation,
                magnitude: ms.deep_view()[i].magnitude,
            }),
        },
{
    let ghost t = tables.deep_view();
    let ghost mv = ms.deep_view();
    let mut plans: Vec<ModifierPlan> = Vec::new();
    let mut i: usize = 0;
    while i < ms.len()
        invariant
            t == tables.deep_view(),
            mv == ms.deep_view(),
            i <= mv.len(),
            first_failure(attribute_check(t, mv), i as nat) is None,
            plans.deep_view() == Seq::new(i as nat, |k: int| ModifierPlanView { attribute: mv[k].attribute, operation: mv[k].operation, magnitude: mv[k].magnitude }),
        decreases mv.len() - i,
    {
        assert(mv[i as int] == ms@[i as int].deep_view());
        if tables.tb_attribute.get_by_name(ms[i].attribute.as_str()).is_none() {
            proof {
                lemma_failure_persists(attribute_check(t, mv), (i + 1) as nat, mv.len());
            }
            return Err(ConfigError::new(ConfigErrorKind::Reference, row_field_location("Modifier", ms[i].id, "attribute"), "unresolved attribute"));
        }
        let ghost before = plans.deep_view();
        let item = ModifierPlan { attribute: owned(ms[i].attribute.as_str()), operation: ms[i].operation, magnitude: ms[i].magnitude };
        let ghost iv = item.deep_view();
        plans.push(item);
        assert(plans.deep_view() =~= before.push(iv));
        assert(plans.deep_view() =~= Seq::new((i + 1) as nat, |k: int| ModifierPlanView { attribute: mv[k].attribute, operation: mv[k].operation, magnitude: mv[k].magnitude }));
        i = i + 1;
    }
    Ok(plans)
}

/// Compiles effect row `effect` against the `registered` tag names.
pub fn plan_effect(prepared: &PreparedTables, registered: &Vec<String>, effect: &Effect) -> (res: Result<EffectPlan, ConfigError>)
    ensures
        match effect_plan_failure(prepared.source(), prepared@, registered.deep_view(), effect.deep_view()) {
            Some(s) => res matches Err(e) && reports(e@, s),
            None => res matches Ok(plan) && plan.deep_view() == spec_effect_plan(prepared.source(), prepared@, effect.deep_view()),
        },
{
    let table = "Effect";
    if !probability_is_valid(effect.probability.0) {
        return Err(ConfigError::new(ConfigErrorKind::InvalidValue, row_field_location(table, effect.id, "probability"), "probability must be finite and in 0..=1"));
    }
    let modifiers = plan_modifiers(prepared.tables(), prepared.modifiers(effect.id))?;
    let duration = match effect.duration_kind {
        DurationKind::Instant => DurationPlan::Instant,
        DurationKind::Infinite => DurationPlan::Infinite,
        DurationKind::DurationTicks => match effect.duration_ticks {
            Some(d) => {
                if !ticks_exact(d) {
                    return Err(ConfigError::new(ConfigErrorKind::InvalidValue, row_field_location(table, effect.id, "duration_ticks"), "ticks must be positive and exactly representable as f32"));
                }
                DurationPlan::Ticks(d as u32)
            },
            None => {
                return Err(ConfigError::new(ConfigErrorKind::InvalidValue, row_field_location(table, effect.id, "duration_ticks"), "missing duration"));
            },
        },
    };
    let period = match effect.period_ticks {
        Some(d) => {
            if !ticks_exact(d) {
                return Err(ConfigError::new(ConfigErrorKind::InvalidValue, row_field_location(table, effect.id, "period_ticks"), "ticks must be positive and exactly representable as f32"));
            }
            Some(PeriodPlan { ticks: d as u32, execute_on_applied: effect.execute_on_applied })
        },
        None => None,
    };
    resolve_tags(registered, &effect.asset_tags)?;
    resolve_tags(registered, &effect.granted_tags)?;
    Ok(EffectPlan {
        id: effect.id,
        modifiers,
        duration,
        period,
        probability: effect.probability.0,
        asset_tags: copy_texts(&effect.asset_tags),
        granted_tags: copy_texts(&effect.granted_tags),
    })
}

/// Compiles every effect row in row order against the `registered` tag names,
/// stopping at the first failure.
pub fn plan_effects(prepared: &PreparedTables, registered: &Vec<String>) -> (res: Result<Vec<EffectPlan>, ConfigError>)
    ensures
        match first_failure(effect_plans_check(prepared.source(), prepared@, registered.deep_view()), prepared.source().effects.len()) {
            Some(s) => res matches Err(e) && reports(e@, s),
            None => res matches Ok(plans) && plans.deep_view() == Seq::new(prepared.source().effects.len(), |i: int| spec_effect_plan(prepared.source(), prepared@, prepared.source().effects[i])),
        },
{
    let ghost t = prepared.source();
    let ghost p = prepared@;
    let ghost r = registered.deep_view();
    let rows = prepared.tables().tb_effect.rows();
    let mut plans: Vec<EffectPlan> = Vec::new();
    let mut i: usize = 0;
    while i < rows.len()
        invariant
            t == prepared.source(),
            p == prepared@,
            r == registered.deep_view(),
            rows.deep_view() == t.effects,
            i <= t.effects.len(),
            first_failure(effect_plans_check(t, p, r), i as nat) is None,
            plans.deep_view() == Seq::new(i as nat, |k: int| spec_effect_plan(t, p, t.effects[k])),
        decreases t.effects.len() - i,
    {
        assert(t.effects[i as int] == rows@[i as int].deep_view());
        match plan_effect(prepared, registered, &rows[i]) {
            Ok(plan) => {
                let ghost before = plans.deep_view();
                let ghost pv = plan.deep_view();
                plans.push(plan);
                assert(plans.deep_view() =~= before.push(pv));
                assert(plans.deep_view() =~= Seq::new((i + 1) as nat, |k: int| spec_effect_plan(t, p, t.effects[k])));
            },
            Err(e) => {
                proof {
                    lemma_failure_persists(effect_plans_check(t, p, r), (i + 1) as nat, t.effects.len());
                }
                return Err(e);
            },
        }
        i = i + 1;
    }
    Ok(plans)
}

} // verus!
