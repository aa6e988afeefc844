//! Rows resolved, checked and ordered once for compilation, validation and
//! inspection: each ability's timeline actions and external costs, and each
//! effect's modifiers.

use crate::config::error::{
    ConfigError, ConfigErrorKind, ErrorSite, LocationView, field_at, reports, row_field_error,
    site_with,
};
use crate::config::generated::{
    Ability, AbilityAdditionalCost, AbilityAdditionalCostView, AbilityTask, AbilityTaskView,
    AbilityView, ActionKind, Effect, EffectView, MagnitudeKind, Modifier, ModifierOperation,
    ModifierView, RowKey, TargetScope, Tables, TablesView, keys_distinct,
    lemma_row_with_key_permuted, row_with_key,
};
use crate::config::numeric::{formula_parameters_are_finite, spec_parameters_are_finite};
use crate::config::text::{decimal, is_blank, owned, push_signed, spec_is_blank};
use vstd::prelude::*;

verus! {

/// Supported effect recipients after resolving the authored target scope.
#[derive(Debug, Clone, Copy, PartialEq, Eq, Structural)]
pub enum PreparedTargetScope {
    Primary,
    AllCaptured,
}

/// Runtime-relevant action semantics, independent of registry IDs.
#[derive(Debug, Clone, Copy, PartialEq, Eq, Structural)]
pub enum PreparedActionKind {
    EndAbility,
    ApplyEffect { effect_id: i32, scope: PreparedTargetScope },
}

/// One authored action with its checked tick, parent-list position, and payload.
#[derive(Debug, Clone, Copy, PartialEq, Eq, Structural)]
pub struct PreparedAction {
    pub tick: u32,
    pub order: usize,
    pub kind: PreparedActionKind,
}

impl DeepView for PreparedAction {
    type V = PreparedAction;

    open spec fn deep_view(&self) -> PreparedAction {
        *self
    }
}

/// Magnitude parameters actually used by the runtime, as binary32 bit patterns.
#[derive(Debug, Clone, Copy, PartialEq, Eq, Structural)]
pub enum PreparedMagnitude {
    Flat(u32),
    LinearLevel { base: u32, per_level: u32 },
}

/// The mathematical content of a [`PreparedAdditionalCost`].
pub struct PreparedCostView {
    pub id: i32,
    pub resource: Seq<char>,
    pub amount: u32,
}

/// One external-resource requirement with a checked runtime quantity.
#[derive(Debug)]
pub struct PreparedAdditionalCost {
    /// The authored cost row ID.
    pub id: i32,
    /// The stable resource name.
    pub resource: String,
    /// The positive required quantity.
    pub amount: u32,
}

impl DeepView for PreparedAdditionalCost {
    type V = PreparedCostView;

    open spec fn deep_view(&self) -> PreparedCostView {
        PreparedCostView { id: self.id, resource: self.resource@, amount: self.amount }
    }
}

/// The mathematical content of a [`PreparedModifier`].
pub struct PreparedModifierView {
    pub id: i32,
    pub attribute: Seq<char>,
    pub operation: ModifierOperation,
    pub magnitude_kind: MagnitudeKind,
    pub base: u32,
    pub per_level: u32,
    pub magnitude: PreparedMagnitude,
}

/// One attribute modifier with the magnitude parameters the runtime uses.
#[derive(Debug)]
pub struct PreparedModifier {
    /// The authored modifier row ID.
    pub id: i32,
    /// The modified attribute name.
    pub attribute: String,
    /// How the magnitude combines with the attribute.
    pub operation: ModifierOperation,
    /// The authored magnitude kind.
    pub magnitude_kind: MagnitudeKind,
    /// The authored base, as a binary32 bit pattern.
    pub base: u32,
    /// The authored slope, as a binary32 bit pattern.
    pub per_level: u32,
    /// The parameters actually used.
    pub magnitude: PreparedMagnitude,
}

impl DeepView for PreparedModifier {
    type V = PreparedModifierView;

    open spec fn deep_view(&self) -> PreparedModifierView {
        PreparedModifierView {
            id: self.id,
            attribute: self.attribute@,
            operation: self.operation,
            magnitude_kind: self.magnitude_kind,
            base: self.base,
            per_level: self.per_level,
            magnitude: self.magnitude,
        }
    }
}

// ---------------------------------------------------------------------------
// Specification

/// `(tick, order)` of `a` comes before that of `b`.
pub open spec fn action_before(a: PreparedAction, b: PreparedAction) -> bool {
    a.tick < b.tick || (a.tick == b.tick && a.order < b.order)
}

/// `a` inserted into `s` before the first element that `a` comes before.
pub open spec fn insert_ordered(s: Seq<PreparedAction>, a: PreparedAction) -> Seq<PreparedAction>
    decreases s.len(),
{
    if s.len() == 0 {
        seq![a]
    } else if action_before(a, s[0]) {
        seq![a] + s
    } else {
        seq![s[0]] + insert_ordered(s.drop_first(), a)
    }
}

/// `s` ordered by `(tick, order)`, keeping the authored order among equal keys.
pub open spec fn order_actions(s: Seq<PreparedAction>) -> Seq<PreparedAction>
    decreases s.len(),
{
    if s.len() == 0 {
        Seq::empty()
    } else {
        insert_ordered(order_actions(s.drop_last()), s.last())
    }
}

/// The authored ability location narrowed to `field`.
pub open spec fn ability_field(id: i32, field: Seq<char>) -> LocationView {
    field_at("Ability"@, decimal(id as int), field)
}

/// The first `n` children referenced by a list hold `id` already.
pub open spec fn repeats(ids: Seq<i32>, n: int) -> bool {
    ids.take(n).contains(ids[n])
}

/// The effect table holds a row with ID `id`.
pub open spec fn has_effect(t: TablesView, id: i32) -> bool {
    row_with_key::<Effect>(t.effects, RowKey::Id(id)) is Some
}

/// What one resolved timeline row at authored position `order` prepares to.
pub open spec fn spec_prepare_action(t: TablesView, row: AbilityTaskView, order: int) -> Result<PreparedAction, ErrorSite> {
    if row.at_tick < 0 {
        Err(site_with(ConfigErrorKind::InvalidValue, field_at("AbilityTask"@, decimal(row.id as int), "at_tick"@), "out of range integral type conversion attempted"@))
    } else {
        let tick = row.at_tick as u32;
        match row.kind {
            ActionKind::EndAbility => Ok(PreparedAction { tick, order: order as usize, kind: PreparedActionKind::EndAbility }),
            ActionKind::ApplyEffect => {
                if !(row.effect_id matches Some(e) && has_effect(t, e)) {
                    Err(site_with(ConfigErrorKind::Reference, field_at("AbilityTask"@, decimal(row.id as int), "effect_id"@), "ApplyEffect requires a known effect"@))
                } else {
                    match row.target_scope {
                        TargetScope::NoTarget => Err(site_with(ConfigErrorKind::InvalidValue, field_at("AbilityTask"@, decimal(row.id as int), "target_scope"@), "ApplyEffect needs a target scope"@)),
                        TargetScope::Primary => Ok(PreparedAction { tick, order: order as usize, kind: PreparedActionKind::ApplyEffect { effect_id: row.effect_id.unwrap(), scope: PreparedTargetScope::Primary } }),
                        TargetScope::AllCaptured => Ok(PreparedAction { tick, order: order as usize, kind: PreparedActionKind::ApplyEffect { effect_id: row.effect_id.unwrap(), scope: PreparedTargetScope::AllCaptured } }),
                    }
                }
            },
        }
    }
}

/// The first `n` timeline references of `ability`, resolved in authored order.
pub open spec fn spec_actions_upto(t: TablesView, ability: AbilityView, n: nat) -> Result<Seq<PreparedAction>, ErrorSite>
    decreases n,
{
    if n == 0 {
        Ok(Seq::empty())
    } else {
        let i = n - 1;
        match spec_actions_upto(t, ability, i as nat) {
            Err(e) => Err(e),
            Ok(actions) => {
                let id = ability.task_ids[i];
                if repeats(ability.task_ids, i) {
                    Err(site_with(ConfigErrorKind::InvalidValue, ability_field(ability.id, "task_ids"@), "duplicate referenced ID "@ + decimal(id as int)))
                } else {
                    match row_with_key::<AbilityTask>(t.tasks, RowKey::Id(id)) {
                        None => Err(site_with(ConfigErrorKind::Reference, ability_field(ability.id, "task_ids"@), "unknown referenced ID "@ + decimal(id as int))),
                        Some(row) => match spec_prepare_action(t, row, i) {
                            Err(e) => Err(e),
                            Ok(a) => Ok(actions.push(a)),
                        },
                    }
                }
            },
        }
    }
}

/// The timeline of `ability`, resolved and ordered by tick, then authored position.
#[verifier::opaque]
pub open spec fn spec_prepare_actions(t: TablesView, ability: AbilityView) -> Result<Seq<PreparedAction>, ErrorSite> {
    match spec_actions_upto(t, ability, ability.task_ids.len()) {
        Err(e) => Err(e),
        Ok(actions) => Ok(order_actions(actions)),
    }
}

/// The total amount of `resource` over `costs`.
pub open spec fn resource_total(costs: Seq<PreparedCostView>, resource: Seq<char>) -> int
    decreases costs.len(),
{
    if costs.len() == 0 {
        0
    } else {
        resource_total(costs.drop_last(), resource) + if costs.last().resource == resource {
            costs.last().amount as int
        } else {
            0
        }
    }
}

/// What one resolved cost row prepares to, after the costs already prepared.
pub open spec fn spec_prepare_cost(row: AbilityAdditionalCostView, before: Seq<PreparedCostView>) -> Result<PreparedCostView, ErrorSite> {
    if spec_is_blank(row.resource) {
        Err(site_with(ConfigErrorKind::InvalidValue, field_at("AbilityAdditionalCost"@, decimal(row.id as int), "resource"@), "resource must not be blank"@))
    } else if row.amount < 1 || row.amount > u32::MAX {
        Err(site_with(ConfigErrorKind::InvalidValue, field_at("AbilityAdditionalCost"@, decimal(row.id as int), "amount"@), "amount must be in 1..=4294967295"@))
    } else if resource_total(before, row.resource) + row.amount > u32::MAX {
        Err(site_with(ConfigErrorKind::InvalidValue, field_at("AbilityAdditionalCost"@, decimal(row.id as int), "amount"@), "total amount for this ability and resource exceeds u32 capacity"@))
    } else {
        Ok(PreparedCostView { id: row.id, resource: row.resource, amount: row.amount as u32 })
    }
}

/// The first `n` external costs of `ability`, resolved in authored order.
pub open spec fn spec_costs_upto(t: TablesView, ability: AbilityView, n: nat) -> Result<Seq<PreparedCostView>, ErrorSite>
    decreases n,
{
    if n == 0 {
        Ok(Seq::empty())
    } else {
        let i = n - 1;
        match spec_costs_upto(t, ability, i as nat) {
            Err(e) => Err(e),
            Ok(costs) => {
                let id = ability.additional_cost_ids[i];
                if repeats(ability.additional_cost_ids, i) {
                    Err(site_with(ConfigErrorKind::InvalidValue, ability_field(ability.id, "additional_cost_ids"@), "duplicate referenced ID "@ + decimal(id as int)))
                } else {
                    match row_with_key::<AbilityAdditionalCost>(t.additional_costs, RowKey::Id(id)) {
                        None => Err(site_with(ConfigErrorKind::Reference, ability_field(ability.id, "additional_cost_ids"@), "unknown referenced ID "@ + decimal(id as int))),
                        Some(row) => match spec_prepare_cost(row, costs) {
                            Err(e) => Err(e),
                            Ok(c) => Ok(costs.push(c)),
                        },
                    }
                }
            },
        }
    }
}

/// The external costs of `ability`, resolved in authored order.
#[verifier::opaque]
pub open spec fn spec_prepare_costs(t: TablesView, ability: AbilityView) -> Result<Seq<PreparedCostView>, ErrorSite> {
    spec_costs_upto(t, ability, ability.additional_cost_ids.len())
}

/// What one resolved modifier row prepares to.
pub open spec fn spec_prepare_modifier(row: ModifierView) -> Result<PreparedModifierView, ErrorSite> {
    let slope = if row.magnitude_kind == MagnitudeKind::LinearLevel { Some(row.per_level) } else { None };
    if !spec_parameters_are_finite(row.base, slope) {
        Err(site_with(ConfigErrorKind::InvalidValue, field_at("Modifier"@, decimal(row.id as int), "magnitude"@), "used formula parameters must be finite"@))
    } else {
        Ok(PreparedModifierView {
            id: row.id,
            attribute: row.attribute,
            operation: row.operation,
            magnitude_kind: row.magnitude_kind,
            base: row.base,
            per_level: row.per_level,
            magnitude: match row.magnitude_kind {
                MagnitudeKind::Flat => PreparedMagnitude::Flat(row.base),
                MagnitudeKind::LinearLevel => PreparedMagnitude::LinearLevel { base: row.base, per_level: row.per_level },
            },
        })
    }
}

/// The first `n` modifiers of `effect`, resolved in authored order.
pub open spec fn spec_modifiers_upto(t: TablesView, effect: EffectView, n: nat) -> Result<Seq<PreparedModifierView>, ErrorSite>
    decreases n,
{
    if n == 0 {
        Ok(Seq::empty())
    } else {
        let i = n - 1;
        match spec_modifiers_upto(t, effect, i as nat) {
            Err(e) => Err(e),
            Ok(modifiers) => {
                let id = effect.modifier_ids[i];
                if repeats(effect.modifier_ids, i) {
                    Err(site_with(ConfigErrorKind::InvalidValue, field_at("Effect"@, decimal(effect.id as int), "modifier_ids"@), "duplicate referenced ID "@ + decimal(id as int)))
                } else {
                    match row_with_key::<Modifier>(t.modifiers, RowKey::Id(id)) {
                        None => Err(site_with(ConfigErrorKind::Reference, field_at("Effect"@, decimal(effect.id as int), "modifier_ids"@), "unknown referenced ID "@ + decimal(id as int))),
                        Some(row) => match spec_prepare_modifier(row) {
                            Err(e) => Err(e),
                            Ok(m) => Ok(modifiers.push(m)),
                        },
                    }
                }
            },
        }
    }
}

/// The modifiers of `effect`, resolved in authored order.
#[verifier::opaque]
pub open spec fn spec_prepare_modifiers(t: TablesView, effect: EffectView) -> Result<Seq<PreparedModifierView>, ErrorSite> {
    spec_modifiers_upto(t, effect, effect.modifier_ids.len())
}

/// The mathematical content of [`PreparedTables`]: lists parallel to the ability
/// and effect rows.
pub struct PreparedView {
    pub actions: Seq<Seq<PreparedAction>>,
    pub costs: Seq<Seq<PreparedCostView>>,
    pub modifiers: Seq<Seq<PreparedModifierView>>,
}

/// The first `n` abilities prepared in row order: each ability's actions, then its costs.
pub open spec fn spec_abilities_upto(t: TablesView, n: nat) -> Result<(Seq<Seq<PreparedAction>>, Seq<Seq<PreparedCostView>>), ErrorSite>
    decreases n,
{
    if n == 0 {
        Ok((Seq::empty(), Seq::empty()))
    } else {
        match spec_abilities_upto(t, (n - 1) as nat) {
            Err(e) => Err(e),
            Ok((actions, costs)) => match spec_prepare_actions(t, t.abilities[n - 1]) {
                Err(e) => Err(e),
                Ok(a) => match spec_prepare_costs(t, t.abilities[n - 1]) {
                    Err(e) => Err(e),
                    Ok(c) => Ok((actions.push(a), costs.push(c))),
                },
            },
        }
    }
}

/// The first `n` effects prepared in row order.
pub open spec fn spec_effects_upto(t: TablesView, n: nat) -> Result<Seq<Seq<PreparedModifierView>>, ErrorSite>
    decreases n,
{
    if n == 0 {
        Ok(Seq::empty())
    } else {
        match spec_effects_upto(t, (n - 1) as nat) {
            Err(e) => Err(e),
            Ok(modifiers) => match spec_prepare_modifiers(t, t.effects[n - 1]) {
                Err(e) => Err(e),
                Ok(m) => Ok(modifiers.push(m)),
            },
        }
    }
}

/// What preparing the tables gives: every ability in row order, then every effect,
/// stopping at the first failure.
pub open spec fn spec_prepare(t: TablesView) -> Result<PreparedView, ErrorSite> {
    match spec_abilities_upto(t, t.abilities.len()) {
        Err(e) => Err(e),
        Ok((actions, costs)) => match spec_effects_upto(t, t.effects.len()) {
            Err(e) => Err(e),
            Ok(modifiers) => Ok(PreparedView { actions, costs, modifiers }),
        },
    }
}

/// The position of the first `id` in `ids`.
pub open spec fn first_index_of(ids: Seq<i32>, id: i32) -> Option<int>
    decreases ids.len(),
{
    if ids.len() == 0 {
        None
    } else if ids[0] == id {
        Some(0)
    } else {
        match first_index_of(ids.drop_first(), id) {
            Some(k) => Some(k + 1),
            None => None,
        }
    }
}

/// The IDs of the ability rows, in row order.
pub open spec fn ability_ids(t: TablesView) -> Seq<i32> {
    Seq::new(t.abilities.len(), |i: int| t.abilities[i].id)
}

/// The IDs of the effect rows, in row order.
pub open spec fn effect_ids(t: TablesView) -> Seq<i32> {
    Seq::new(t.effects.len(), |i: int| t.effects[i].id)
}

/// The position of the first ability row with ID `id`.
pub open spec fn ability_index(t: TablesView, id: i32) -> Option<int> {
    first_index_of(ability_ids(t), id)
}

/// The position of the first effect row with ID `id`.
pub open spec fn effect_index(t: TablesView, id: i32) -> Option<int> {
    first_index_of(effect_ids(t), id)
}

pub proof fn lemma_first_index_bounds(ids: Seq<i32>, id: i32)
    ensures
        first_index_of(ids, id) matches Some(k) ==> 0 <= k < ids.len() && ids[k] == id,
    decreases ids.len(),
{
    if ids.len() > 0 && ids[0] != id {
        lemma_first_index_bounds(ids.drop_first(), id);
    }
}

fn first_position(Ghost(ids): Ghost<Seq<i32>>, rows_len: usize, get: &Vec<i32>, id: i32) -> (r: Option<usize>)
    requires
        get@ == ids,
        rows_len == ids.len(),
    ensures
        match r {
            Some(i) => first_index_of(ids, id) == Some(i as int),
            None => first_index_of(ids, id) is None,
        },
{
    let n = rows_len;
    let mut i: usize = 0;
    assert(ids.subrange(0, n as int) =~= ids);
    while i < n
        invariant
            n == ids.len(),
            get@ == ids,
            i <= n,
            first_index_of(ids, id) == match first_index_of(ids.subrange(i as int, n as int), id) {
                Some(k) => Some(k + i),
                None => None::<int>,
            },
        decreases n - i,
    {
        assert(ids.subrange(i as int, n as int).drop_first() =~= ids.subrange(i + 1, n as int));
        if get[i] == id {
            return Some(i);
        }
        i = i + 1;
    }
    None
}

/// The prepared actions of the ability with ID `id`; empty when absent.
pub open spec fn actions_of(t: TablesView, p: PreparedView, id: i32) -> Seq<PreparedAction> {
    match ability_index(t, id) {
        Some(i) => p.actions[i],
        None => Seq::empty(),
    }
}

/// The prepared costs of the ability with ID `id`; empty when absent.
pub open spec fn costs_of(t: TablesView, p: PreparedView, id: i32) -> Seq<PreparedCostView> {
    match ability_index(t, id) {
        Some(i) => p.costs[i],
        None => Seq::empty(),
    }
}

/// The prepared modifiers of the effect with ID `id`; empty when absent.
pub open spec fn modifiers_of(t: TablesView, p: PreparedView, id: i32) -> Seq<PreparedModifierView> {
    match effect_index(t, id) {
        Some(i) => p.modifiers[i],
        None => Seq::empty(),
    }
}

// ---------------------------------------------------------------------------
// Kinds of preparation failures

/// A failure of preparation: an unrepresentable value or an unresolved reference,
/// with its message.
pub open spec fn preparation_kind(s: ErrorSite) -> bool {
    &&& s.kind == ConfigErrorKind::InvalidValue || s.kind == ConfigErrorKind::Reference
    &&& s.message is Some
}

proof fn lemma_actions_upto_kind(t: TablesView, ability: AbilityView, n: nat)
    ensures
        spec_actions_upto(t, ability, n) matches Err(s) ==> preparation_kind(s),
    decreases n,
{
    if n > 0 {
        lemma_actions_upto_kind(t, ability, (n - 1) as nat);
    }
}

proof fn lemma_costs_upto_kind(t: TablesView, ability: AbilityView, n: nat)
    ensures
        spec_costs_upto(t, ability, n) matches Err(s) ==> preparation_kind(s),
    decreases n,
{
    if n > 0 {
        lemma_costs_upto_kind(t, ability, (n - 1) as nat);
    }
}

proof fn lemma_modifiers_upto_kind(t: TablesView, effect: EffectView, n: nat)
    ensures
        spec_modifiers_upto(t, effect, n) matches Err(s) ==> preparation_kind(s),
    decreases n,
{
    if n > 0 {
        lemma_modifiers_upto_kind(t, effect, (n - 1) as nat);
    }
}

proof fn lemma_abilities_upto_kind(t: TablesView, n: nat)
    requires
        n <= t.abilities.len(),
    ensures
        spec_abilities_upto(t, n) matches Err(s) ==> preparation_kind(s),
    decreases n,
{
    if n > 0 {
        lemma_abilities_upto_kind(t, (n - 1) as nat);
        let ability = t.abilities[n - 1];
        lemma_actions_upto_kind(t, ability, ability.task_ids.len());
        lemma_costs_upto_kind(t, ability, ability.additional_cost_ids.len());
        reveal(spec_prepare_actions);
        reveal(spec_prepare_costs);
    }
}

proof fn lemma_effects_upto_kind(t: TablesView, n: nat)
    requires
        n <= t.effects.len(),
    ensures
        spec_effects_upto(t, n) matches Err(s) ==> preparation_kind(s),
    decreases n,
{
    if n > 0 {
        lemma_effects_upto_kind(t, (n - 1) as nat);
        let effect = t.effects[n - 1];
        lemma_modifiers_upto_kind(t, effect, effect.modifier_ids.len());
        reveal(spec_prepare_modifiers);
    }
}

/// Preparation fails only with an unrepresentable value or an unresolved reference,
/// and always names its message.
pub proof fn lemma_prepare_failure_kind(t: TablesView)
    ensures
        spec_prepare(t) matches Err(s) ==> preparation_kind(s),
{
    lemma_abilities_upto_kind(t, t.abilities.len());
    lemma_effects_upto_kind(t, t.effects.len());
}

// ---------------------------------------------------------------------------
// Independence from the order of referenced rows

/// The task, cost and modifier tables of `a` and `b` hold the same rows, each
/// table without repeated keys.
pub open spec fn same_child_rows(a: TablesView, b: TablesView) -> bool {
    &&& a.tasks.to_multiset() == b.tasks.to_multiset()
    &&& a.additional_costs.to_multiset() == b.additional_costs.to_multiset()
    &&& a.modifiers.to_multiset() == b.modifiers.to_multiset()
    &&& keys_distinct::<AbilityTask>(a.tasks) && keys_distinct::<AbilityTask>(b.tasks)
    &&& keys_distinct::<AbilityAdditionalCost>(a.additional_costs)
    &&& keys_distinct::<AbilityAdditionalCost>(b.additional_costs)
    &&& keys_distinct::<Modifier>(a.modifiers) && keys_distinct::<Modifier>(b.modifiers)
}

proof fn lemma_actions_upto_permuted(a: TablesView, b: TablesView, ability: AbilityView, n: nat)
    requires
        a.effects == b.effects,
        same_child_rows(a, b),
    ensures
        spec_actions_upto(a, ability, n) == spec_actions_upto(b, ability, n),
    decreases n,
{
    if n > 0 {
        lemma_actions_upto_permuted(a, b, ability, (n - 1) as nat);
        lemma_row_with_key_permuted::<AbilityTask>(a.tasks, b.tasks, RowKey::Id(ability.task_ids[n - 1]));
    }
}

proof fn lemma_costs_upto_permuted(a: TablesView, b: TablesView, ability: AbilityView, n: nat)
    requires
        same_child_rows(a, b),
    ensures
        spec_costs_upto(a, ability, n) == spec_costs_upto(b, ability, n),
    decreases n,
{
    if n > 0 {
        lemma_costs_upto_permuted(a, b, ability, (n - 1) as nat);
        lemma_row_with_key_permuted::<AbilityAdditionalCost>(
            a.additional_costs,
            b.additional_costs,
            RowKey::Id(ability.additional_cost_ids[n - 1]),
        );
    }
}

proof fn lemma_modifiers_upto_permuted(a: TablesView, b: TablesView, effect: EffectView, n: nat)
    requires
        same_child_rows(a, b),
    ensures
        spec_modifiers_upto(a, effect, n) == spec_modifiers_upto(b, effect, n),
    decreases n,
{
    if n > 0 {
        lemma_modifiers_upto_permuted(a, b, effect, (n - 1) as nat);
        lemma_row_with_key_permuted::<Modifier>(a.modifiers, b.modifiers, RowKey::Id(effect.modifier_ids[n - 1]));
    }
}

proof fn lemma_abilities_upto_permuted(a: TablesView, b: TablesView, n: nat)
    requires
        a.abilities == b.abilities,
        a.effects == b.effects,
        same_child_rows(a, b),
        n <= a.abilities.len(),
    ensures
        spec_abilities_upto(a, n) == spec_abilities_upto(b, n),
    decreases n,
{
    if n > 0 {
        lemma_abilities_upto_permuted(a, b, (n - 1) as nat);
        let ability = a.abilities[n - 1];
        lemma_actions_upto_permuted(a, b, ability, ability.task_ids.len());
        lemma_costs_upto_permuted(a, b, ability, ability.additional_cost_ids.len());
        reveal(spec_prepare_actions);
        reveal(spec_prepare_costs);
        assert(spec_prepare_actions(a, ability) == spec_prepare_actions(b, ability));
        assert(spec_prepare_costs(a, ability) == spec_prepare_costs(b, ability));
    }
}

proof fn lemma_effects_upto_permuted(a: TablesView, b: TablesView, n: nat)
    requires
        a.effects == b.effects,
        same_child_rows(a, b),
        n <= a.effects.len(),
    ensures
        spec_effects_upto(a, n) == spec_effects_upto(b, n),
    decreases n,
{
    if n > 0 {
        lemma_effects_upto_permuted(a, b, (n - 1) as nat);
        let effect = a.effects[n - 1];
        lemma_modifiers_upto_permuted(a, b, effect, effect.modifier_ids.len());
        reveal(spec_prepare_modifiers);
    }
}

/// Preparation follows the authored reference lists, not the order of the rows
/// they reference: tables with the same abilities and effects whose task, cost
/// and modifier tables hold the same rows in any order prepare to the same
/// timelines, costs and modifiers, or fail alike.
pub proof fn lemma_prepare_ignores_child_row_order(a: TablesView, b: TablesView)
    requires
        a.abilities == b.abilities,
        a.effects == b.effects,
        same_child_rows(a, b),
    ensures
        spec_prepare(a) == spec_prepare(b),
{
    lemma_abilities_upto_permuted(a, b, a.abilities.len());
    lemma_effects_upto_permuted(a, b, a.effects.len());
}

// ---------------------------------------------------------------------------
// Preparation

proof fn lemma_insert_ordered_at(s: Seq<PreparedAction>, a: PreparedAction, j: int)
    requires
        0 <= j <= s.len(),
        forall|k: int| 0 <= k < j ==> !action_before(a, #[trigger] s[k]),
        j == s.len() || action_before(a, s[j]),
    ensures
        insert_ordered(s, a) == s.insert(j, a),
    decreases s.len(),
{
    if s.len() == 0 {
        assert(insert_ordered(s, a) =~= s.insert(j, a));
    } else if j == 0 {
        assert(insert_ordered(s, a) =~= s.insert(j, a));
    } else {
        let rest = s.drop_first();
        assert forall|k: int| 0 <= k < j - 1 implies !action_before(a, #[trigger] rest[k]) by {
            assert(rest[k] == s[k + 1]);
        }
        if j < s.len() {
            assert(rest[j - 1] == s[j]);
        }
        lemma_insert_ordered_at(rest, a, j - 1);
        assert(insert_ordered(s, a) =~= s.insert(j, a));
    }
}

proof fn insertion_point(s: Seq<PreparedAction>, a: PreparedAction) -> (j: int)
    ensures
        0 <= j <= s.len(),
        forall|k: int| 0 <= k < j ==> !action_before(a, #[trigger] s[k]),
        j == s.len() || action_before(a, s[j]),
    decreases s.len(),
{
    if s.len() == 0 || action_before(a, s[0]) {
        0
    } else {
        let rest = s.drop_first();
        let r = insertion_point(rest, a);
        assert forall|k: int| 0 <= k < r + 1 implies !action_before(a, #[trigger] s[k]) by {
            if k > 0 {
                assert(s[k] == rest[k - 1]);
            }
        }
        if r < rest.len() {
            assert(s[r + 1] == rest[r]);
        }
        r + 1
    }
}

/// The timeline runs in `(tick, order)` order: no action comes before an earlier one.
pub open spec fn timeline_sorted(s: Seq<PreparedAction>) -> bool {
    forall|i: int, j: int| 0 <= i < j < s.len() ==> !action_before(#[trigger] s[j], #[trigger] s[i])
}

/// Ordering a timeline sorts it by tick, then authored position, and keeps every
/// action exactly once.
pub proof fn lemma_order_actions(s: Seq<PreparedAction>)
    ensures
        timeline_sorted(order_actions(s)),
        order_actions(s).to_multiset() == s.to_multiset(),
    decreases s.len(),
{
    broadcast use vstd::seq_lib::group_to_multiset_ensures;
    if s.len() == 0 {
        assert(order_actions(s) =~= Seq::<PreparedAction>::empty());
    } else {
        let rest = s.drop_last();
        let a = s.last();
        lemma_order_actions(rest);
        let o = order_actions(rest);
        let j = insertion_point(o, a);
        lemma_insert_ordered_at(o, a, j);
        let n = o.insert(j, a);
        assert(order_actions(s) == n);
        assert forall|x: int, y: int| 0 <= x < y < n.len() implies !action_before(#[trigger] n[y], #[trigger] n[x]) by {
            if y < j {
                assert(n[x] == o[x] && n[y] == o[y]);
            } else if y == j {
                assert(n[x] == o[x] && n[y] == a);
            } else if x == j {
                assert(n[x] == a && n[y] == o[y - 1]);
                assert(action_before(a, o[j]));
                if y - 1 > j {
                    assert(!action_before(o[y - 1], o[j]));
                }
            } else if x < j {
                assert(n[x] == o[x] && n[y] == o[y - 1]);
            } else {
                assert(n[x] == o[x - 1] && n[y] == o[y - 1]);
            }
        }
        assert(rest.push(a) =~= s);
    }
}

pub proof fn lemma_abilities_rows(t: TablesView, n: nat)
    ensures
        spec_abilities_upto(t, n) matches Ok((a, c)) ==> a.len() == n && c.len() == n
            && forall|i: int| 0 <= i < n ==> spec_prepare_actions(t, t.abilities[i]) == Ok::<Seq<PreparedAction>, ErrorSite>(#[trigger] a[i]),
    decreases n,
{
    if n > 0 {
        lemma_abilities_rows(t, (n - 1) as nat);
    }
}

/// Every prepared timeline runs in `(tick, order)` order.
pub proof fn lemma_prepared_timeline_sorted(t: TablesView, p: PreparedView, id: i32)
    requires
        spec_prepare(t) == Ok::<PreparedView, ErrorSite>(p),
    ensures
        timeline_sorted(actions_of(t, p, id)),
{
    lemma_abilities_rows(t, t.abilities.len());
    lemma_first_index_bounds(ability_ids(t), id);
    match ability_index(t, id) {
        Some(i) => {
            let a = t.abilities[i];
            reveal(spec_prepare_actions);
            match spec_actions_upto(t, a, a.task_ids.len()) {
                Ok(x) => lemma_order_actions(x),
                Err(_) => {},
            }
        },
        None => {},
    }
}

fn insert_action(sorted: &mut Vec<PreparedAction>, a: PreparedAction)
    ensures
        final(sorted)@ == insert_ordered(old(sorted)@, a),
{
    let n = sorted.len();
    let mut j: usize = 0;
    while j < n && !(a.tick < sorted[j].tick || (a.tick == sorted[j].tick && a.order < sorted[j].order))
        invariant
            n == sorted@.len(),
            sorted@ == old(sorted)@,
            j <= n,
            forall|k: int| 0 <= k < j ==> !action_before(a, #[trigger] sorted@[k]),
        decreases n - j,
    {
        j = j + 1;
    }
    proof {
        lemma_insert_ordered_at(sorted@, a, j as int);
    }
    sorted.insert(j, a);
}

fn order_timeline(actions: Vec<PreparedAction>) -> (sorted: Vec<PreparedAction>)
    ensures
        sorted@ == order_actions(actions@),
{
    let mut sorted: Vec<PreparedAction> = Vec::new();
    let n = actions.len();
    let mut i: usize = 0;
    assert(actions@.take(0) =~= Seq::<PreparedAction>::empty());
    while i < n
        invariant
            n == actions@.len(),
            i <= n,
            sorted@ == order_actions(actions@.take(i as int)),
        decreases n - i,
    {
        assert(actions@.take(i + 1).drop_last() =~= actions@.take(i as int));
        insert_action(&mut sorted, actions[i]);
        i = i + 1;
    }
    assert(actions@.take(n as int) =~= actions@);
    sorted
}

fn contains_id(ids: &Vec<i32>, n: usize, id: i32) -> (found: bool)
    requires
        n <= ids@.len(),
    ensures
        found == ids@.take(n as int).contains(id),
{
    let mut j: usize = 0;
    while j < n
        invariant
            n <= ids@.len(),
            j <= n,
            forall|k: int| 0 <= k < j ==> ids@[k] != id,
        decreases n - j,
    {
        if ids[j] == id {
            assert(ids@.take(n as int)[j as int] == id);
            return true;
        }
        j = j + 1;
    }
    proof {
        if ids@.take(n as int).contains(id) {
            let k = choose|k: int| 0 <= k < n && ids@.take(n as int)[k] == id;
            assert(ids@[k] == id);
        }
    }
    false
}

proof fn lemma_actions_error_persists(t: TablesView, a: AbilityView, i: nat, n: nat)
    requires
        i <= n,
        spec_actions_upto(t, a, i) is Err,
    ensures
        spec_actions_upto(t, a, n) == spec_actions_upto(t, a, i),
    decreases n - i,
{
    if i < n {
        lemma_actions_error_persists(t, a, i, (n - 1) as nat);
    }
}

proof fn lemma_costs_error_persists(t: TablesView, a: AbilityView, i: nat, n: nat)
    requires
        i <= n,
        spec_costs_upto(t, a, i) is Err,
    ensures
        spec_costs_upto(t, a, n) == spec_costs_upto(t, a, i),
    decreases n - i,
{
    if i < n {
        lemma_costs_error_persists(t, a, i, (n - 1) as nat);
    }
}

proof fn lemma_modifiers_error_persists(t: TablesView, e: EffectView, i: nat, n: nat)
    requires
        i <= n,
        spec_modifiers_upto(t, e, i) is Err,
    ensures
        spec_modifiers_upto(t, e, n) == spec_modifiers_upto(t, e, i),
    decreases n - i,
{
    if i < n {
        lemma_modifiers_error_persists(t, e, i, (n - 1) as nat);
    }
}

fn prepare_action(tables: &Tables, row: &AbilityTask, order: usize) -> (res: Result<PreparedAction, ConfigError>)
    ensures
        match spec_prepare_action(tables.deep_view(), row.deep_view(), order as int) {
            Ok(a) => res == Ok::<PreparedAction, ConfigError>(a),
            Err(s) => res matches Err(e) && reports(e@, s),
        },
{
    if row.at_tick < 0 {
        return Err(row_field_error("AbilityTask", row.id, "at_tick", ConfigErrorKind::InvalidValue, "out of range integral type conversion attempted"));
    }
    let tick = row.at_tick as u32;
    match row.kind {
        ActionKind::EndAbility => Ok(PreparedAction { tick, order, kind: PreparedActionKind::EndAbility }),
        ActionKind::ApplyEffect => {
            let effect_id = match row.effect_id {
                Some(id) => {
                    if tables.tb_effect.get(id).is_some() {
                        id
                    } else {
                        return Err(row_field_error("AbilityTask", row.id, "effect_id", ConfigErrorKind::Reference, "ApplyEffect requires a known effect"));
                    }
                },
                None => {
                    return Err(row_field_error("AbilityTask", row.id, "effect_id", ConfigErrorKind::Reference, "ApplyEffect requires a known effect"));
                },
            };
            let scope = match row.target_scope {
                TargetScope::Primary => PreparedTargetScope::Primary,
                TargetScope::AllCaptured => PreparedTargetScope::AllCaptured,
                TargetScope::NoTarget => {
                    return Err(row_field_error("AbilityTask", row.id, "target_scope", ConfigErrorKind::InvalidValue, "ApplyEffect needs a target scope"));
                },
            };
            Ok(PreparedAction { tick, order, kind: PreparedActionKind::ApplyEffect { effect_id, scope } })
        },
    }
}

fn duplicate_reference(table: &'static str, id: i32, field: &str, child: i32) -> (e: ConfigError)
    ensures
        e@.kind == ConfigErrorKind::InvalidValue,
        e@.location == field_at(table@, decimal(id as int), field@),
        e@.message == "duplicate referenced ID "@ + decimal(child as int),
{
    let mut message = owned("duplicate referenced ID ");
    push_signed(&mut message, child as i64);
    ConfigError::with_message(ConfigErrorKind::InvalidValue, crate::config::error::row_field_location(table, id, field), message)
}

fn unknown_reference(table: &'static str, id: i32, field: &str, child: i32) -> (e: ConfigError)
    ensures
        e@.kind == ConfigErrorKind::Reference,
        e@.location == field_at(table@, decimal(id as int), field@),
        e@.message == "unknown referenced ID "@ + decimal(child as int),
{
    let mut message = owned("unknown referenced ID ");
    push_signed(&mut message, child as i64);
    ConfigError::with_message(ConfigErrorKind::Reference, crate::config::error::row_field_location(table, id, field), message)
}

/// Resolves the timeline of `ability` and orders it by tick, then authored position.
pub fn prepare_actions(tables: &Tables, ability: &Ability) -> (res: Result<Vec<PreparedAction>, ConfigError>)
    ensures
        match spec_prepare_actions(tables.deep_view(), ability.deep_view()) {
            Ok(a) => res matches Ok(v) && v@ == a,
            Err(s) => res matches Err(e) && reports(e@, s),
        },
{
    reveal(spec_prepare_actions);
    let ghost t = tables.deep_view();
    let ghost av = ability.deep_view();
    assert(av.task_ids =~= ability.task_ids@);
    let n = ability.task_ids.len();
    let mut actions: Vec<PreparedAction> = Vec::new();
    let mut i: usize = 0;
    while i < n
        invariant
            n == ability.task_ids@.len(),
            av.task_ids == ability.task_ids@,
            av == ability.deep_view(),
            t == tables.deep_view(),
            i <= n,
            spec_actions_upto(t, av, i as nat) == Ok::<Seq<PreparedAction>, ErrorSite>(actions@),
        decreases n - i,
    {
        let id = ability.task_ids[i];
        if contains_id(&ability.task_ids, i, id) {
            proof {
                reveal(spec_prepare_actions);
                    lemma_actions_error_persists(t, av, (i + 1) as nat, n as nat);
            }
            return Err(duplicate_reference("Ability", ability.id, "task_ids", id));
        }
        let row = match tables.tb_ability_task.get(id) {
            Some(row) => row,
            None => {
                proof {
                    reveal(spec_prepare_actions);
                    lemma_actions_error_persists(t, av, (i + 1) as nat, n as nat);
                }
                return Err(unknown_reference("Ability", ability.id, "task_ids", id));
            },
        };
        let action = match prepare_action(tables, row, i) {
            Ok(action) => action,
            Err(e) => {
                proof {
                    reveal(spec_prepare_actions);
                    lemma_actions_error_persists(t, av, (i + 1) as nat, n as nat);
                }
                return Err(e);
            },
        };
        actions.push(action);
        i = i + 1;
    }
    Ok(order_timeline(actions))
}

proof fn lemma_resource_total_nonnegative(costs: Seq<PreparedCostView>, resource: Seq<char>)
    ensures
        resource_total(costs, resource) >= 0,
    decreases costs.len(),
{
    if costs.len() > 0 {
        lemma_resource_total_nonnegative(costs.drop_last(), resource);
    }
}

proof fn lemma_resource_total_prefix(costs: Seq<PreparedCostView>, resource: Seq<char>, k: int)
    requires
        0 <= k <= costs.len(),
    ensures
        resource_total(costs.take(k), resource) <= resource_total(costs, resource),
    decreases costs.len() - k,
{
    if k < costs.len() {
        lemma_resource_total_prefix(costs.drop_last(), resource, k);
        assert(costs.drop_last().take(k) =~= costs.take(k));
    } else {
        assert(costs.take(k) =~= costs);
    }
}

fn total_for(costs: &Vec<PreparedAdditionalCost>, resource: &String) -> (total: u64)
    requires
        forall|r: Seq<char>| resource_total(costs.deep_view(), r) <= u32::MAX,
    ensures
        total == resource_total(costs.deep_view(), resource@),
{
    let n = costs.len();
    let mut total: u64 = 0;
    let mut k: usize = 0;
    let ghost all = costs.deep_view();
    assert(all.take(0) =~= Seq::<PreparedCostView>::empty());
    while k < n
        invariant
            n == costs@.len(),
            all == costs.deep_view(),
            k <= n,
            forall|r: Seq<char>| resource_total(all, r) <= u32::MAX,
            total == resource_total(all.take(k as int), resource@),
        decreases n - k,
    {
        proof {
            assert(all.take(k + 1).drop_last() =~= all.take(k as int));
            lemma_resource_total_prefix(all, resource@, k + 1);
            assert(all[k as int] == costs@[k as int].deep_view());
        }
        if costs[k].resource == *resource {
            total = total + costs[k].amount as u64;
        }
        k = k + 1;
    }
    assert(all.take(n as int) =~= all);
    total
}

fn prepare_cost(row: &AbilityAdditionalCost, before: &Vec<PreparedAdditionalCost>) -> (res: Result<PreparedAdditionalCost, ConfigError>)
    requires
        forall|r: Seq<char>| resource_total(before.deep_view(), r) <= u32::MAX,
    ensures
        match spec_prepare_cost(row.deep_view(), before.deep_view()) {
            Ok(c) => res matches Ok(v) && v.deep_view() == c,
            Err(s) => res matches Err(e) && reports(e@, s),
        },
{
    if is_blank(row.resource.as_str()) {
        return Err(row_field_error("AbilityAdditionalCost", row.id, "resource", ConfigErrorKind::InvalidValue, "resource must not be blank"));
    }
    if row.amount < 1 || row.amount > 0xffff_ffff {
        return Err(row_field_error("AbilityAdditionalCost", row.id, "amount", ConfigErrorKind::InvalidValue, "amount must be in 1..=4294967295"));
    }
    let amount = row.amount as u32;
    let total = total_for(before, &row.resource);
    if total + amount as u64 > 0xffff_ffff {
        return Err(row_field_error("AbilityAdditionalCost", row.id, "amount", ConfigErrorKind::InvalidValue, "total amount for this ability and resource exceeds u32 capacity"));
    }
    Ok(PreparedAdditionalCost { id: row.id, resource: row.resource.clone(), amount })
}

/// Resolves the external costs of `ability` in authored order.
pub fn prepare_additional_costs(tables: &Tables, ability: &Ability) -> (res: Result<Vec<PreparedAdditionalCost>, ConfigError>)
    ensures
        match spec_prepare_costs(tables.deep_view(), ability.deep_view()) {
            Ok(c) => res matches Ok(v) && v.deep_view() == c,
            Err(s) => res matches Err(e) && reports(e@, s),
        },
{
    reveal(spec_prepare_costs);
    let ghost t = tables.deep_view();
    let ghost av = ability.deep_view();
    assert(av.additional_cost_ids =~= ability.additional_cost_ids@);
    let n = ability.additional_cost_ids.len();
    let mut costs: Vec<PreparedAdditionalCost> = Vec::new();
    let mut i: usize = 0;
    assert(costs.deep_view() =~= Seq::<PreparedCostView>::empty());
    while i < n
        invariant
            n == ability.additional_cost_ids@.len(),
            av.additional_cost_ids == ability.additional_cost_ids@,
            av == ability.deep_view(),
            t == tables.deep_view(),
            i <= n,
            spec_costs_upto(t, av, i as nat) == Ok::<Seq<PreparedCostView>, ErrorSite>(costs.deep_view()),
            forall|r: Seq<char>| resource_total(costs.deep_view(), r) <= u32::MAX,
        decreases n - i,
    {
        let id = ability.additional_cost_ids[i];
        if contains_id(&ability.additional_cost_ids, i, id) {
            proof {
                reveal(spec_prepare_costs);
                    lemma_costs_error_persists(t, av, (i + 1) as nat, n as nat);
            }
            return Err(duplicate_reference("Ability", ability.id, "additional_cost_ids", id));
        }
        let row = match tables.tb_ability_additional_cost.get(id) {
            Some(row) => row,
            None => {
                proof {
                    reveal(spec_prepare_costs);
                    lemma_costs_error_persists(t, av, (i + 1) as nat, n as nat);
                }
                return Err(unknown_reference("Ability", ability.id, "additional_cost_ids", id));
            },
        };
        let cost = match prepare_cost(row, &costs) {
            Ok(cost) => cost,
            Err(e) => {
                proof {
                    reveal(spec_prepare_costs);
                    lemma_costs_error_persists(t, av, (i + 1) as nat, n as nat);
                }
                return Err(e);
            },
        };
        let ghost before = costs.deep_view();
        let ghost added = cost.deep_view();
        proof {
            assert(spec_prepare_cost(row.deep_view(), before) == Ok::<PreparedCostView, ErrorSite>(added));
        }
        costs.push(cost);
        proof {
            assert(costs.deep_view() =~= before.push(added));
            assert forall|r: Seq<char>| resource_total(costs.deep_view(), r) <= u32::MAX by {
                assert(costs.deep_view().drop_last() =~= before);
                assert(costs.deep_view().last() == added);
                assert(resource_total(costs.deep_view(), r) == resource_total(before, r) + if added.resource == r { added.amount as int } else { 0 });
            }
        }
        i = i + 1;
    }
    Ok(costs)
}

fn prepare_modifier(row: &Modifier) -> (res: Result<PreparedModifier, ConfigError>)
    ensures
        match spec_prepare_modifier(row.deep_view()) {
            Ok(m) => res matches Ok(v) && v.deep_view() == m,
            Err(s) => res matches Err(e) && reports(e@, s),
        },
{
    let slope = if row.magnitude_kind == MagnitudeKind::LinearLevel {
        Some(row.per_level.0)
    } else {
        None
    };
    if !formula_parameters_are_finite(row.base.0, slope) {
        return Err(row_field_error("Modifier", row.id, "magnitude", ConfigErrorKind::InvalidValue, "used formula parameters must be finite"));
    }
    let magnitude = match row.magnitude_kind {
        MagnitudeKind::Flat => PreparedMagnitude::Flat(row.base.0),
        MagnitudeKind::LinearLevel => PreparedMagnitude::LinearLevel { base: row.base.0, per_level: row.per_level.0 },
    };
    Ok(PreparedModifier {
        id: row.id,
        attribute: row.attribute.clone(),
        operation: row.operation,
        magnitude_kind: row.magnitude_kind,
        base: row.base.0,
        per_level: row.per_level.0,
        magnitude,
    })
}

/// Resolves the modifiers of `effect` in authored order.
pub fn prepare_modifiers(tables: &Tables, effect: &Effect) -> (res: Result<Vec<PreparedModifier>, ConfigError>)
    ensures
        match spec_prepare_modifiers(tables.deep_view(), effect.deep_view()) {
            Ok(m) => res matches Ok(v) && v.deep_view() == m,
            Err(s) => res matches Err(e) && reports(e@, s),
        },
{
    reveal(spec_prepare_modifiers);
    let ghost t = tables.deep_view();
    let ghost ev = effect.deep_view();
    assert(ev.modifier_ids =~= effect.modifier_ids@);
    let n = effect.modifier_ids.len();
    let mut modifiers: Vec<PreparedModifier> = Vec::new();
    let mut i: usize = 0;
    assert(modifiers.deep_view() =~= Seq::<PreparedModifierView>::empty());
    while i < n
        invariant
            n == effect.modifier_ids@.len(),
            ev.modifier_ids == effect.modifier_ids@,
            ev == effect.deep_view(),
            t == tables.deep_view(),
            i <= n,
            spec_modifiers_upto(t, ev, i as nat) == Ok::<Seq<PreparedModifierView>, ErrorSite>(modifiers.deep_view()),
        decreases n - i,
    {
        let id = effect.modifier_ids[i];
        if contains_id(&effect.modifier_ids, i, id) {
            proof {
                reveal(spec_prepare_modifiers);
                    lemma_modifiers_error_persists(t, ev, (i + 1) as nat, n as nat);
            }
            return Err(duplicate_reference("Effect", effect.id, "modifier_ids", id));
        }
        let row = match tables.tb_modifier.get(id) {
            Some(row) => row,
            None => {
                proof {
                    reveal(spec_prepare_modifiers);
                    lemma_modifiers_error_persists(t, ev, (i + 1) as nat, n as nat);
                }
                return Err(unknown_reference("Effect", effect.id, "modifier_ids", id));
            },
        };
        let modifier = match prepare_modifier(row) {
            Ok(modifier) => modifier,
            Err(e) => {
                proof {
                    reveal(spec_prepare_modifiers);
                    lemma_modifiers_error_persists(t, ev, (i + 1) as nat, n as nat);
                }
                return Err(e);
            },
        };
        let ghost before = modifiers.deep_view();
        let ghost added = modifier.deep_view();
        modifiers.push(modifier);
        assert(modifiers.deep_view() =~= before.push(added));
        i = i + 1;
    }
    Ok(modifiers)
}

/// A short-lived view retaining the generated rows and their resolved relations.
pub struct PreparedTables<'a> {
    tables: &'a Tables,
    actions: Vec<Vec<PreparedAction>>,
    costs: Vec<Vec<PreparedAdditionalCost>>,
    modifiers: Vec<Vec<PreparedModifier>>,
}

impl<'a> View for PreparedTables<'a> {
    type V = PreparedView;

    closed spec fn view(&self) -> PreparedView {
        PreparedView {
            actions: self.actions.deep_view(),
            costs: self.costs.deep_view(),
            modifiers: self.modifiers.deep_view(),
        }
    }
}

fn ability_position(tables: &Tables, id: i32) -> (r: Option<usize>)
    ensures
        match r {
            Some(i) => ability_index(tables.deep_view(), id) == Some(i as int),
            None => ability_index(tables.deep_view(), id) is None,
        },
{
    let rows = tables.tb_ability.rows();
    let ghost t = tables.deep_view();
    let n = rows.len();
    let mut ids: Vec<i32> = Vec::new();
    let mut i: usize = 0;
    while i < n
        invariant
            n == rows@.len(),
            rows.deep_view() == t.abilities,
            t == tables.deep_view(),
            i <= n,
            ids@ == ability_ids(t).take(i as int),
        decreases n - i,
    {
        assert(t.abilities[i as int] == rows@[i as int].deep_view());
        ids.push(rows[i].id);
        assert(ids@ =~= ability_ids(t).take(i + 1));
        i = i + 1;
    }
    assert(ability_ids(t).take(n as int) =~= ability_ids(t));
    first_position(Ghost(ability_ids(t)), n, &ids, id)
}

fn effect_position(tables: &Tables, id: i32) -> (r: Option<usize>)
    ensures
        match r {
            Some(i) => effect_index(tables.deep_view(), id) == Some(i as int),
            None => effect_index(tables.deep_view(), id) is None,
        },
{
    let rows = tables.tb_effect.rows();
    let ghost t = tables.deep_view();
    let n = rows.len();
    let mut ids: Vec<i32> = Vec::new();
    let mut i: usize = 0;
    while i < n
        invariant
            n == rows@.len(),
            rows.deep_view() == t.effects,
            t == tables.deep_view(),
            i <= n,
            ids@ == effect_ids(t).take(i as int),
        decreases n - i,
    {
        assert(t.effects[i as int] == rows@[i as int].deep_view());
        ids.push(rows[i].id);
        assert(ids@ =~= effect_ids(t).take(i + 1));
        i = i + 1;
    }
    assert(effect_ids(t).take(n as int) =~= effect_ids(t));
    first_position(Ghost(effect_ids(t)), n, &ids, id)
}

proof fn lemma_abilities_error_persists(t: TablesView, i: nat, n: nat)
    requires
        i <= n,
        spec_abilities_upto(t, i) is Err,
    ensures
        spec_abilities_upto(t, n) == spec_abilities_upto(t, i),
    decreases n - i,
{
    if i < n {
        lemma_abilities_error_persists(t, i, (n - 1) as nat);
    }
}

proof fn lemma_effects_error_persists(t: TablesView, i: nat, n: nat)
    requires
        i <= n,
        spec_effects_upto(t, i) is Err,
    ensures
        spec_effects_upto(t, n) == spec_effects_upto(t, i),
    decreases n - i,
{
    if i < n {
        lemma_effects_error_persists(t, i, (n - 1) as nat);
    }
}

fn push_ability(
    tables: &Tables,
    ability: &Ability,
    actions: &mut Vec<Vec<PreparedAction>>,
    costs: &mut Vec<Vec<PreparedAdditionalCost>>,
) -> (res: Result<(), ConfigError>)
    ensures
        match spec_prepare_actions(tables.deep_view(), ability.deep_view()) {
            Err(s) => res matches Err(e) && reports(e@, s),
            Ok(a) => match spec_prepare_costs(tables.deep_view(), ability.deep_view()) {
                Err(s) => res matches Err(e) && reports(e@, s),
                Ok(c) => res is Ok && final(actions).deep_view() == old(actions).deep_view().push(a)
                    && final(costs).deep_view() == old(costs).deep_view().push(c),
            },
        },
{
    let a = prepare_actions(tables, ability)?;
    let c = prepare_additional_costs(tables, ability)?;
    let ghost old_actions = actions.deep_view();
    let ghost old_costs = costs.deep_view();
    let ghost a_view = a@;
    let ghost c_view = c.deep_view();
    assert(a.deep_view() =~= a@);
    actions.push(a);
    costs.push(c);
    assert(actions.deep_view() =~= old_actions.push(a_view));
    assert(costs.deep_view() =~= old_costs.push(c_view));
    Ok(())
}

impl<'a> PreparedTables<'a> {
    /// Every instance was prepared from its tables.
    #[verifier::type_invariant]
    pub closed spec fn well_prepared(self) -> bool {
        spec_prepare(self.tables.deep_view()) == Ok::<PreparedView, ErrorSite>(self@)
    }

    /// The tables these preparations were made from.
    pub closed spec fn source(self) -> TablesView {
        self.tables.deep_view()
    }

    /// Preparing the source tables gives exactly this instance.
    pub proof fn lemma_well_prepared(self)
        requires
            self.well_prepared(),
        ensures
            spec_prepare(self.source()) == Ok::<PreparedView, ErrorSite>(self@),
    {
    }

    /// Resolves every ability's timeline and external costs in row order, then
    /// every effect's modifiers, stopping at the first invalid reference or value.
    pub fn new(tables: &'a Tables) -> (res: Result<Self, ConfigError>)
        ensures
            match spec_prepare(tables.deep_view()) {
                Ok(v) => res matches Ok(p) && p@ == v && p.source() == tables.deep_view(),
                Err(s) => res matches Err(e) && reports(e@, s),
            },
    {
        let ghost t = tables.deep_view();
        let abilities = tables.tb_ability.rows();
        let n = abilities.len();
        let mut actions: Vec<Vec<PreparedAction>> = Vec::new();
        let mut costs: Vec<Vec<PreparedAdditionalCost>> = Vec::new();
        let mut i: usize = 0;
        assert(actions.deep_view() =~= Seq::<Seq<PreparedAction>>::empty());
        assert(costs.deep_view() =~= Seq::<Seq<PreparedCostView>>::empty());
        while i < n
            invariant
                n == abilities@.len(),
                abilities.deep_view() == t.abilities,
                t == tables.deep_view(),
                i <= n,
                spec_abilities_upto(t, i as nat) == Ok::<(Seq<Seq<PreparedAction>>, Seq<Seq<PreparedCostView>>), ErrorSite>((actions.deep_view(), costs.deep_view())),
            decreases n - i,
        {
            assert(t.abilities[i as int] == abilities@[i as int].deep_view());
            if let Err(e) = push_ability(tables, &abilities[i], &mut actions, &mut costs) {
                proof {
                    lemma_abilities_error_persists(t, (i + 1) as nat, n as nat);
                }
                return Err(e);
            }
            i = i + 1;
        }
        let effects = tables.tb_effect.rows();
        let m = effects.len();
        let mut modifiers: Vec<Vec<PreparedModifier>> = Vec::new();
        let mut k: usize = 0;
        assert(modifiers.deep_view() =~= Seq::<Seq<PreparedModifierView>>::empty());
        while k < m
            invariant
                m == effects@.len(),
                effects.deep_view() == t.effects,
                t == tables.deep_view(),
                k <= m,
                spec_abilities_upto(t, t.abilities.len()) == Ok::<(Seq<Seq<PreparedAction>>, Seq<Seq<PreparedCostView>>), ErrorSite>((actions.deep_view(), costs.deep_view())),
                spec_effects_upto(t, k as nat) == Ok::<Seq<Seq<PreparedModifierView>>, ErrorSite>(modifiers.deep_view()),
            decreases m - k,
        {
            assert(t.effects[k as int] == effects@[k as int].deep_view());
            let list = match prepare_modifiers(tables, &effects[k]) {
                Ok(list) => list,
                Err(e) => {
                    proof {
                        lemma_effects_error_persists(t, (k + 1) as nat, m as nat);
                    }
                    return Err(e);
                },
            };
            let ghost old_modifiers = modifiers.deep_view();
            let ghost list_view = list.deep_view();
            modifiers.push(list);
            assert(modifiers.deep_view() =~= old_modifiers.push(list_view));
            k = k + 1;
        }
        Ok(PreparedTables { tables, actions, costs, modifiers })
    }

    /// The tables these preparations were made from.
    pub fn tables(&self) -> (t: &'a Tables)
        ensures
            t.deep_view() == self.source(),
    {
        self.tables
    }

    /// The ordered timeline of ability `ability_id`; empty when the ability is absent.
    pub fn actions(&self, ability_id: i32) -> (a: &[PreparedAction])
        ensures
            a@ == actions_of(self.source(), self@, ability_id),
    {
        proof {
            use_type_invariant(self);
        }
        match ability_position(self.tables, ability_id) {
            Some(i) => {
                proof {
                    self.lemma_parallel_lengths();
                    lemma_first_index_bounds(ability_ids(self.source()), ability_id);
                    assert(self.actions@[i as int].deep_view() =~= self.actions@[i as int]@);
                }
                self.actions[i].as_slice()
            },
            None => {
                let empty: &[PreparedAction] = &[];
                assert(empty@ =~= Seq::<PreparedAction>::empty());
                empty
            },
        }
    }

    /// The external costs of ability `ability_id` in authored order; empty when absent.
    pub fn additional_costs(&self, ability_id: i32) -> (c: &[PreparedAdditionalCost])
        ensures
            c.deep_view() == costs_of(self.source(), self@, ability_id),
    {
        proof {
            use_type_invariant(self);
        }
        match ability_position(self.tables, ability_id) {
            Some(i) => {
                proof {
                    self.lemma_parallel_lengths();
                    lemma_first_index_bounds(ability_ids(self.source()), ability_id);
                }
                let c = self.costs[i].as_slice();
                assert(c.deep_view() =~= self.costs@[i as int].deep_view());
                c
            },
            None => {
                let empty: &[PreparedAdditionalCost] = &[];
                assert(empty.deep_view() =~= Seq::<PreparedCostView>::empty());
                empty
            },
        }
    }

    /// The modifiers of effect `effect_id` in authored order; empty when absent.
    pub fn modifiers(&self, effect_id: i32) -> (m: &[PreparedModifier])
        ensures
            m.deep_view() == modifiers_of(self.source(), self@, effect_id),
    {
        proof {
            use_type_invariant(self);
        }
        match effect_position(self.tables, effect_id) {
            Some(i) => {
                proof {
                    self.lemma_parallel_lengths();
                    lemma_first_index_bounds(effect_ids(self.source()), effect_id);
                }
                let m = self.modifiers[i].as_slice();
                assert(m.deep_view() =~= self.modifiers@[i as int].deep_view());
                m
            },
            None => {
                let empty: &[PreparedModifier] = &[];
                assert(empty.deep_view() =~= Seq::<PreparedModifierView>::empty());
                empty
            },
        }
    }

    proof fn lemma_parallel_lengths(&self)
        requires
            self.well_prepared(),
        ensures
            self.actions@.len() == self.source().abilities.len(),
            self.costs@.len() == self.source().abilities.len(),
            self.modifiers@.len() == self.source().effects.len(),
    {
        lemma_abilities_lengths(self.source(), self.source().abilities.len());
        lemma_effects_lengths(self.source(), self.source().effects.len());
    }
}

proof fn lemma_abilities_lengths(t: TablesView, n: nat)
    ensures
        spec_abilities_upto(t, n) matches Ok((a, c)) ==> a.len() == n && c.len() == n,
    decreases n,
{
    if n > 0 {
        lemma_abilities_lengths(t, (n - 1) as nat);
    }
}

proof fn lemma_effects_lengths(t: TablesView, n: nat)
    ensures
        spec_effects_upto(t, n) matches Ok(m) ==> m.len() == n,
    decreases n,
{
    if n > 0 {
        lemma_effects_lengths(t, (n - 1) as nat);
    }
}

} // verus!
