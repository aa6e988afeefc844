//! Authoring validation: references, names, timing, formulas, timeline ordering
//! and runtime registry capacities, checked before compilation.

use super::magnitude::{
    flat_range, linear_range, linear_scaled, scaled_value, scaled_within_f32_range,
};
use super::preparation::{
    PreparedAction, PreparedActionKind, PreparedMagnitude, PreparedModifier,
    PreparedModifierView, PreparedTables, PreparedView, ability_ids, actions_of, effect_ids,
    has_effect, lemma_prepare_failure_kind, modifiers_of, same_child_rows, spec_prepare,
};
use crate::config::error::{
    ConfigError, ConfigErrorKind, ConfigLocation, ErrorSite, LocationView, field_at, reports,
    row_at, site_with, row_field_location, row_location, table_at, with_field,
};
use crate::config::generated::{
    AbilityAdditionalCost, AbilityAdditionalCostView, AbilityTask, AbilityTaskView, AbilityView,
    ActionKind, AttributeRegion, Modifier, DurationKind, EffectView, MagnitudeKind,
    ModifierOperation, ModifierView, Ability, RowKey, SelectionKind, SortOrder, Tag, Attribute,
    Effect, TableRow, Targeting, Tables, TablesView, TargetScope, TargetingView, keys_distinct, row_with_key,
};
use crate::config::numeric::{
    at_least_zero, is_finite, is_negative, is_one, is_zero, probability_is_valid,
    spec_at_least_zero, spec_is_finite, spec_is_negative, spec_is_one, spec_is_zero,
    spec_parameters_are_finite, spec_probability_is_valid, spec_square_is_finite,
    spec_within_half_turn, square_is_finite, within_half_turn, formula_parameters_are_finite,
};
use crate::config::text::{
    chars_of, decimal, push_signed, push_str, is_blank, last_dot, last_dot_before, name_chain, spec_is_blank, owned,
    spec_tag_implies, spec_valid_name, tag_implies, text_eq, text_from, valid_name,
};
use vstd::prelude::*;

verus! {

/// Runtime registry capacities that authored tables must fit.
#[derive(Debug, Clone, Copy, PartialEq, Eq, Structural)]
pub struct GasCapacity {
    /// Maximum number of gameplay tags, implicit parent tags included.
    pub max_tags: usize,
    /// Number of attribute slots in the hot region.
    pub hot_attributes: usize,
    /// Number of attribute slots in the cold region.
    pub cold_attributes: usize,
}

/// Largest supported tick count of durations, periods and timeline actions.
pub const MAX_CONFIG_TICKS: i32 = 1_000_000;

/// Largest supported ability level.
pub const MAX_CONFIG_LEVEL: i32 = 100;

// ---------------------------------------------------------------------------
// Specification: tag references

/// A tag row named `name` is declared.
pub open spec fn tag_declared(t: TablesView, name: Seq<char>) -> bool {
    row_with_key::<Tag>(t.tags, RowKey::Name(name)) is Some
}

/// Every referenced tag is declared and referenced once.
pub open spec fn tag_refs_valid(t: TablesView, tags: Seq<Seq<char>>) -> bool {
    forall|i: int| 0 <= i < tags.len() ==> tag_declared(t, #[trigger] tags[i]) && !tags.take(i).contains(tags[i])
}

/// The failure of reference `i` of `tags`: an undeclared tag, or a tag listed
/// before.
pub open spec fn tag_ref_check(t: TablesView, tags: Seq<Seq<char>>) -> spec_fn(int) -> Option<Seq<char>> {
    |i: int| if !tag_declared(t, tags[i]) {
        Some("unknown tag '"@ + tags[i] + "'; referenced parent tags must also be declared"@)
    } else if tags.take(i).contains(tags[i]) {
        Some("duplicate tag '"@ + tags[i] + "'"@)
    } else {
        None
    }
}

/// The message of the first failing tag reference of `tags`.
pub open spec fn tag_refs_message(t: TablesView, tags: Seq<Seq<char>>) -> Seq<char> {
    match first_failure(tag_ref_check(t, tags), tags.len()) {
        Some(m) => m,
        None => Seq::empty(),
    }
}

/// The failure of tag references `tags` checked at `at`.
pub open spec fn tag_refs_failure(t: TablesView, tags: Seq<Seq<char>>, at: LocationView) -> ErrorSite {
    site_with(ConfigErrorKind::Validation, at, tag_refs_message(t, tags))
}

/// The message of a required tag that implies a blocked tag.
pub open spec fn conflict_text(required: Seq<char>, blocked: Seq<char>) -> Seq<char> {
    "required tag '"@ + required + "' implies blocked tag '"@ + blocked + "'"@
}

/// The conflict of `required` with blocked tag `j`.
pub open spec fn blocked_check(required: Seq<char>, blocked: Seq<Seq<char>>) -> spec_fn(int) -> Option<Seq<char>> {
    |j: int| if spec_tag_implies(required, blocked[j]) { Some(conflict_text(required, blocked[j])) } else { None }
}

/// The first conflict of required tag `i` with any blocked tag.
pub open spec fn required_check(required: Seq<Seq<char>>, blocked: Seq<Seq<char>>) -> spec_fn(int) -> Option<Seq<char>> {
    |i: int| first_failure(blocked_check(required[i], blocked), blocked.len())
}

/// The message of the first conflicting pair, required tags outermost.
pub open spec fn conflict_message(required: Seq<Seq<char>>, blocked: Seq<Seq<char>>) -> Seq<char> {
    match first_failure(required_check(required, blocked), required.len()) {
        Some(m) => m,
        None => Seq::empty(),
    }
}

/// Some required tag is a blocked tag or one of its descendants.
pub open spec fn requirements_conflict(required: Seq<Seq<char>>, blocked: Seq<Seq<char>>) -> bool {
    exists|i: int, j: int| 0 <= i < required.len() && 0 <= j < blocked.len() && spec_tag_implies(#[trigger] required[i], #[trigger] blocked[j])
}

/// The failure of a required/blocked tag pair checked at `context`.
pub open spec fn tag_requirements_failure(t: TablesView, required: Seq<Seq<char>>, blocked: Seq<Seq<char>>, context: LocationView) -> Option<ErrorSite> {
    if !tag_refs_valid(t, required) {
        Some(tag_refs_failure(t, required, with_field(context, "required_tags"@)))
    } else if !tag_refs_valid(t, blocked) {
        Some(tag_refs_failure(t, blocked, with_field(context, "blocked_tags"@)))
    } else if requirements_conflict(required, blocked) {
        Some(site_with(ConfigErrorKind::Validation, context, conflict_message(required, blocked)))
    } else {
        None
    }
}

// ---------------------------------------------------------------------------
// Specification: names and capacities

/// The tag names of the first `n` tag rows.
pub open spec fn tag_names(t: TablesView, n: int) -> Seq<Seq<char>> {
    Seq::new(n as nat, |i: int| t.tags[i].name)
}

/// The attribute names of the first `n` attribute rows.
pub open spec fn attribute_names(t: TablesView, n: int) -> Seq<Seq<char>> {
    Seq::new(n as nat, |i: int| t.attributes[i].name)
}

/// The first failure among the checks numbered `0..n`, taken in order.
pub open spec fn first_failure<A>(check: spec_fn(int) -> Option<A>, n: nat) -> Option<A>
    decreases n,
{
    if n == 0 {
        None
    } else {
        match first_failure(check, (n - 1) as nat) {
            Some(l) => Some(l),
            None => check(n - 1),
        }
    }
}

/// Tag row `i` has an invalid name or repeats an earlier one.
pub open spec fn tag_name_check(t: TablesView) -> spec_fn(int) -> Option<ErrorSite> {
    |i: int| {
        let name = t.tags[i].name;
        if !spec_valid_name(name) || tag_names(t, i).contains(name) {
            Some(site_with(ConfigErrorKind::Validation, field_at("Tag"@, name, "name"@), "use nonempty dot-separated ASCII name segments without duplicates"@))
        } else {
            None
        }
    }
}

/// Attribute row `i` has an invalid name or repeats an earlier one.
pub open spec fn attribute_name_check(t: TablesView) -> spec_fn(int) -> Option<ErrorSite> {
    |i: int| {
        let name = t.attributes[i].name;
        if !spec_valid_name(name) || attribute_names(t, i).contains(name) {
            Some(site_with(ConfigErrorKind::Validation, field_at("Attribute"@, name, "name"@), "use a nonempty stable ASCII name without duplicates"@))
        } else {
            None
        }
    }
}

/// `d` extended by `x` unless it already holds `x`.
pub open spec fn add_distinct(d: Seq<Seq<char>>, x: Seq<char>) -> Seq<Seq<char>> {
    if d.contains(x) {
        d
    } else {
        d.push(x)
    }
}

/// `d` extended by every element of `xs` in order, skipping those already held.
pub open spec fn add_all_distinct(d: Seq<Seq<char>>, xs: Seq<Seq<char>>) -> Seq<Seq<char>>
    decreases xs.len(),
{
    if xs.len() == 0 {
        d
    } else {
        add_all_distinct(add_distinct(d, xs[0]), xs.drop_first())
    }
}

/// Every tag name of the first `n` rows followed by its implicit parents.
pub open spec fn tag_expansion(t: TablesView, n: nat) -> Seq<Seq<char>>
    decreases n,
{
    if n == 0 {
        Seq::empty()
    } else {
        tag_expansion(t, (n - 1) as nat) + name_chain(t.tags[n - 1].name)
    }
}

/// The number of distinct tags, implicit parents included.
pub open spec fn expanded_tag_count(t: TablesView) -> nat {
    add_all_distinct(Seq::empty(), tag_expansion(t, t.tags.len())).len()
}

/// The number of attribute rows among the first `n` in `region`.
pub open spec fn region_count(t: TablesView, n: nat, region: AttributeRegion) -> nat
    decreases n,
{
    if n == 0 {
        0
    } else {
        region_count(t, (n - 1) as nat, region) + if t.attributes[n - 1].region == region { 1nat } else { 0nat }
    }
}

/// The attribute region capacity location.
pub open spec fn region_location() -> LocationView {
    LocationView::Table { table: "Attribute"@, row: None, field: Some("region"@) }
}

/// The first failure of tag and attribute names and registry capacities.
pub open spec fn names_failure(t: TablesView, capacity: GasCapacity) -> Option<ErrorSite> {
    match first_failure(tag_name_check(t), t.tags.len()) {
        Some(l) => Some(l),
        None => if expanded_tag_count(t) > capacity.max_tags {
            Some(site_with(ConfigErrorKind::Validation, table_at("Tag"@), "tag capacity exceeded including implicit parent tags"@))
        } else {
            match first_failure(attribute_name_check(t), t.attributes.len()) {
                Some(l) => Some(l),
                None => if region_count(t, t.attributes.len(), AttributeRegion::Hot) > capacity.hot_attributes {
                    Some(site_with(ConfigErrorKind::Validation, region_location(), "hot attribute capacity exceeded"@))
                } else if region_count(t, t.attributes.len(), AttributeRegion::Cold) > capacity.cold_attributes {
                    Some(site_with(ConfigErrorKind::Validation, region_location(), "cold attribute capacity exceeded"@))
                } else {
                    None
                },
            }
        },
    }
}

// ---------------------------------------------------------------------------
// Specification: row rules

/// Field `field` of row `id` of `table`.
pub open spec fn row_field(table: Seq<char>, id: i32, field: Seq<char>) -> LocationView {
    field_at(table, decimal(id as int), field)
}

/// Row `id` of `table`.
pub open spec fn id_row(table: Seq<char>, id: i32) -> LocationView {
    row_at(table, decimal(id as int))
}

/// An ID is positive and not used by an earlier row.
pub open spec fn fresh_id(id: i32, before: Seq<i32>) -> bool {
    id > 0 && !before.contains(id)
}

/// The IDs of the external cost rows, in row order.
pub open spec fn cost_row_ids(t: TablesView) -> Seq<i32> {
    Seq::new(t.additional_costs.len(), |i: int| t.additional_costs[i].id)
}

/// The IDs of the modifier rows, in row order.
pub open spec fn modifier_row_ids(t: TablesView) -> Seq<i32> {
    Seq::new(t.modifiers.len(), |i: int| t.modifiers[i].id)
}

/// The IDs of the targeting rows, in row order.
pub open spec fn targeting_row_ids(t: TablesView) -> Seq<i32> {
    Seq::new(t.targetings.len(), |i: int| t.targetings[i].id)
}

/// The IDs of the timeline action rows, in row order.
pub open spec fn task_row_ids(t: TablesView) -> Seq<i32> {
    Seq::new(t.tasks.len(), |i: int| t.tasks[i].id)
}

/// The first rule an external cost row breaks, given the IDs of earlier rows.
pub open spec fn cost_row_failure(r: AbilityAdditionalCostView, before: Seq<i32>) -> Option<ErrorSite> {
    let table = "AbilityAdditionalCost"@;
    if !fresh_id(r.id, before) {
        Some(site_with(ConfigErrorKind::Validation, row_field(table, r.id, "id"@), "additional cost ID must be positive and unique"@))
    } else if !spec_valid_name(r.resource) {
        Some(site_with(ConfigErrorKind::Validation, row_field(table, r.id, "resource"@), "use nonempty dot-separated ASCII name segments"@))
    } else if !(1 <= r.amount <= u32::MAX) {
        Some(site_with(ConfigErrorKind::Validation, row_field(table, r.id, "amount"@), "amount must be in 1..=4294967295"@))
    } else {
        None
    }
}

/// Checks of the external cost rows.
pub open spec fn cost_rows_check(t: TablesView) -> spec_fn(int) -> Option<ErrorSite> {
    |i: int| cost_row_failure(t.additional_costs[i], cost_row_ids(t).take(i))
}

/// The effect's duration fields agree with its duration kind.
pub open spec fn duration_fits(r: EffectView) -> bool {
    match r.duration_kind {
        DurationKind::DurationTicks => r.duration_ticks matches Some(d) && 1 <= d <= MAX_CONFIG_TICKS,
        _ => r.duration_ticks is None,
    }
}

/// The first rule an effect row breaks, given the IDs of earlier rows.
pub open spec fn effect_row_failure(t: TablesView, r: EffectView, before: Seq<i32>) -> Option<ErrorSite> {
    let table = "Effect"@;
    if !fresh_id(r.id, before) {
        Some(site_with(ConfigErrorKind::Validation, id_row(table, r.id), "effect ID must be positive and unique"@))
    } else if spec_is_blank(r.name) {
        Some(site_with(ConfigErrorKind::Validation, row_field(table, r.id, "name"@), "name must not be blank"@))
    } else if !spec_probability_is_valid(r.probability) {
        Some(site_with(ConfigErrorKind::Validation, row_field(table, r.id, "probability"@), "probability must be finite and in 0..=1"@))
    } else if !duration_fits(r) {
        Some(site_with(ConfigErrorKind::Validation, row_field(table, r.id, "duration_ticks"@), if r.duration_kind == DurationKind::DurationTicks {
            "duration ticks must be an integer in 1..=1000000"@
        } else {
            "unused duration must be empty"@
        }))
    } else if r.period_ticks is Some && r.duration_kind == DurationKind::Instant {
        Some(site_with(ConfigErrorKind::Validation, row_field(table, r.id, "period_ticks"@), "instant effects cannot be periodic"@))
    } else if r.period_ticks matches Some(p) && !(1 <= p <= MAX_CONFIG_TICKS) {
        Some(site_with(ConfigErrorKind::Validation, row_field(table, r.id, "period_ticks"@), "period ticks must be in 1..=1000000; empty disables periodic execution"@))
    } else if r.period_ticks is None && r.execute_on_applied {
        Some(site_with(ConfigErrorKind::Validation, row_field(table, r.id, "execute_on_applied"@), "execute_on_applied requires a period"@))
    } else if !tag_refs_valid(t, r.asset_tags) {
        Some(tag_refs_failure(t, r.asset_tags, row_field(table, r.id, "asset_tags"@)))
    } else if !tag_refs_valid(t, r.granted_tags) {
        Some(tag_refs_failure(t, r.granted_tags, row_field(table, r.id, "granted_tags"@)))
    } else if r.duration_kind == DurationKind::Instant && r.granted_tags.len() > 0 {
        Some(site_with(ConfigErrorKind::Validation, row_field(table, r.id, "granted_tags"@), "instant effects cannot retain granted tags"@))
    } else {
        None
    }
}

/// Checks of the effect rows.
pub open spec fn effect_rows_check(t: TablesView) -> spec_fn(int) -> Option<ErrorSite> {
    |i: int| effect_row_failure(t, t.effects[i], effect_ids(t).take(i))
}

/// The first rule a modifier row breaks, given the IDs of earlier rows.
pub open spec fn modifier_row_failure(t: TablesView, r: ModifierView, before: Seq<i32>) -> Option<ErrorSite> {
    let table = "Modifier"@;
    if !fresh_id(r.id, before) {
        Some(site_with(ConfigErrorKind::Validation, id_row(table, r.id), "modifier ID must be positive and unique"@))
    } else if row_with_key::<Attribute>(t.attributes, RowKey::Name(r.attribute)) is None {
        Some(site_with(ConfigErrorKind::Validation, row_field(table, r.id, "attribute"@), "unknown attribute"@))
    } else if !spec_parameters_are_finite(r.base, Some(r.per_level)) {
        Some(site_with(ConfigErrorKind::Validation, row_field(table, r.id, "magnitude"@), "formula parameters must be finite"@))
    } else if r.magnitude_kind == MagnitudeKind::Flat && !spec_is_zero(r.per_level) {
        Some(site_with(ConfigErrorKind::Validation, row_field(table, r.id, "per_level"@), "Flat magnitude requires unused per_level to be zero"@))
    } else {
        None
    }
}

/// Checks of the modifier rows.
pub open spec fn modifier_rows_check(t: TablesView) -> spec_fn(int) -> Option<ErrorSite> {
    |i: int| modifier_row_failure(t, t.modifiers[i], modifier_row_ids(t).take(i))
}

/// A distance is finite, nonnegative, and has a finite square.
pub open spec fn distance_fits(v: u32) -> bool {
    spec_is_finite(v) && spec_at_least_zero(v) && spec_square_is_finite(v)
}

/// The selection reads a radius.
pub open spec fn uses_radius(s: SelectionKind) -> bool {
    s == SelectionKind::Sphere || s == SelectionKind::Cone
}

/// The selection yields a single entity.
pub open spec fn single_entity(s: SelectionKind) -> bool {
    s == SelectionKind::SelfTarget || s == SelectionKind::ExplicitEntity
}

/// The first rule a targeting row breaks, given the IDs of earlier rows.
pub open spec fn targeting_row_failure(t: TablesView, r: TargetingView, before: Seq<i32>) -> Option<ErrorSite> {
    let table = "Targeting"@;
    if !fresh_id(r.id, before) {
        Some(site_with(ConfigErrorKind::Validation, id_row(table, r.id), "targeting ID must be positive and unique"@))
    } else if spec_is_blank(r.name) {
        Some(site_with(ConfigErrorKind::Validation, row_field(table, r.id, "name"@), "name must not be blank"@))
    } else if uses_radius(r.selection) && !(r.radius matches Some(v) && distance_fits(v)) {
        Some(site_with(ConfigErrorKind::Validation, row_field(table, r.id, "radius"@), "sphere/cone radius must be finite, nonnegative, and have a finite square"@))
    } else if !uses_radius(r.selection) && r.radius is Some {
        Some(site_with(ConfigErrorKind::Validation, row_field(table, r.id, "radius"@), "unused radius must be empty"@))
    } else if r.selection == SelectionKind::Cone && !(r.half_angle_radians matches Some(v) && spec_is_finite(v) && spec_within_half_turn(v)) {
        Some(site_with(ConfigErrorKind::Validation, row_field(table, r.id, "half_angle_radians"@), "cone half angle must be finite and in 0..=PI"@))
    } else if r.selection != SelectionKind::Cone && r.half_angle_radians is Some {
        Some(site_with(ConfigErrorKind::Validation, row_field(table, r.id, "half_angle_radians"@), "unused cone angle must be empty"@))
    } else if r.max_distance matches Some(d) && !distance_fits(d) {
        Some(site_with(ConfigErrorKind::Validation, row_field(table, r.id, "max_distance"@), "distance must be finite, nonnegative, and have a finite square"@))
    } else if r.selection == SelectionKind::SelfTarget && r.exclude_source {
        Some(site_with(ConfigErrorKind::Validation, row_field(table, r.id, "exclude_source"@), "self selection cannot exclude its only target"@))
    } else if single_entity(r.selection) && !(r.sort == SortOrder::Unsorted && r.limit == 1) {
        Some(site_with(ConfigErrorKind::Validation, id_row(table, r.id), "single-entity selection requires sort=None and limit=1"@))
    } else if r.limit <= 0 {
        Some(site_with(ConfigErrorKind::Validation, row_field(table, r.id, "limit"@), "target limit must be positive"@))
    } else {
        tag_requirements_failure(t, r.required_tags, r.blocked_tags, id_row(table, r.id))
    }
}

/// Checks of the targeting rows.
pub open spec fn targeting_rows_check(t: TablesView) -> spec_fn(int) -> Option<ErrorSite> {
    |i: int| targeting_row_failure(t, t.targetings[i], targeting_row_ids(t).take(i))
}

/// The first rule a timeline action row breaks, given the IDs of earlier rows.
pub open spec fn task_row_failure(t: TablesView, r: AbilityTaskView, before: Seq<i32>) -> Option<ErrorSite> {
    let table = "AbilityTask"@;
    if !fresh_id(r.id, before) {
        Some(site_with(ConfigErrorKind::Validation, id_row(table, r.id), "action ID must be positive and unique"@))
    } else if !(0 <= r.at_tick <= MAX_CONFIG_TICKS) {
        Some(site_with(ConfigErrorKind::Validation, row_field(table, r.id, "at_tick"@), "at_tick must be in 0..=1000000; zero means activation startup"@))
    } else {
        match r.kind {
            ActionKind::ApplyEffect => if !(r.effect_id matches Some(e) && has_effect(t, e)) {
                Some(site_with(ConfigErrorKind::Validation, row_field(table, r.id, "effect_id"@), "ApplyEffect requires a valid effect reference"@))
            } else if r.target_scope == TargetScope::NoTarget {
                Some(site_with(ConfigErrorKind::Validation, row_field(table, r.id, "target_scope"@), "ApplyEffect requires Primary or AllCaptured"@))
            } else {
                None
            },
            ActionKind::EndAbility => if !(r.effect_id is None && r.target_scope == TargetScope::NoTarget) {
                Some(site_with(ConfigErrorKind::Validation, id_row(table, r.id), "EndAbility requires empty effect_id and target_scope=None"@))
            } else {
                None
            },
        }
    }
}

/// Checks of the timeline action rows.
pub open spec fn task_rows_check(t: TablesView) -> spec_fn(int) -> Option<ErrorSite> {
    |i: int| task_row_failure(t, t.tasks[i], task_row_ids(t).take(i))
}

// ---------------------------------------------------------------------------
// Specification: abilities

/// The timeline holds exactly one EndAbility, and it is the final action.
pub open spec fn ends_once(actions: Seq<PreparedAction>) -> bool {
    &&& actions.len() > 0
    &&& actions.last().kind is EndAbility
    &&& forall|i: int| 0 <= i < actions.len() - 1 ==> !(#[trigger] actions[i].kind is EndAbility)
}

/// `x` placed into `s` before the first element not below it, unless that element is `x`.
pub open spec fn insert_id(s: Seq<i32>, x: i32) -> Seq<i32>
    decreases s.len(),
{
    if s.len() == 0 {
        seq![x]
    } else if x == s[0] {
        s
    } else if x < s[0] {
        seq![x] + s
    } else {
        seq![s[0]] + insert_id(s.drop_first(), x)
    }
}

/// Every element of `xs` placed into `s` in turn by [`insert_id`].
pub open spec fn insert_ids(s: Seq<i32>, xs: Seq<i32>) -> Seq<i32>
    decreases xs.len(),
{
    if xs.len() == 0 {
        s
    } else {
        insert_id(insert_ids(s, xs.drop_last()), xs.last())
    }
}

/// The effect IDs that the timeline applies, in timeline order.
pub open spec fn applied_effects(actions: Seq<PreparedAction>) -> Seq<i32>
    decreases actions.len(),
{
    if actions.len() == 0 {
        Seq::empty()
    } else {
        let rest = applied_effects(actions.drop_last());
        match actions.last().kind {
            PreparedActionKind::ApplyEffect { effect_id, .. } => rest.push(effect_id),
            PreparedActionKind::EndAbility => rest,
        }
    }
}

/// The optional ID as a list of at most one element.
pub open spec fn optional_ids(o: Option<i32>) -> Seq<i32> {
    match o {
        Some(x) => seq![x],
        None => Seq::empty(),
    }
}

/// The cost, cooldown and applied effect IDs of an ability, ascending and without repeats.
pub open spec fn referenced_effects(a: AbilityView, actions: Seq<PreparedAction>) -> Seq<i32> {
    insert_ids(Seq::empty(), optional_ids(a.cost_effect_id) + optional_ids(a.cooldown_effect_id) + applied_effects(actions))
}

/// The magnitude, evaluated at `level` in binary64, is finite and within `±f32::MAX`.
pub open spec fn magnitude_fits(m: PreparedMagnitude, level: u32) -> bool {
    match m {
        PreparedMagnitude::Flat(v) => spec_is_finite(v) && scaled_within_f32_range(scaled_value(v)),
        PreparedMagnitude::LinearLevel { base, per_level } => spec_is_finite(base) && spec_is_finite(per_level) && scaled_within_f32_range(linear_scaled(base, per_level, level)),
    }
}

/// The magnitude has finite parameters and, evaluated at `level`, is negative.
pub open spec fn magnitude_negative(m: PreparedMagnitude, level: u32) -> bool {
    match m {
        PreparedMagnitude::Flat(v) => spec_is_finite(v) && scaled_value(v) < 0,
        PreparedMagnitude::LinearLevel { base, per_level } => spec_is_finite(base) && spec_is_finite(per_level) && linear_scaled(base, per_level, level) < 0,
    }
}

/// Modifier `i` of `ms` leaves the finite binary32 range at `level`.
pub open spec fn range_check(ms: Seq<PreparedModifierView>, level: u32) -> spec_fn(int) -> Option<ErrorSite> {
    |i: int| if magnitude_fits(ms[i].magnitude, level) {
        None
    } else {
        Some(site_with(ConfigErrorKind::Validation, row_field("Modifier"@, ms[i].id, "magnitude"@), "formula exceeds finite f32 range within supported levels"@))
    }
}

/// The first failure of effect `e` referenced by the ability at `owner`: the effect
/// is unknown, or a modifier leaves the finite binary32 range at `level`.
pub open spec fn effect_reference_failure(t: TablesView, p: PreparedView, e: i32, level: u32, owner: LocationView) -> Option<ErrorSite> {
    if !has_effect(t, e) {
        Some(site_with(ConfigErrorKind::Validation, owner, "unknown effect "@ + decimal(e as int)))
    } else {
        first_failure(range_check(modifiers_of(t, p, e), level), modifiers_of(t, p, e).len())
    }
}

/// Checks of the effects referenced by the ability at `owner`, in the order of `ids`.
pub open spec fn references_check(t: TablesView, p: PreparedView, ids: Seq<i32>, level: u32, owner: LocationView) -> spec_fn(int) -> Option<ErrorSite> {
    |i: int| effect_reference_failure(t, p, ids[i], level, owner)
}

/// The attributes of `ms`, in order.
pub open spec fn modifier_attributes(ms: Seq<PreparedModifierView>) -> Seq<Seq<char>> {
    Seq::new(ms.len(), |i: int| ms[i].attribute)
}

/// Effect `id` can pay for activation at levels up to `level`: it is instant,
/// nonperiodic and certain, and it adds a negative amount to each of at least one
/// distinct attribute.
pub open spec fn cost_effect_fits(t: TablesView, p: PreparedView, id: i32, level: u32) -> bool {
    match row_with_key::<Effect>(t.effects, RowKey::Id(id)) {
        None => false,
        Some(e) => {
            let ms = modifiers_of(t, p, id);
            &&& e.duration_kind == DurationKind::Instant
            &&& e.period_ticks is None
            &&& spec_is_one(e.probability)
            &&& ms.len() > 0
            &&& forall|i: int| 0 <= i < ms.len() ==> #[trigger] cost_modifier_fits(ms, i, level)
        },
    }
}

/// Modifier `i` of a cost adds a negative amount at `level` to an attribute that no
/// earlier modifier of the cost names.
pub open spec fn cost_modifier_fits(ms: Seq<PreparedModifierView>, i: int, level: u32) -> bool {
    &&& ms[i].operation == ModifierOperation::Add
    &&& !modifier_attributes(ms).take(i).contains(ms[i].attribute)
    &&& spec_is_negative(ms[i].base)
    &&& magnitude_negative(ms[i].magnitude, level)
}

/// Effect `id` can serve as a cooldown: timed, nonperiodic, certain, granting
/// tags, and modifying no attribute.
pub open spec fn cooldown_effect_fits(t: TablesView, p: PreparedView, id: i32) -> bool {
    match row_with_key::<Effect>(t.effects, RowKey::Id(id)) {
        None => false,
        Some(e) => {
            &&& e.duration_kind == DurationKind::DurationTicks
            &&& e.period_ticks is None
            &&& spec_is_one(e.probability)
            &&& e.granted_tags.len() > 0
            &&& modifiers_of(t, p, id).len() == 0
        },
    }
}

/// The first cost rule that modifier `i` of a cost breaks at `level`.
pub open spec fn cost_modifier_check(ms: Seq<PreparedModifierView>, level: u32) -> spec_fn(int) -> Option<Seq<char>> {
    |i: int| if ms[i].operation != ModifierOperation::Add {
        Some("cost modifiers must use Add"@)
    } else if modifier_attributes(ms).take(i).contains(ms[i].attribute) {
        Some("cost cannot contain duplicate attributes"@)
    } else if !(spec_is_negative(ms[i].base) && magnitude_negative(ms[i].magnitude, level)) {
        Some("cost magnitude must remain negative at all supported levels"@)
    } else {
        None
    }
}

/// The message of the first cost rule that effect `id` breaks at `level`.
pub open spec fn cost_message(t: TablesView, p: PreparedView, id: i32, level: u32) -> Seq<char> {
    match row_with_key::<Effect>(t.effects, RowKey::Id(id)) {
        None => "unknown effect"@,
        Some(e) => if !(e.duration_kind == DurationKind::Instant && e.period_ticks is None && spec_is_one(e.probability)) {
            "cost must be instant, nonperiodic, and probability=1"@
        } else {
            let ms = modifiers_of(t, p, id);
            match first_failure(cost_modifier_check(ms, level), ms.len()) {
                Some(m) => m,
                None => "cost requires at least one attribute modifier"@,
            }
        },
    }
}

/// The message of the first cooldown rule that effect `id` breaks.
pub open spec fn cooldown_message(t: TablesView, p: PreparedView, id: i32) -> Seq<char> {
    match row_with_key::<Effect>(t.effects, RowKey::Id(id)) {
        None => "unknown effect"@,
        Some(e) => if !(e.duration_kind == DurationKind::DurationTicks && e.period_ticks is None && spec_is_one(e.probability)
            && e.granted_tags.len() > 0) {
            "cooldown requires positive duration, granted tags, probability=1, and no period"@
        } else {
            "cooldown effects must not modify attributes"@
        },
    }
}

/// The first rule an ability row breaks, given the IDs of earlier rows.
pub open spec fn ability_row_failure(t: TablesView, p: PreparedView, a: AbilityView, before: Seq<i32>) -> Option<ErrorSite> {
    let table = "Ability"@;
    let owner = id_row(table, a.id);
    let actions = actions_of(t, p, a.id);
    let ids = referenced_effects(a, actions);
    let level = a.max_level as u32;
    if !fresh_id(a.id, before) {
        Some(site_with(ConfigErrorKind::Validation, owner, "ability ID must be positive and unique"@))
    } else if spec_is_blank(a.name) {
        Some(site_with(ConfigErrorKind::Validation, row_field(table, a.id, "name"@), "name must not be blank"@))
    } else if !(1 <= a.max_level <= MAX_CONFIG_LEVEL) {
        Some(site_with(ConfigErrorKind::Validation, row_field(table, a.id, "max_level"@), "max_level must be in 1..=100"@))
    } else if row_with_key::<Targeting>(t.targetings, RowKey::Id(a.targeting_id)) is None {
        Some(site_with(ConfigErrorKind::Validation, row_field(table, a.id, "targeting_id"@), "unknown targeting definition"@))
    } else if !tag_refs_valid(t, a.asset_tags) {
        Some(tag_refs_failure(t, a.asset_tags, row_field(table, a.id, "asset_tags"@)))
    } else if !tag_refs_valid(t, a.cancel_ability_tags) {
        Some(tag_refs_failure(t, a.cancel_ability_tags, row_field(table, a.id, "cancel_ability_tags"@)))
    } else if !tag_refs_valid(t, a.block_ability_tags) {
        Some(tag_refs_failure(t, a.block_ability_tags, row_field(table, a.id, "block_ability_tags"@)))
    } else if tag_requirements_failure(t, a.required_tags, a.blocked_tags, owner) is Some {
        tag_requirements_failure(t, a.required_tags, a.blocked_tags, owner)
    } else if !ends_once(actions) {
        Some(site_with(ConfigErrorKind::Validation, owner, "exactly one EndAbility must be the final ordered action"@))
    } else if first_failure(references_check(t, p, ids, level, owner), ids.len()) is Some {
        first_failure(references_check(t, p, ids, level, owner), ids.len())
    } else if a.cost_effect_id matches Some(c) && !cost_effect_fits(t, p, c, level) {
        Some(site_with(ConfigErrorKind::Validation, row_field(table, a.id, "cost_effect_id"@), cost_message(t, p, a.cost_effect_id.unwrap(), level)))
    } else if a.cooldown_effect_id matches Some(c) && !cooldown_effect_fits(t, p, c) {
        Some(site_with(ConfigErrorKind::Validation, row_field(table, a.id, "cooldown_effect_id"@), cooldown_message(t, p, a.cooldown_effect_id.unwrap())))
    } else {
        None
    }
}

/// Checks of the ability rows.
pub open spec fn ability_rows_check(t: TablesView, p: PreparedView) -> spec_fn(int) -> Option<ErrorSite> {
    |i: int| ability_row_failure(t, p, t.abilities[i], ability_ids(t).take(i))
}

/// The first authoring rule that prepared tables break: names and capacities, then
/// external costs, effects, modifiers, targeting, timeline actions and abilities,
/// each table in row order.
pub open spec fn validation_failure(t: TablesView, p: PreparedView, capacity: GasCapacity) -> Option<ErrorSite> {
    if names_failure(t, capacity) is Some {
        names_failure(t, capacity)
    } else if first_failure(cost_rows_check(t), t.additional_costs.len()) is Some {
        first_failure(cost_rows_check(t), t.additional_costs.len())
    } else if first_failure(effect_rows_check(t), t.effects.len()) is Some {
        first_failure(effect_rows_check(t), t.effects.len())
    } else if first_failure(modifier_rows_check(t), t.modifiers.len()) is Some {
        first_failure(modifier_rows_check(t), t.modifiers.len())
    } else if first_failure(targeting_rows_check(t), t.targetings.len()) is Some {
        first_failure(targeting_rows_check(t), t.targetings.len())
    } else if first_failure(task_rows_check(t), t.tasks.len()) is Some {
        first_failure(task_rows_check(t), t.tasks.len())
    } else {
        first_failure(ability_rows_check(t, p), t.abilities.len())
    }
}

// ---------------------------------------------------------------------------
// Shared checking steps

/// A failure found among the first `i` checks is the first among any more.
pub proof fn lemma_failure_persists<A>(check: spec_fn(int) -> Option<A>, i: nat, n: nat)
    requires
        i <= n,
        first_failure(check, i) is Some,
    ensures
        first_failure(check, n) == first_failure(check, i),
    decreases n - i,
{
    if i < n {
        lemma_failure_persists(check, i, (n - 1) as nat);
    }
}

/// When no check among the first `n` fails, each of them passes.
pub proof fn lemma_no_failure<A>(check: spec_fn(int) -> Option<A>, n: nat)
    requires
        first_failure(check, n) is None,
    ensures
        forall|i: int| 0 <= i < n ==> #[trigger] check(i) is None,
    decreases n,
{
    if n > 0 {
        lemma_no_failure(check, (n - 1) as nat);
    }
}

/// When each of the first `n` checks passes, none of them fails.
pub proof fn lemma_all_pass<A>(check: spec_fn(int) -> Option<A>, n: nat)
    requires
        forall|i: int| 0 <= i < n ==> #[trigger] check(i) is None,
    ensures
        first_failure(check, n) is None,
    decreases n,
{
    if n > 0 {
        lemma_all_pass(check, (n - 1) as nat);
    }
}

/// A first failure is the failure of one of the checks.
pub proof fn lemma_first_failure_found<A>(check: spec_fn(int) -> Option<A>, n: nat)
    ensures
        first_failure(check, n) matches Some(x) ==> exists|i: int| 0 <= i < n && #[trigger] check(i) == Some(x),
    decreases n,
{
    if n > 0 {
        lemma_first_failure_found(check, (n - 1) as nat);
        if first_failure(check, (n - 1) as nat) is None {
            if let Some(x) = check(n - 1) {
                assert(check(n - 1) == Some(x));
            }
        }
    }
}

proof fn lemma_ability_row_kind(t: TablesView, p: PreparedView, a: AbilityView, before: Seq<i32>)
    ensures
        ability_row_failure(t, p, a, before) matches Some(s) ==> s.kind == ConfigErrorKind::Validation && s.message is Some,
{
    let owner = id_row("Ability"@, a.id);
    let actions = actions_of(t, p, a.id);
    let ids = referenced_effects(a, actions);
    let level = a.max_level as u32;
    let check = references_check(t, p, ids, level, owner);
    lemma_first_failure_found(check, ids.len());
    if let Some(x) = first_failure(check, ids.len()) {
        let i = choose|i: int| 0 <= i < ids.len() && #[trigger] check(i) == Some(x);
        let e = ids[i];
        let ms = modifiers_of(t, p, e);
        lemma_first_failure_found(range_check(ms, level), ms.len());
    }
}

/// Authoring validation fails only with a validation failure, and always names its
/// message.
pub proof fn lemma_validation_failure_kind(t: TablesView, p: PreparedView, capacity: GasCapacity)
    ensures
        validation_failure(t, p, capacity) matches Some(s) ==> s.kind == ConfigErrorKind::Validation && s.message is Some,
{
    lemma_first_failure_found(tag_name_check(t), t.tags.len());
    lemma_first_failure_found(attribute_name_check(t), t.attributes.len());
    lemma_first_failure_found(cost_rows_check(t), t.additional_costs.len());
    lemma_first_failure_found(effect_rows_check(t), t.effects.len());
    lemma_first_failure_found(modifier_rows_check(t), t.modifiers.len());
    lemma_first_failure_found(targeting_rows_check(t), t.targetings.len());
    lemma_first_failure_found(task_rows_check(t), t.tasks.len());
    lemma_first_failure_found(ability_rows_check(t, p), t.abilities.len());
    assert forall|i: int| 0 <= i < t.abilities.len() implies (#[trigger] ability_rows_check(t, p)(i)) matches Some(s) ==> s.kind == ConfigErrorKind::Validation && s.message is Some by {
        lemma_ability_row_kind(t, p, t.abilities[i], ability_ids(t).take(i));
    }
}

/// `add_all_distinct` over a concatenation is the two folds in turn.
proof fn lemma_add_all_concat(d: Seq<Seq<char>>, xs: Seq<Seq<char>>, ys: Seq<Seq<char>>)
    ensures
        add_all_distinct(d, xs + ys) == add_all_distinct(add_all_distinct(d, xs), ys),
    decreases xs.len(),
{
    if xs.len() == 0 {
        assert(xs + ys =~= ys);
    } else {
        assert((xs + ys).drop_first() =~= xs.drop_first() + ys);
        lemma_add_all_concat(add_distinct(d, xs[0]), xs.drop_first(), ys);
    }
}

// ---------------------------------------------------------------------------
// Independence from the order of child rows

/// Tables `a` and `b` are the same but for the order of the rows of their task,
/// cost and modifier tables, each of which repeats no key.
pub open spec fn same_but_child_order(a: TablesView, b: TablesView) -> bool {
    &&& a.abilities == b.abilities
    &&& a.effects == b.effects
    &&& a.targetings == b.targetings
    &&& a.tags == b.tags
    &&& a.attributes == b.attributes
    &&& same_child_rows(a, b)
}

proof fn lemma_tag_expansion_same(a: TablesView, b: TablesView, n: nat)
    requires
        a.tags == b.tags,
    ensures
        tag_expansion(a, n) == tag_expansion(b, n),
    decreases n,
{
    if n > 0 {
        lemma_tag_expansion_same(a, b, (n - 1) as nat);
    }
}

proof fn lemma_region_count_same(a: TablesView, b: TablesView, n: nat, region: AttributeRegion)
    requires
        a.attributes == b.attributes,
    ensures
        region_count(a, n, region) == region_count(b, n, region),
    decreases n,
{
    if n > 0 {
        lemma_region_count_same(a, b, (n - 1) as nat, region);
    }
}

proof fn lemma_tag_checks_same(a: TablesView, b: TablesView, tags: Seq<Seq<char>>)
    requires
        a.tags == b.tags,
    ensures
        tag_refs_valid(a, tags) == tag_refs_valid(b, tags),
        tag_refs_message(a, tags) == tag_refs_message(b, tags),
{
    assert(tag_ref_check(a, tags) =~= tag_ref_check(b, tags));
}

/// The checks that read no task, cost or modifier row give the same results for
/// tables that differ only in those rows.
proof fn lemma_unchanged_checks(a: TablesView, b: TablesView, p: PreparedView, capacity: GasCapacity)
    requires
        same_but_child_order(a, b),
    ensures
        names_failure(a, capacity) == names_failure(b, capacity),
        effect_rows_check(a) == effect_rows_check(b),
        targeting_rows_check(a) == targeting_rows_check(b),
        ability_rows_check(a, p) == ability_rows_check(b, p),
{
    lemma_tag_expansion_same(a, b, a.tags.len());
    lemma_region_count_same(a, b, a.attributes.len(), AttributeRegion::Hot);
    lemma_region_count_same(a, b, a.attributes.len(), AttributeRegion::Cold);
    assert(tag_name_check(a) =~= tag_name_check(b));
    assert(attribute_name_check(a) =~= attribute_name_check(b));
    assert(effect_ids(a) =~= effect_ids(b));
    assert(ability_ids(a) =~= ability_ids(b));
    assert(targeting_row_ids(a) =~= targeting_row_ids(b));
    assert forall|i: int| #![trigger a.effects[i]] effect_rows_check(a)(i) == effect_rows_check(b)(i) by {
        lemma_tag_checks_same(a, b, a.effects[i].asset_tags);
        lemma_tag_checks_same(a, b, a.effects[i].granted_tags);
    }
    assert(effect_rows_check(a) =~= effect_rows_check(b));
    assert forall|i: int| #![trigger a.targetings[i]] targeting_rows_check(a)(i) == targeting_rows_check(b)(i) by {
        lemma_tag_checks_same(a, b, a.targetings[i].required_tags);
        lemma_tag_checks_same(a, b, a.targetings[i].blocked_tags);
    }
    assert(targeting_rows_check(a) =~= targeting_rows_check(b));
    assert forall|i: int| #![trigger a.abilities[i]] ability_rows_check(a, p)(i) == ability_rows_check(b, p)(i) by {
        let r = a.abilities[i];
        lemma_tag_checks_same(a, b, r.asset_tags);
        lemma_tag_checks_same(a, b, r.cancel_ability_tags);
        lemma_tag_checks_same(a, b, r.block_ability_tags);
        lemma_tag_checks_same(a, b, r.required_tags);
        lemma_tag_checks_same(a, b, r.blocked_tags);
        let actions = actions_of(a, p, r.id);
        let ids = referenced_effects(r, actions);
        let owner = id_row("Ability"@, r.id);
        assert forall|e: i32| #![auto] modifiers_of(a, p, e) == modifiers_of(b, p, e) by {}
        assert(references_check(a, p, ids, r.max_level as u32, owner) =~= references_check(b, p, ids, r.max_level as u32, owner));
    }
    assert(ability_rows_check(a, p) =~= ability_rows_check(b, p));
}

/// Whether all external cost rows pass: in a table without repeated keys, each
/// row's check does not depend on the rows before it.
proof fn lemma_cost_rows_pass(t: TablesView)
    requires
        keys_distinct::<AbilityAdditionalCost>(t.additional_costs),
    ensures
        first_failure(cost_rows_check(t), t.additional_costs.len()) is None
            <==> forall|r: AbilityAdditionalCostView| t.additional_costs.contains(r) ==> #[trigger] cost_row_failure(r, Seq::empty()) is None,
{
    let rows = t.additional_costs;
    let check = cost_rows_check(t);
    assert forall|i: int| 0 <= i < rows.len() implies #[trigger] check(i) == cost_row_failure(rows[i], Seq::empty()) by {
        let before = cost_row_ids(t).take(i);
        if before.contains(rows[i].id) {
            let k = choose|k: int| 0 <= k < before.len() && before[k] == rows[i].id;
            assert(AbilityAdditionalCost::spec_key(rows[k]) == AbilityAdditionalCost::spec_key(rows[i]));
        }
    }
    if first_failure(check, rows.len()) is None {
        lemma_no_failure(check, rows.len());
        assert forall|r: AbilityAdditionalCostView| rows.contains(r) implies #[trigger] cost_row_failure(r, Seq::empty()) is None by {
            let i = choose|i: int| 0 <= i < rows.len() && rows[i] == r;
            assert(check(i) is None);
        }
    }
    if forall|r: AbilityAdditionalCostView| rows.contains(r) ==> #[trigger] cost_row_failure(r, Seq::empty()) is None {
        assert forall|i: int| 0 <= i < rows.len() implies #[trigger] check(i) is None by {
            assert(rows.contains(rows[i]));
        }
        lemma_all_pass(check, rows.len());
    }
}

/// Whether all modifier rows pass, as for external costs.
proof fn lemma_modifier_rows_pass(t: TablesView)
    requires
        keys_distinct::<Modifier>(t.modifiers),
    ensures
        first_failure(modifier_rows_check(t), t.modifiers.len()) is None
            <==> forall|r: ModifierView| t.modifiers.contains(r) ==> #[trigger] modifier_row_failure(t, r, Seq::empty()) is None,
{
    let rows = t.modifiers;
    let check = modifier_rows_check(t);
    assert forall|i: int| 0 <= i < rows.len() implies #[trigger] check(i) == modifier_row_failure(t, rows[i], Seq::empty()) by {
        let before = modifier_row_ids(t).take(i);
        if before.contains(rows[i].id) {
            let k = choose|k: int| 0 <= k < before.len() && before[k] == rows[i].id;
            assert(Modifier::spec_key(rows[k]) == Modifier::spec_key(rows[i]));
        }
    }
    if first_failure(check, rows.len()) is None {
        lemma_no_failure(check, rows.len());
        assert forall|r: ModifierView| rows.contains(r) implies #[trigger] modifier_row_failure(t, r, Seq::empty()) is None by {
            let i = choose|i: int| 0 <= i < rows.len() && rows[i] == r;
            assert(check(i) is None);
        }
    }
    if forall|r: ModifierView| rows.contains(r) ==> #[trigger] modifier_row_failure(t, r, Seq::empty()) is None {
        assert forall|i: int| 0 <= i < rows.len() implies #[trigger] check(i) is None by {
            assert(rows.contains(rows[i]));
        }
        lemma_all_pass(check, rows.len());
    }
}

/// Whether all timeline action rows pass, as for external costs.
proof fn lemma_task_rows_pass(t: TablesView)
    requires
        keys_distinct::<AbilityTask>(t.tasks),
    ensures
        first_failure(task_rows_check(t), t.tasks.len()) is None
            <==> forall|r: AbilityTaskView| t.tasks.contains(r) ==> #[trigger] task_row_failure(t, r, Seq::empty()) is None,
{
    let rows = t.tasks;
    let check = task_rows_check(t);
    assert forall|i: int| 0 <= i < rows.len() implies #[trigger] check(i) == task_row_failure(t, rows[i], Seq::empty()) by {
        let before = task_row_ids(t).take(i);
        if before.contains(rows[i].id) {
            let k = choose|k: int| 0 <= k < before.len() && before[k] == rows[i].id;
            assert(AbilityTask::spec_key(rows[k]) == AbilityTask::spec_key(rows[i]));
        }
    }
    if first_failure(check, rows.len()) is None {
        lemma_no_failure(check, rows.len());
        assert forall|r: AbilityTaskView| rows.contains(r) implies #[trigger] task_row_failure(t, r, Seq::empty()) is None by {
            let i = choose|i: int| 0 <= i < rows.len() && rows[i] == r;
            assert(check(i) is None);
        }
    }
    if forall|r: AbilityTaskView| rows.contains(r) ==> #[trigger] task_row_failure(t, r, Seq::empty()) is None {
        assert forall|i: int| 0 <= i < rows.len() implies #[trigger] check(i) is None by {
            assert(rows.contains(rows[i]));
        }
        lemma_all_pass(check, rows.len());
    }
}

/// Whether authoring validation passes does not depend on the order of the task,
/// cost and modifier rows: tables that differ only in that order pass or fail
/// alike.
pub proof fn lemma_validation_ignores_child_row_order(a: TablesView, b: TablesView, p: PreparedView, capacity: GasCapacity)
    requires
        same_but_child_order(a, b),
    ensures
        validation_failure(a, p, capacity) is None <==> validation_failure(b, p, capacity) is None,
{
    broadcast use vstd::seq_lib::group_to_multiset_ensures;

    lemma_unchanged_checks(a, b, p, capacity);
    lemma_cost_rows_pass(a);
    lemma_cost_rows_pass(b);
    lemma_modifier_rows_pass(a);
    lemma_modifier_rows_pass(b);
    lemma_task_rows_pass(a);
    lemma_task_rows_pass(b);
    assert forall|r: AbilityAdditionalCostView| #![auto] a.additional_costs.contains(r) <==> b.additional_costs.contains(r) by {
        assert(a.additional_costs.to_multiset().count(r) == b.additional_costs.to_multiset().count(r));
    }
    assert forall|r: ModifierView| #![auto] a.modifiers.contains(r) <==> b.modifiers.contains(r) by {
        assert(a.modifiers.to_multiset().count(r) == b.modifiers.to_multiset().count(r));
    }
    assert forall|r: AbilityTaskView| #![auto] a.tasks.contains(r) <==> b.tasks.contains(r) by {
        assert(a.tasks.to_multiset().count(r) == b.tasks.to_multiset().count(r));
    }
    assert forall|r: ModifierView| #![auto] modifier_row_failure(a, r, Seq::empty()) == modifier_row_failure(b, r, Seq::empty()) by {}
    assert forall|r: AbilityTaskView| #![auto] task_row_failure(a, r, Seq::empty()) == task_row_failure(b, r, Seq::empty()) by {}
}

/// An authoring-rule failure at `location`.
fn rule_error(location: ConfigLocation, message: &str) -> (e: ConfigError)
    ensures
        e@.kind == ConfigErrorKind::Validation,
        e@.location == location@,
        e@.message == message@,
{
    ConfigError::new(ConfigErrorKind::Validation, location, message)
}

/// Whether `v` holds `x`.
fn holds_id(v: &Vec<i32>, x: i32) -> (r: bool)
    ensures
        r == v@.contains(x),
{
    let mut i: usize = 0;
    while i < v.len()
        invariant
            i <= v@.len(),
            forall|j: int| 0 <= j < i ==> v@[j] != x,
        decreases v@.len() - i,
    {
        if v[i] == x {
            return true;
        }
        i = i + 1;
    }
    false
}

/// Whether `v` holds the text `s`.
fn holds_text(v: &Vec<String>, s: &str) -> (r: bool)
    ensures
        r == v.deep_view().contains(s@),
{
    let mut i: usize = 0;
    while i < v.len()
        invariant
            i <= v@.len(),
            forall|j: int| 0 <= j < i ==> v.deep_view()[j] != s@,
        decreases v@.len() - i,
    {
        assert(v.deep_view()[i as int] == v@[i as int]@);
        if text_eq(v[i].as_str(), s) {
            return true;
        }
        i = i + 1;
    }
    false
}

/// Whether `tags[..n]` holds `tags[n]`.
fn repeats_earlier(tags: &Vec<String>, n: usize) -> (r: bool)
    requires
        n < tags@.len(),
    ensures
        r == tags.deep_view().take(n as int).contains(tags.deep_view()[n as int]),
{
    let ghost d = tags.deep_view();
    let mut i: usize = 0;
    while i < n
        invariant
            n < tags@.len(),
            d == tags.deep_view(),
            i <= n,
            forall|j: int| 0 <= j < i ==> d[j] != d[n as int],
        decreases n - i,
    {
        assert(d[i as int] == tags@[i as int]@);
        assert(d[n as int] == tags@[n as int]@);
        if text_eq(tags[i].as_str(), tags[n].as_str()) {
            assert(d.take(n as int)[i as int] == d[n as int]);
            return true;
        }
        i = i + 1;
    }
    assert(forall|j: int| 0 <= j < n ==> d.take(n as int)[j] != d[n as int]);
    false
}

/// Checks that every tag in `tags` is declared and listed once; returns the
/// message of the first tag that is not.
fn check_tag_refs(tables: &Tables, tags: &Vec<String>) -> (r: Option<String>)
    ensures
        r is None <==> tag_refs_valid(tables.deep_view(), tags.deep_view()),
        r matches Some(m) ==> m@ == tag_refs_message(tables.deep_view(), tags.deep_view()),
{
    let ghost t = tables.deep_view();
    let ghost d = tags.deep_view();
    let mut i: usize = 0;
    while i < tags.len()
        invariant
            t == tables.deep_view(),
            d == tags.deep_view(),
            i <= tags@.len(),
            forall|j: int| 0 <= j < i ==> tag_declared(t, #[trigger] d[j]) && !d.take(j).contains(d[j]),
            first_failure(tag_ref_check(t, d), i as nat) is None,
        decreases tags@.len() - i,
    {
        assert(d[i as int] == tags@[i as int]@);
        if tables.tb_tag.get_by_name(tags[i].as_str()).is_none() {
            let mut m = owned("unknown tag '");
            push_str(&mut m, tags[i].as_str());
            push_str(&mut m, "'; referenced parent tags must also be declared");
            proof {
                lemma_failure_persists(tag_ref_check(t, d), (i + 1) as nat, d.len());
            }
            return Some(m);
        }
        if repeats_earlier(tags, i) {
            let mut m = owned("duplicate tag '");
            push_str(&mut m, tags[i].as_str());
            push_str(&mut m, "'");
            proof {
                lemma_failure_persists(tag_ref_check(t, d), (i + 1) as nat, d.len());
            }
            return Some(m);
        }
        i = i + 1;
    }
    None
}

/// Whether some required tag is a blocked tag or one of its descendants; returns
/// the message of the first such pair, required tags outermost.
fn check_conflict(required: &Vec<String>, blocked: &Vec<String>) -> (r: Option<String>)
    ensures
        r is Some <==> requirements_conflict(required.deep_view(), blocked.deep_view()),
        r matches Some(m) ==> m@ == conflict_message(required.deep_view(), blocked.deep_view()),
{
    let ghost rq = required.deep_view();
    let ghost bl = blocked.deep_view();
    let mut i: usize = 0;
    while i < required.len()
        invariant
            rq == required.deep_view(),
            bl == blocked.deep_view(),
            i <= rq.len(),
            forall|a: int, b: int| 0 <= a < i && 0 <= b < bl.len() ==> !spec_tag_implies(#[trigger] rq[a], #[trigger] bl[b]),
            first_failure(required_check(rq, bl), i as nat) is None,
        decreases rq.len() - i,
    {
        let mut j: usize = 0;
        while j < blocked.len()
            invariant
                rq == required.deep_view(),
                bl == blocked.deep_view(),
                i < rq.len(),
                j <= bl.len(),
                forall|a: int, b: int| 0 <= a < i && 0 <= b < bl.len() ==> !spec_tag_implies(#[trigger] rq[a], #[trigger] bl[b]),
                forall|b: int| 0 <= b < j ==> !spec_tag_implies(rq[i as int], #[trigger] bl[b]),
                first_failure(required_check(rq, bl), i as nat) is None,
                first_failure(blocked_check(rq[i as int], bl), j as nat) is None,
            decreases bl.len() - j,
        {
            assert(rq[i as int] == required@[i as int]@);
            assert(bl[j as int] == blocked@[j as int]@);
            if tag_implies(required[i].as_str(), blocked[j].as_str()) {
                let mut m = owned("required tag '");
                push_str(&mut m, required[i].as_str());
                push_str(&mut m, "' implies blocked tag '");
                push_str(&mut m, blocked[j].as_str());
                push_str(&mut m, "'");
                proof {
                    lemma_failure_persists(blocked_check(rq[i as int], bl), (j + 1) as nat, bl.len());
                    assert(required_check(rq, bl)(i as int) == Some(conflict_text(rq[i as int], bl[j as int])));
                    lemma_failure_persists(required_check(rq, bl), (i + 1) as nat, rq.len());
                }
                return Some(m);
            }
            j = j + 1;
        }
        proof {
            lemma_all_pass(blocked_check(rq[i as int], bl), bl.len());
            assert(required_check(rq, bl)(i as int) is None);
        }
        i = i + 1;
    }
    None
}

/// Checks a required/blocked tag pair whose owner is at `context`.
fn check_tag_requirements(
    tables: &Tables,
    required: &Vec<String>,
    blocked: &Vec<String>,
    context: &ConfigLocation,
) -> (res: Result<(), ConfigError>)
    ensures
        match tag_requirements_failure(tables.deep_view(), required.deep_view(), blocked.deep_view(), context@) {
            Some(f) => res matches Err(e) && reports(e@, f),
            None => res is Ok,
        },
{
    if let Some(m) = check_tag_refs(tables, required) {
        return Err(rule_error(context.field("required_tags"), m.as_str()));
    }
    if let Some(m) = check_tag_refs(tables, blocked) {
        return Err(rule_error(context.field("blocked_tags"), m.as_str()));
    }
    if let Some(m) = check_conflict(required, blocked) {
        return Err(rule_error(context.duplicate(), m.as_str()));
    }
    Ok(())
}

// ---------------------------------------------------------------------------
// Names and capacities

/// Adds `name` followed by each of its implicit parents to `expanded`.
fn expand_tag(expanded: &mut Vec<String>, name: &str)
    ensures
        final(expanded).deep_view() == add_all_distinct(old(expanded).deep_view(), name_chain(name@)),
{
    let chars = chars_of(name);
    let mut end = chars.len();
    assert(chars@.take(end as int) =~= name@);
    loop
        invariant
            end <= chars@.len(),
            chars@ == name@,
            add_all_distinct(old(expanded).deep_view(), name_chain(name@)) == add_all_distinct(expanded.deep_view(), name_chain(chars@.take(end as int))),
        ensures
            final(expanded).deep_view() == add_all_distinct(old(expanded).deep_view(), name_chain(name@)),
        decreases end,
    {
        let current = text_from(&chars, 0, end);
        let ghost cur = chars@.take(end as int);
        assert(current@ =~= cur);
        let ghost before = expanded.deep_view();
        if !holds_text(expanded, current.as_str()) {
            expanded.push(current);
            assert(expanded.deep_view() =~= before.push(cur));
        }
        assert(expanded.deep_view() == add_distinct(before, cur));
        let dot = last_dot_before(&chars, end);
        match dot {
            Some(k) => {
                proof {
                    lemma_dot_bounds(cur, k as int);
                    assert(cur.take(k as int) =~= chars@.take(k as int));
                    let rest = name_chain(cur.take(k as int));
                    assert(name_chain(cur) == seq![cur] + rest);
                    assert((seq![cur] + rest).drop_first() =~= rest);
                }
                end = k;
            },
            None => {
                proof {
                    assert(name_chain(cur) == seq![cur]);
                    assert(seq![cur].drop_first() =~= Seq::<Seq<char>>::empty());
                    assert(add_all_distinct(before, seq![cur]) == add_all_distinct(add_distinct(before, cur), Seq::<Seq<char>>::empty()));
                }
                return;
            },
        }
    }
}

proof fn lemma_dot_bounds(s: Seq<char>, k: int)
    requires
        last_dot(s) == Some(k),
    ensures
        0 <= k < s.len(),
    decreases s.len(),
{
    if s.len() > 0 && s.last() != '.' {
        lemma_dot_bounds(s.drop_last(), k);
    }
}

/// Checks tag and attribute names, then the tag and attribute registry capacities.
fn validate_names(tables: &Tables, capacity: GasCapacity) -> (res: Result<(), ConfigError>)
    ensures
        match names_failure(tables.deep_view(), capacity) {
            Some(f) => res matches Err(e) && reports(e@, f),
            None => res is Ok,
        },
{
    let ghost t = tables.deep_view();
    let tags = tables.tb_tag.rows();
    let mut names: Vec<String> = Vec::new();
    let mut expanded: Vec<String> = Vec::new();
    let mut i: usize = 0;
    assert(names.deep_view() =~= tag_names(t, 0));
    assert(expanded.deep_view() =~= Seq::<Seq<char>>::empty());
    while i < tags.len()
        invariant
            t == tables.deep_view(),
            tags.deep_view() == t.tags,
            i <= t.tags.len(),
            first_failure(tag_name_check(t), i as nat) is None,
            names.deep_view() == tag_names(t, i as int),
            expanded.deep_view() == add_all_distinct(Seq::empty(), tag_expansion(t, i as nat)),
        decreases t.tags.len() - i,
    {
        let name = tags[i].name.as_str();
        assert(t.tags[i as int] == tags@[i as int].deep_view());
        if !valid_name(name) || holds_text(&names, name) {
            proof {
                lemma_failure_persists(tag_name_check(t), (i + 1) as nat, t.tags.len());
            }
            return Err(rule_error(ConfigLocation::table("Tag").row_name(name).field("name"), "use nonempty dot-separated ASCII name segments without duplicates"));
        }
        let ghost before = expanded.deep_view();
        expand_tag(&mut expanded, name);
        proof {
            lemma_add_all_concat(Seq::empty(), tag_expansion(t, i as nat), name_chain(name@));
        }
        let ghost old_names = names.deep_view();
        let copy = owned(name);
        names.push(copy);
        assert(names.deep_view() =~= old_names.push(name@));
        assert(names.deep_view() =~= tag_names(t, i + 1));
        i = i + 1;
    }
    assert(tag_expansion(t, tags@.len() as nat) == tag_expansion(t, t.tags.len()));
    if expanded.len() > capacity.max_tags {
        return Err(rule_error(ConfigLocation::table("Tag"), "tag capacity exceeded including implicit parent tags"));
    }
    let attributes = tables.tb_attribute.rows();
    let mut names: Vec<String> = Vec::new();
    let mut hot: usize = 0;
    let mut cold: usize = 0;
    let mut k: usize = 0;
    assert(names.deep_view() =~= attribute_names(t, 0));
    while k < attributes.len()
        invariant
            t == tables.deep_view(),
            attributes.deep_view() == t.attributes,
            k <= t.attributes.len(),
            first_failure(tag_name_check(t), t.tags.len()) is None,
            expanded_tag_count(t) <= capacity.max_tags,
            first_failure(attribute_name_check(t), k as nat) is None,
            names.deep_view() == attribute_names(t, k as int),
            hot == region_count(t, k as nat, AttributeRegion::Hot),
            cold == region_count(t, k as nat, AttributeRegion::Cold),
            hot + cold == k,
        decreases t.attributes.len() - k,
    {
        let name = attributes[k].name.as_str();
        assert(t.attributes[k as int] == attributes@[k as int].deep_view());
        if !valid_name(name) || holds_text(&names, name) {
            proof {
                lemma_failure_persists(attribute_name_check(t), (k + 1) as nat, t.attributes.len());
            }
            return Err(rule_error(ConfigLocation::table("Attribute").row_name(name).field("name"), "use a nonempty stable ASCII name without duplicates"));
        }
        match attributes[k].region {
            AttributeRegion::Hot => hot = hot + 1,
            AttributeRegion::Cold => cold = cold + 1,
        }
        let ghost old_names = names.deep_view();
        let copy = owned(name);
        names.push(copy);
        assert(names.deep_view() =~= old_names.push(name@));
        assert(names.deep_view() =~= attribute_names(t, k + 1));
        k = k + 1;
    }
    if hot > capacity.hot_attributes {
        return Err(rule_error(ConfigLocation::table("Attribute").field("region"), "hot attribute capacity exceeded"));
    }
    if cold > capacity.cold_attributes {
        return Err(rule_error(ConfigLocation::table("Attribute").field("region"), "cold attribute capacity exceeded"));
    }
    Ok(())
}

// ---------------------------------------------------------------------------
// Row rules

fn check_cost_row(row: &AbilityAdditionalCost, seen: &Vec<i32>) -> (res: Result<(), ConfigError>)
    ensures
        match cost_row_failure(row.deep_view(), seen@) {
            Some(f) => res matches Err(e) && reports(e@, f),
            None => res is Ok,
        },
{
    let table = "AbilityAdditionalCost";
    if !(row.id > 0 && !holds_id(seen, row.id)) {
        return Err(rule_error(row_field_location(table, row.id, "id"), "additional cost ID must be positive and unique"));
    }
    if !valid_name(row.resource.as_str()) {
        return Err(rule_error(row_field_location(table, row.id, "resource"), "use nonempty dot-separated ASCII name segments"));
    }
    if !(1 <= row.amount && row.amount <= 4294967295) {
        return Err(rule_error(row_field_location(table, row.id, "amount"), "amount must be in 1..=4294967295"));
    }
    Ok(())
}

fn validate_additional_costs(tables: &Tables) -> (res: Result<(), ConfigError>)
    ensures
        match first_failure(cost_rows_check(tables.deep_view()), tables.deep_view().additional_costs.len()) {
            Some(f) => res matches Err(e) && reports(e@, f),
            None => res is Ok,
        },
{
    let ghost t = tables.deep_view();
    let rows = tables.tb_ability_additional_cost.rows();
    let mut seen: Vec<i32> = Vec::new();
    let mut i: usize = 0;
    while i < rows.len()
        invariant
            t == tables.deep_view(),
            rows.deep_view() == t.additional_costs,
            i <= t.additional_costs.len(),
            first_failure(cost_rows_check(t), i as nat) is None,
            seen@ == cost_row_ids(t).take(i as int),
        decreases t.additional_costs.len() - i,
    {
        assert(t.additional_costs[i as int] == rows@[i as int].deep_view());
        if let Err(e) = check_cost_row(&rows[i], &seen) {
            proof {
                lemma_failure_persists(cost_rows_check(t), (i + 1) as nat, t.additional_costs.len());
            }
            return Err(e);
        }
        seen.push(rows[i].id);
        assert(seen@ =~= cost_row_ids(t).take(i + 1));
        i = i + 1;
    }
    Ok(())
}

fn check_effect_row(tables: &Tables, row: &Effect, seen: &Vec<i32>) -> (res: Result<(), ConfigError>)
    ensures
        match effect_row_failure(tables.deep_view(), row.deep_view(), seen@) {
            Some(f) => res matches Err(e) && reports(e@, f),
            None => res is Ok,
        },
{
    let table = "Effect";
    if !(row.id > 0 && !holds_id(seen, row.id)) {
        return Err(rule_error(row_location(table, row.id), "effect ID must be positive and unique"));
    }
    if is_blank(row.name.as_str()) {
        return Err(rule_error(row_field_location(table, row.id, "name"), "name must not be blank"));
    }
    if !probability_is_valid(row.probability.0) {
        return Err(rule_error(row_field_location(table, row.id, "probability"), "probability must be finite and in 0..=1"));
    }
    let instant = match row.duration_kind {
        DurationKind::Instant => true,
        _ => false,
    };
    let duration_ok = match row.duration_kind {
        DurationKind::DurationTicks => match row.duration_ticks {
            Some(d) => 1 <= d && d <= MAX_CONFIG_TICKS,
            None => false,
        },
        _ => row.duration_ticks.is_none(),
    };
    if !duration_ok {
        let message = match row.duration_kind {
            DurationKind::DurationTicks => "duration ticks must be an integer in 1..=1000000",
            _ => "unused duration must be empty",
        };
        return Err(rule_error(row_field_location(table, row.id, "duration_ticks"), message));
    }
    match row.period_ticks {
        Some(p) => {
            if instant {
                return Err(rule_error(row_field_location(table, row.id, "period_ticks"), "instant effects cannot be periodic"));
            }
            if !(1 <= p && p <= MAX_CONFIG_TICKS) {
                return Err(rule_error(row_field_location(table, row.id, "period_ticks"), "period ticks must be in 1..=1000000; empty disables periodic execution"));
            }
        },
        None => {
            if row.execute_on_applied {
                return Err(rule_error(row_field_location(table, row.id, "execute_on_applied"), "execute_on_applied requires a period"));
            }
        },
    }
    if let Some(m) = check_tag_refs(tables, &row.asset_tags) {
        return Err(rule_error(row_field_location(table, row.id, "asset_tags"), m.as_str()));
    }
    if let Some(m) = check_tag_refs(tables, &row.granted_tags) {
        return Err(rule_error(row_field_location(table, row.id, "granted_tags"), m.as_str()));
    }
    if instant && row.granted_tags.len() > 0 {
        return Err(rule_error(row_field_location(table, row.id, "granted_tags"), "instant effects cannot retain granted tags"));
    }
    Ok(())
}

fn validate_effects(tables: &Tables) -> (res: Result<(), ConfigError>)
    ensures
        match first_failure(effect_rows_check(tables.deep_view()), tables.deep_view().effects.len()) {
            Some(f) => res matches Err(e) && reports(e@, f),
            None => res is Ok,
        },
{
    let ghost t = tables.deep_view();
    let rows = tables.tb_effect.rows();
    let mut seen: Vec<i32> = Vec::new();
    let mut i: usize = 0;
    while i < rows.len()
        invariant
            t == tables.deep_view(),
            rows.deep_view() == t.effects,
            i <= t.effects.len(),
            first_failure(effect_rows_check(t), i as nat) is None,
            seen@ == effect_ids(t).take(i as int),
        decreases t.effects.len() - i,
    {
        assert(t.effects[i as int] == rows@[i as int].deep_view());
        if let Err(e) = check_effect_row(tables, &rows[i], &seen) {
            proof {
                lemma_failure_persists(effect_rows_check(t), (i + 1) as nat, t.effects.len());
            }
            return Err(e);
        }
        seen.push(rows[i].id);
        assert(seen@ =~= effect_ids(t).take(i + 1));
        i = i + 1;
    }
    Ok(())
}

fn check_modifier_row(tables: &Tables, row: &Modifier, seen: &Vec<i32>) -> (res: Result<(), ConfigError>)
    ensures
        match modifier_row_failure(tables.deep_view(), row.deep_view(), seen@) {
            Some(f) => res matches Err(e) && reports(e@, f),
            None => res is Ok,
        },
{
    let table = "Modifier";
    if !(row.id > 0 && !holds_id(seen, row.id)) {
        return Err(rule_error(row_location(table, row.id), "modifier ID must be positive and unique"));
    }
    if tables.tb_attribute.get_by_name(row.attribute.as_str()).is_none() {
        return Err(rule_error(row_field_location(table, row.id, "attribute"), "unknown attribute"));
    }
    if !formula_parameters_are_finite(row.base.0, Some(row.per_level.0)) {
        return Err(rule_error(row_field_location(table, row.id, "magnitude"), "formula parameters must be finite"));
    }
    let flat = match row.magnitude_kind {
        MagnitudeKind::Flat => true,
        MagnitudeKind::LinearLevel => false,
    };
    if flat && !is_zero(row.per_level.0) {
        return Err(rule_error(row_field_location(table, row.id, "per_level"), "Flat magnitude requires unused per_level to be zero"));
    }
    Ok(())
}

fn validate_modifiers(tables: &Tables) -> (res: Result<(), ConfigError>)
    ensures
        match first_failure(modifier_rows_check(tables.deep_view()), tables.deep_view().modifiers.len()) {
            Some(f) => res matches Err(e) && reports(e@, f),
            None => res is Ok,
        },
{
    let ghost t = tables.deep_view();
    let rows = tables.tb_modifier.rows();
    let mut seen: Vec<i32> = Vec::new();
    let mut i: usize = 0;
    while i < rows.len()
        invariant
            t == tables.deep_view(),
            rows.deep_view() == t.modifiers,
            i <= t.modifiers.len(),
            first_failure(modifier_rows_check(t), i as nat) is None,
            seen@ == modifier_row_ids(t).take(i as int),
        decreases t.modifiers.len() - i,
    {
        assert(t.modifiers[i as int] == rows@[i as int].deep_view());
        if let Err(e) = check_modifier_row(tables, &rows[i], &seen) {
            proof {
                lemma_failure_persists(modifier_rows_check(t), (i + 1) as nat, t.modifiers.len());
            }
            return Err(e);
        }
        seen.push(rows[i].id);
        assert(seen@ =~= modifier_row_ids(t).take(i + 1));
        i = i + 1;
    }
    Ok(())
}

fn distance_ok(v: u32) -> (r: bool)
    ensures
        r == distance_fits(v),
{
    is_finite(v) && at_least_zero(v) && square_is_finite(v)
}

fn check_targeting_row(tables: &Tables, row: &Targeting, seen: &Vec<i32>) -> (res: Result<(), ConfigError>)
    ensures
        match targeting_row_failure(tables.deep_view(), row.deep_view(), seen@) {
            Some(f) => res matches Err(e) && reports(e@, f),
            None => res is Ok,
        },
{
    let table = "Targeting";
    if !(row.id > 0 && !holds_id(seen, row.id)) {
        return Err(rule_error(row_location(table, row.id), "targeting ID must be positive and unique"));
    }
    if is_blank(row.name.as_str()) {
        return Err(rule_error(row_field_location(table, row.id, "name"), "name must not be blank"));
    }
    let (radius_used, cone, self_target, single) = match row.selection {
        SelectionKind::SelfTarget => (false, false, true, true),
        SelectionKind::ExplicitEntity => (false, false, false, true),
        SelectionKind::Sphere => (true, false, false, false),
        SelectionKind::Cone => (true, true, false, false),
    };
    let radius_ok = match row.radius {
        Some(v) => radius_used && distance_ok(v.0),
        None => !radius_used,
    };
    if !radius_ok {
        let message = if radius_used {
            "sphere/cone radius must be finite, nonnegative, and have a finite square"
        } else {
            "unused radius must be empty"
        };
        return Err(rule_error(row_field_location(table, row.id, "radius"), message));
    }
    let angle_ok = match row.half_angle_radians {
        Some(v) => cone && is_finite(v.0) && within_half_turn(v.0),
        None => !cone,
    };
    if !angle_ok {
        let message = if cone { "cone half angle must be finite and in 0..=PI" } else { "unused cone angle must be empty" };
        return Err(rule_error(row_field_location(table, row.id, "half_angle_radians"), message));
    }
    if let Some(d) = row.max_distance {
        if !distance_ok(d.0) {
            return Err(rule_error(row_field_location(table, row.id, "max_distance"), "distance must be finite, nonnegative, and have a finite square"));
        }
    }
    if self_target && row.exclude_source {
        return Err(rule_error(row_field_location(table, row.id, "exclude_source"), "self selection cannot exclude its only target"));
    }
    let unsorted = match row.sort {
        SortOrder::Unsorted => true,
        _ => false,
    };
    if single && !(unsorted && row.limit == 1) {
        return Err(rule_error(row_location(table, row.id), "single-entity selection requires sort=None and limit=1"));
    }
    if row.limit <= 0 {
        return Err(rule_error(row_field_location(table, row.id, "limit"), "target limit must be positive"));
    }
    check_tag_requirements(tables, &row.required_tags, &row.blocked_tags, &row_location(table, row.id))
}

fn validate_targeting(tables: &Tables) -> (res: Result<(), ConfigError>)
    ensures
        match first_failure(targeting_rows_check(tables.deep_view()), tables.deep_view().targetings.len()) {
            Some(f) => res matches Err(e) && reports(e@, f),
            None => res is Ok,
        },
{
    let ghost t = tables.deep_view();
    let rows = tables.tb_targeting.rows();
    let mut seen: Vec<i32> = Vec::new();
    let mut i: usize = 0;
    while i < rows.len()
        invariant
            t == tables.deep_view(),
            rows.deep_view() == t.targetings,
            i <= t.targetings.len(),
            first_failure(targeting_rows_check(t), i as nat) is None,
            seen@ == targeting_row_ids(t).take(i as int),
        decreases t.targetings.len() - i,
    {
        assert(t.targetings[i as int] == rows@[i as int].deep_view());
        if let Err(e) = check_targeting_row(tables, &rows[i], &seen) {
            proof {
                lemma_failure_persists(targeting_rows_check(t), (i + 1) as nat, t.targetings.len());
            }
            return Err(e);
        }
        seen.push(rows[i].id);
        assert(seen@ =~= targeting_row_ids(t).take(i + 1));
        i = i + 1;
    }
    Ok(())
}

fn check_task_row(tables: &Tables, row: &AbilityTask, seen: &Vec<i32>) -> (res: Result<(), ConfigError>)
    ensures
        match task_row_failure(tables.deep_view(), row.deep_view(), seen@) {
            Some(f) => res matches Err(e) && reports(e@, f),
            None => res is Ok,
        },
{
    let table = "AbilityTask";
    if !(row.id > 0 && !holds_id(seen, row.id)) {
        return Err(rule_error(row_location(table, row.id), "action ID must be positive and unique"));
    }
    if !(0 <= row.at_tick && row.at_tick <= MAX_CONFIG_TICKS) {
        return Err(rule_error(row_field_location(table, row.id, "at_tick"), "at_tick must be in 0..=1000000; zero means activation startup"));
    }
    let no_target = match row.target_scope {
        TargetScope::NoTarget => true,
        _ => false,
    };
    match row.kind {
        ActionKind::ApplyEffect => {
            let found = match row.effect_id {
                Some(e) => tables.tb_effect.get(e).is_some(),
                None => false,
            };
            if !found {
                return Err(rule_error(row_field_location(table, row.id, "effect_id"), "ApplyEffect requires a valid effect reference"));
            }
            if no_target {
                return Err(rule_error(row_field_location(table, row.id, "target_scope"), "ApplyEffect requires Primary or AllCaptured"));
            }
        },
        ActionKind::EndAbility => {
            if !(row.effect_id.is_none() && no_target) {
                return Err(rule_error(row_location(table, row.id), "EndAbility requires empty effect_id and target_scope=None"));
            }
        },
    }
    Ok(())
}

fn validate_actions(tables: &Tables) -> (res: Result<(), ConfigError>)
    ensures
        match first_failure(task_rows_check(tables.deep_view()), tables.deep_view().tasks.len()) {
            Some(f) => res matches Err(e) && reports(e@, f),
            None => res is Ok,
        },
{
    let ghost t = tables.deep_view();
    let rows = tables.tb_ability_task.rows();
    let mut seen: Vec<i32> = Vec::new();
    let mut i: usize = 0;
    while i < rows.len()
        invariant
            t == tables.deep_view(),
            rows.deep_view() == t.tasks,
            i <= t.tasks.len(),
            first_failure(task_rows_check(t), i as nat) is None,
            seen@ == task_row_ids(t).take(i as int),
        decreases t.tasks.len() - i,
    {
        assert(t.tasks[i as int] == rows@[i as int].deep_view());
        if let Err(e) = check_task_row(tables, &rows[i], &seen) {
            proof {
                lemma_failure_persists(task_rows_check(t), (i + 1) as nat, t.tasks.len());
            }
            return Err(e);
        }
        seen.push(rows[i].id);
        assert(seen@ =~= task_row_ids(t).take(i + 1));
        i = i + 1;
    }
    Ok(())
}

// ---------------------------------------------------------------------------
// Abilities

proof fn lemma_insert_id_at(s: Seq<i32>, x: i32, j: int)
    requires
        0 <= j <= s.len(),
        forall|k: int| 0 <= k < j ==> s[k] < x,
        j == s.len() || s[j] >= x,
    ensures
        insert_id(s, x) == (if j == s.len() {
            s.push(x)
        } else if s[j] == x {
            s
        } else {
            s.insert(j, x)
        }),
    decreases j,
{
    if j == 0 {
        if s.len() == 0 {
            assert(seq![x] =~= s.push(x));
        } else if s[0] != x {
            assert(seq![x] + s =~= s.insert(0, x));
        }
    } else {
        let rest = s.drop_first();
        lemma_insert_id_at(rest, x, j - 1);
        if j == s.len() {
            assert(seq![s[0]] + rest.push(x) =~= s.push(x));
        } else if s[j] == x {
            assert(seq![s[0]] + rest =~= s);
        } else {
            assert(seq![s[0]] + rest.insert(j - 1, x) =~= s.insert(j, x));
        }
    }
}

/// Places `x` into `v` before its first element not below `x`, unless that element is `x`.
fn insert_sorted(v: &mut Vec<i32>, x: i32)
    ensures
        final(v)@ == insert_id(old(v)@, x),
{
    let mut j: usize = 0;
    while j < v.len() && v[j] < x
        invariant
            j <= v@.len(),
            v@ == old(v)@,
            forall|k: int| 0 <= k < j ==> v@[k] < x,
        decreases v@.len() - j,
    {
        j = j + 1;
    }
    proof {
        lemma_insert_id_at(v@, x, j as int);
    }
    if j == v.len() {
        v.push(x);
    } else if v[j] != x {
        v.insert(j, x);
    }
}

/// The cost, cooldown and applied effect IDs of an ability, ascending and without repeats.
fn referenced_effect_ids(row: &Ability, actions: &[PreparedAction]) -> (ids: Vec<i32>)
    ensures
        ids@ == referenced_effects(row.deep_view(), actions@),
{
    let ghost a = row.deep_view();
    let mut listed: Vec<i32> = Vec::new();
    if let Some(c) = row.cost_effect_id {
        listed.push(c);
    }
    if let Some(c) = row.cooldown_effect_id {
        listed.push(c);
    }
    let ghost head = optional_ids(a.cost_effect_id) + optional_ids(a.cooldown_effect_id);
    assert(listed@ =~= head + applied_effects(actions@.take(0)));
    let mut i: usize = 0;
    while i < actions.len()
        invariant
            i <= actions@.len(),
            listed@ == head + applied_effects(actions@.take(i as int)),
        decreases actions@.len() - i,
    {
        assert(actions@.take(i + 1).drop_last() =~= actions@.take(i as int));
        match actions[i].kind {
            PreparedActionKind::ApplyEffect { effect_id, .. } => {
                listed.push(effect_id);
                assert(listed@ =~= head + applied_effects(actions@.take(i + 1)));
            },
            PreparedActionKind::EndAbility => {},
        }
        i = i + 1;
    }
    assert(actions@.take(actions@.len() as int) =~= actions@);
    let mut ids: Vec<i32> = Vec::new();
    let mut k: usize = 0;
    assert(listed@.take(0) =~= Seq::<i32>::empty());
    while k < listed.len()
        invariant
            k <= listed@.len(),
            ids@ == insert_ids(Seq::empty(), listed@.take(k as int)),
        decreases listed@.len() - k,
    {
        assert(listed@.take(k + 1).drop_last() =~= listed@.take(k as int));
        insert_sorted(&mut ids, listed[k]);
        k = k + 1;
    }
    assert(listed@.take(listed@.len() as int) =~= listed@);
    ids
}

fn magnitude_range(m: PreparedMagnitude, level: u32) -> (r: (bool, bool))
    requires
        level <= 100,
    ensures
        r.0 == magnitude_fits(m, level),
        r.1 == magnitude_negative(m, level),
{
    match m {
        PreparedMagnitude::Flat(v) => {
            if !is_finite(v) {
                return (false, false);
            }
            flat_range(v)
        },
        PreparedMagnitude::LinearLevel { base, per_level } => {
            if !is_finite(base) || !is_finite(per_level) {
                return (false, false);
            }
            linear_range(base, per_level, level)
        },
    }
}

/// Checks effect `e` referenced by the ability at `owner`: it exists and its
/// modifiers stay within the finite binary32 range at `level`.
fn check_effect_reference(prepared: &PreparedTables, e: i32, level: u32, owner: &ConfigLocation) -> (res: Result<(), ConfigError>)
    requires
        level <= 100,
    ensures
        match effect_reference_failure(prepared.source(), prepared@, e, level, owner@) {
            Some(f) => res matches Err(err) && reports(err@, f),
            None => res is Ok,
        },
{
    let tables = prepared.tables();
    if tables.tb_effect.get(e).is_none() {
        let mut m = owned("unknown effect ");
        push_signed(&mut m, e as i64);
        return Err(rule_error(owner.duplicate(), m.as_str()));
    }
    let ms = prepared.modifiers(e);
    let ghost mv = ms.deep_view();
    let mut i: usize = 0;
    while i < ms.len()
        invariant
            mv == ms.deep_view(),
            mv == modifiers_of(prepared.source(), prepared@, e),
            has_effect(prepared.source(), e),
            i <= mv.len(),
            level <= 100,
            first_failure(range_check(mv, level), i as nat) is None,
        decreases mv.len() - i,
    {
        assert(mv[i as int] == ms@[i as int].deep_view());
        let (fits, _) = magnitude_range(ms[i].magnitude, level);
        if !fits {
            proof {
                lemma_failure_persists(range_check(mv, level), (i + 1) as nat, mv.len());
            }
            return Err(rule_error(row_field_location("Modifier", ms[i].id, "magnitude"), "formula exceeds finite f32 range within supported levels"));
        }
        i = i + 1;
    }
    Ok(())
}

/// Checks the effects referenced by the ability at `owner`, in the order of `ids`.
fn check_references(prepared: &PreparedTables, ids: &Vec<i32>, level: u32, owner: &ConfigLocation) -> (res: Result<(), ConfigError>)
    requires
        level <= 100,
    ensures
        match first_failure(references_check(prepared.source(), prepared@, ids@, level, owner@), ids@.len()) {
            Some(f) => res matches Err(e) && reports(e@, f),
            None => res is Ok,
        },
{
    let ghost t = prepared.source();
    let ghost p = prepared@;
    let mut k: usize = 0;
    while k < ids.len()
        invariant
            t == prepared.source(),
            p == prepared@,
            k <= ids@.len(),
            level <= 100,
            first_failure(references_check(t, p, ids@, level, owner@), k as nat) is None,
        decreases ids@.len() - k,
    {
        if let Err(e) = check_effect_reference(prepared, ids[k], level, owner) {
            proof {
                lemma_failure_persists(references_check(t, p, ids@, level, owner@), (k + 1) as nat, ids@.len());
            }
            return Err(e);
        }
        k = k + 1;
    }
    Ok(())
}

/// Whether an earlier modifier of `ms` names the attribute of modifier `i`.
fn attribute_repeats(ms: &[PreparedModifier], i: usize) -> (r: bool)
    requires
        i < ms@.len(),
    ensures
        r == modifier_attributes(ms.deep_view()).take(i as int).contains(ms.deep_view()[i as int].attribute),
{
    let ghost mv = ms.deep_view();
    let mut j: usize = 0;
    while j < i
        invariant
            mv == ms.deep_view(),
            j <= i < mv.len(),
            forall|k: int| 0 <= k < j ==> modifier_attributes(mv)[k] != mv[i as int].attribute,
        decreases i - j,
    {
        assert(mv[j as int] == ms@[j as int].deep_view());
        assert(mv[i as int] == ms@[i as int].deep_view());
        if text_eq(ms[j].attribute.as_str(), ms[i].attribute.as_str()) {
            assert(modifier_attributes(mv).take(i as int)[j as int] == mv[i as int].attribute);
            return true;
        }
        j = j + 1;
    }
    assert(forall|k: int| 0 <= k < i ==> modifier_attributes(mv).take(i as int)[k] != mv[i as int].attribute);
    false
}

/// The first cost rule that effect `id` breaks at `level`, as its message.
fn cost_problem(prepared: &PreparedTables, id: i32, level: u32) -> (r: Option<&'static str>)
    requires
        level <= 100,
    ensures
        r is None <==> cost_effect_fits(prepared.source(), prepared@, id, level),
        r matches Some(m) ==> m@ == cost_message(prepared.source(), prepared@, id, level),
{
    let tables = prepared.tables();
    let effect = match tables.tb_effect.get(id) {
        Some(e) => e,
        None => return Some("unknown effect"),
    };
    let instant = match effect.duration_kind {
        DurationKind::Instant => true,
        _ => false,
    };
    if !(instant && effect.period_ticks.is_none() && is_one(effect.probability.0)) {
        return Some("cost must be instant, nonperiodic, and probability=1");
    }
    let ms = prepared.modifiers(id);
    let ghost mv = ms.deep_view();
    let ghost check = cost_modifier_check(mv, level);
    let ghost fits = cost_effect_fits(prepared.source(), prepared@, id, level);
    let mut i: usize = 0;
    while i < ms.len()
        invariant
            mv == ms.deep_view(),
            mv == modifiers_of(prepared.source(), prepared@, id),
            row_with_key::<Effect>(prepared.source().effects, RowKey::Id(id)) matches Some(e)
                && e.duration_kind == DurationKind::Instant && e.period_ticks is None && spec_is_one(e.probability),
            check == cost_modifier_check(mv, level),
            i <= mv.len(),
            level <= 100,
            forall|k: int| 0 <= k < i ==> #[trigger] cost_modifier_fits(mv, k, level),
            first_failure(check, i as nat) is None,
        decreases mv.len() - i,
    {
        assert(mv[i as int] == ms@[i as int].deep_view());
        let add = match ms[i].operation {
            ModifierOperation::Add => true,
            _ => false,
        };
        if !add {
            proof {
                assert(check(i as int) == Some("cost modifiers must use Add"@));
                assert(first_failure(check, (i + 1) as nat) == check(i as int));
                lemma_failure_persists(check, (i + 1) as nat, mv.len());
                assert(!cost_modifier_fits(mv, i as int, level));
            }
            return Some("cost modifiers must use Add");
        }
        if attribute_repeats(ms, i) {
            proof {
                assert(check(i as int) == Some("cost cannot contain duplicate attributes"@));
                assert(first_failure(check, (i + 1) as nat) == check(i as int));
                lemma_failure_persists(check, (i + 1) as nat, mv.len());
                assert(!cost_modifier_fits(mv, i as int, level));
            }
            return Some("cost cannot contain duplicate attributes");
        }
        let (_, negative) = magnitude_range(ms[i].magnitude, level);
        if !is_negative(ms[i].base) || !negative {
            proof {
                assert(check(i as int) == Some("cost magnitude must remain negative at all supported levels"@));
                assert(first_failure(check, (i + 1) as nat) == check(i as int));
                lemma_failure_persists(check, (i + 1) as nat, mv.len());
                assert(!cost_modifier_fits(mv, i as int, level));
            }
            return Some("cost magnitude must remain negative at all supported levels");
        }
        assert(cost_modifier_fits(mv, i as int, level));
        i = i + 1;
    }
    if ms.len() == 0 {
        return Some("cost requires at least one attribute modifier");
    }
    assert(fits);
    None
}

/// The first cooldown rule that effect `id` breaks, as its message.
fn cooldown_problem(prepared: &PreparedTables, id: i32) -> (r: Option<&'static str>)
    ensures
        r is None <==> cooldown_effect_fits(prepared.source(), prepared@, id),
        r matches Some(m) ==> m@ == cooldown_message(prepared.source(), prepared@, id),
{
    let tables = prepared.tables();
    let effect = match tables.tb_effect.get(id) {
        Some(e) => e,
        None => return Some("unknown effect"),
    };
    let timed = match effect.duration_kind {
        DurationKind::DurationTicks => true,
        _ => false,
    };
    if !(timed && effect.period_ticks.is_none() && is_one(effect.probability.0) && effect.granted_tags.len() > 0) {
        return Some("cooldown requires positive duration, granted tags, probability=1, and no period");
    }
    if prepared.modifiers(id).len() != 0 {
        return Some("cooldown effects must not modify attributes");
    }
    None
}

/// Whether exactly one EndAbility ends the timeline.
fn timeline_ends_once(actions: &[PreparedAction]) -> (r: bool)
    ensures
        r == ends_once(actions@),
{
    let n = actions.len();
    if n == 0 {
        return false;
    }
    match actions[n - 1].kind {
        PreparedActionKind::EndAbility => {},
        _ => return false,
    }
    let mut i: usize = 0;
    while i < n - 1
        invariant
            n == actions@.len(),
            n > 0,
            i <= n - 1,
            forall|k: int| 0 <= k < i ==> !(#[trigger] actions@[k].kind is EndAbility),
        decreases n - 1 - i,
    {
        match actions[i].kind {
            PreparedActionKind::EndAbility => return false,
            _ => {},
        }
        i = i + 1;
    }
    true
}

fn check_ability_row(prepared: &PreparedTables, row: &Ability, seen: &Vec<i32>) -> (res: Result<(), ConfigError>)
    ensures
        match ability_row_failure(prepared.source(), prepared@, row.deep_view(), seen@) {
            Some(f) => res matches Err(e) && reports(e@, f),
            None => res is Ok,
        },
{
    let tables = prepared.tables();
    let table = "Ability";
    let owner = row_location(table, row.id);
    if !(row.id > 0 && !holds_id(seen, row.id)) {
        return Err(rule_error(owner, "ability ID must be positive and unique"));
    }
    if is_blank(row.name.as_str()) {
        return Err(rule_error(row_field_location(table, row.id, "name"), "name must not be blank"));
    }
    if !(1 <= row.max_level && row.max_level <= MAX_CONFIG_LEVEL) {
        return Err(rule_error(row_field_location(table, row.id, "max_level"), "max_level must be in 1..=100"));
    }
    if tables.tb_targeting.get(row.targeting_id).is_none() {
        return Err(rule_error(row_field_location(table, row.id, "targeting_id"), "unknown targeting definition"));
    }
    if let Some(m) = check_tag_refs(tables, &row.asset_tags) {
        return Err(rule_error(row_field_location(table, row.id, "asset_tags"), m.as_str()));
    }
    if let Some(m) = check_tag_refs(tables, &row.cancel_ability_tags) {
        return Err(rule_error(row_field_location(table, row.id, "cancel_ability_tags"), m.as_str()));
    }
    if let Some(m) = check_tag_refs(tables, &row.block_ability_tags) {
        return Err(rule_error(row_field_location(table, row.id, "block_ability_tags"), m.as_str()));
    }
    check_tag_requirements(tables, &row.required_tags, &row.blocked_tags, &owner)?;
    let actions = prepared.actions(row.id);
    if !timeline_ends_once(actions) {
        return Err(rule_error(owner, "exactly one EndAbility must be the final ordered action"));
    }
    let level = row.max_level as u32;
    let ids = referenced_effect_ids(row, actions);
    check_references(prepared, &ids, level, &owner)?;
    if let Some(c) = row.cost_effect_id {
        if let Some(m) = cost_problem(prepared, c, level) {
            return Err(rule_error(row_field_location(table, row.id, "cost_effect_id"), m));
        }
    }
    if let Some(c) = row.cooldown_effect_id {
        if let Some(m) = cooldown_problem(prepared, c) {
            return Err(rule_error(row_field_location(table, row.id, "cooldown_effect_id"), m));
        }
    }
    Ok(())
}

fn validate_abilities(prepared: &PreparedTables) -> (res: Result<(), ConfigError>)
    ensures
        match first_failure(ability_rows_check(prepared.source(), prepared@), prepared.source().abilities.len()) {
            Some(f) => res matches Err(e) && reports(e@, f),
            None => res is Ok,
        },
{
    let ghost t = prepared.source();
    let ghost p = prepared@;
    let rows = prepared.tables().tb_ability.rows();
    let mut seen: Vec<i32> = Vec::new();
    let mut i: usize = 0;
    while i < rows.len()
        invariant
            t == prepared.source(),
            p == prepared@,
            rows.deep_view() == t.abilities,
            i <= t.abilities.len(),
            first_failure(ability_rows_check(t, p), i as nat) is None,
            seen@ == ability_ids(t).take(i as int),
        decreases t.abilities.len() - i,
    {
        assert(t.abilities[i as int] == rows@[i as int].deep_view());
        if let Err(e) = check_ability_row(prepared, &rows[i], &seen) {
            proof {
                lemma_failure_persists(ability_rows_check(t, p), (i + 1) as nat, t.abilities.len());
            }
            return Err(e);
        }
        seen.push(rows[i].id);
        assert(seen@ =~= ability_ids(t).take(i + 1));
        i = i + 1;
    }
    Ok(())
}

/// Checks authoring rules on prepared tables: names and registry capacities, then
/// external costs, effects, modifiers, targeting, timeline actions and abilities,
/// each table in row order. Returns the first rule broken.
pub fn validate_prepared(prepared: &PreparedTables, capacity: GasCapacity) -> (res: Result<(), ConfigError>)
    ensures
        match validation_failure(prepared.source(), prepared@, capacity) {
            Some(f) => res matches Err(e) && reports(e@, f),
            None => res is Ok,
        },
{
    let tables = prepared.tables();
    validate_names(tables, capacity)?;
    validate_additional_costs(tables)?;
    validate_effects(tables)?;
    validate_modifiers(tables)?;
    validate_targeting(tables)?;
    validate_actions(tables)?;
    validate_abilities(prepared)
}

/// What validating tables `t` gives: the preparation failure, else the first
/// authoring rule broken, else success.
pub open spec fn validation_result(t: TablesView, capacity: GasCapacity) -> Result<(), ErrorSite> {
    match spec_prepare(t) {
        Err(s) => Err(s),
        Ok(p) => match validation_failure(t, p, capacity) {
            Some(f) => Err(f),
            None => Ok(()),
        },
    }
}

/// Validates references, timing, formulas, timeline ordering and registry
/// capacities. Returns `Ok(())` when the tables prepare and break no authoring
/// rule, the preparation failure when they do not prepare, and otherwise the first
/// rule broken.
pub fn validate_tables(tables: &Tables, capacity: GasCapacity) -> (res: Result<(), ConfigError>)
    ensures
        match validation_result(tables.deep_view(), capacity) {
            Err(s) => res matches Err(e) && reports(e@, s),
            Ok(()) => res is Ok,
        },
        res matches Err(e) ==> e@.kind == ConfigErrorKind::Validation || e@.kind == ConfigErrorKind::InvalidValue
            || e@.kind == ConfigErrorKind::Reference,
{
    proof {
        lemma_prepare_failure_kind(tables.deep_view());
        if let Ok(p) = spec_prepare(tables.deep_view()) {
            lemma_validation_failure_kind(tables.deep_view(), p, capacity);
        }
    }
    let prepared = PreparedTables::new(tables)?;
    validate_prepared(&prepared, capacity)
}

} // verus!
