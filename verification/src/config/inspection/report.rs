//! The inspection report of one authored ability at one level: its targeting,
//! tags, cost and cooldown effects, external costs and ordered timeline.
//!
//! Binary32 values and level formulas are kept as parts of their own, which the
//! caller renders: a value in its shortest round-trip decimal form, an optional
//! value in debug form, and a formula evaluated at the report's level.

use crate::config::catalog::AbilityId;
use crate::config::compiler::preparation::{
    ability_ids, effect_ids, lemma_prepare_failure_kind, lemma_prepare_ignores_child_row_order, same_child_rows,
    PreparedAction, PreparedActionKind, PreparedAdditionalCost, PreparedCostView,
    PreparedMagnitude, PreparedModifier, PreparedModifierView, PreparedTables,
    PreparedTargetScope, PreparedView, actions_of, costs_of, has_effect, modifiers_of,
    spec_prepare,
};
use crate::config::compiler::validation::{
    GasCapacity, applied_effects, first_failure, id_row, lemma_failure_persists,
    lemma_no_failure, lemma_validation_failure_kind, lemma_validation_ignores_child_row_order,
    optional_ids, row_field, same_but_child_order, validate_prepared, validation_failure,
    validation_result,
};
use crate::config::error::{
    ConfigError, ConfigErrorKind, ErrorSite, ErrorView, LocationView, lemma_reports_determine_error, reports,
    row_field_location, row_location, site_with,
};
use crate::config::generated::{
    Ability, AbilityView, Effect, EffectView, RowKey, Tables, TablesView, Targeting,
    TargetingView, row_with_key,
};
use crate::config::text::{debug_text, decimal, owned, push_signed, push_str, push_unsigned, str_debug};
use vstd::prelude::*;

verus! {

/// The mathematical content of a [`ReportPart`].
pub enum ReportPartView {
    Text(Seq<char>),
    Float(u32),
    OptionalFloat(Option<u32>),
    Magnitude(PreparedMagnitude),
}

/// One piece of an inspection report.
#[derive(Debug)]
pub enum ReportPart {
    /// Literal text.
    Text(String),
    /// A binary32 value (bit pattern), shown in its shortest round-trip decimal form.
    Float(u32),
    /// An optional binary32 value (bit pattern), shown as `Some(v)` or `None`.
    OptionalFloat(Option<u32>),
    /// A level formula, evaluated in binary64 at the report's level and shown as a
    /// binary32 value.
    Magnitude(PreparedMagnitude),
}

impl DeepView for ReportPart {
    type V = ReportPartView;

    open spec fn deep_view(&self) -> ReportPartView {
        match self {
            ReportPart::Text(s) => ReportPartView::Text(s@),
            ReportPart::Float(v) => ReportPartView::Float(*v),
            ReportPart::OptionalFloat(v) => ReportPartView::OptionalFloat(*v),
            ReportPart::Magnitude(m) => ReportPartView::Magnitude(*m),
        }
    }
}

/// The inspection report of one ability at one level.
#[derive(Debug)]
pub struct AbilityReport {
    /// The level at which formulas are evaluated.
    pub level: u32,
    /// The report, in order.
    pub parts: Vec<ReportPart>,
}

// ---------------------------------------------------------------------------
// Specification

/// `true` or `false`.
pub open spec fn bool_text(b: bool) -> Seq<char> {
    if b { "true"@ } else { "false"@ }
}

/// The debug form of an optional integer.
pub open spec fn optional_int_text(o: Option<i32>) -> Seq<char> {
    match o {
        Some(x) => "Some("@ + decimal(x as int) + ")"@,
        None => "None"@,
    }
}

/// The debug forms of the first `n` names, separated by `, `.
pub open spec fn joined_names(names: Seq<Seq<char>>, n: nat) -> Seq<char>
    decreases n,
{
    if n == 0 {
        Seq::empty()
    } else if n == 1 {
        str_debug(names[0])
    } else {
        joined_names(names, (n - 1) as nat) + ", "@ + str_debug(names[n - 1])
    }
}

/// The debug form of a list of names: `["a", "b"]`.
pub open spec fn name_list_text(names: Seq<Seq<char>>) -> Seq<char> {
    "["@ + joined_names(names, names.len()) + "]"@
}

/// The debug form of a target scope.
pub open spec fn scope_text(s: PreparedTargetScope) -> Seq<char> {
    match s {
        PreparedTargetScope::Primary => "Primary"@,
        PreparedTargetScope::AllCaptured => "AllCaptured"@,
    }
}

/// The lines of one modifier of a shown effect.
pub open spec fn modifier_parts(m: PreparedModifierView) -> Seq<ReportPartView> {
    seq![
        ReportPartView::Text("  "@ + m.attribute + " "@ + m.operation.spec_label() + " "@),
        ReportPartView::Magnitude(m.magnitude),
        ReportPartView::Text(" | "@ + m.magnitude_kind.spec_label() + ": base="@),
        ReportPartView::Float(m.base),
        ReportPartView::Text(", per_level="@),
        ReportPartView::Float(m.per_level),
        ReportPartView::Text("\n"@),
    ]
}

/// The lines of the first `n` modifiers of a shown effect.
pub open spec fn modifiers_parts(ms: Seq<PreparedModifierView>, n: nat) -> Seq<ReportPartView>
    decreases n,
{
    if n == 0 {
        Seq::empty()
    } else {
        modifiers_parts(ms, (n - 1) as nat) + modifier_parts(ms[n - 1])
    }
}

/// The lines that show effect row `e` and its modifiers.
pub open spec fn effect_parts(t: TablesView, p: PreparedView, e: EffectView) -> Seq<ReportPartView> {
    let ms = modifiers_of(t, p, e.id);
    seq![
        ReportPartView::Text("  Effect "@ + decimal(e.id as int) + ": "@ + e.name + " | "@ + e.duration_kind.spec_label()
            + ", duration_ticks="@ + optional_int_text(e.duration_ticks) + ", period_ticks="@
            + optional_int_text(e.period_ticks) + ", execute_on_applied="@ + bool_text(e.execute_on_applied)
            + ", probability="@),
        ReportPartView::Float(e.probability),
        ReportPartView::Text("\n  asset_tags="@ + name_list_text(e.asset_tags) + ", granted_tags="@ + name_list_text(e.granted_tags) + "\n"@),
    ] + modifiers_parts(ms, ms.len())
}

/// The lines that show effect `id`, when it has a row.
pub open spec fn shown_effect(t: TablesView, p: PreparedView, id: i32) -> Seq<ReportPartView> {
    match row_with_key::<Effect>(t.effects, RowKey::Id(id)) {
        Some(e) => effect_parts(t, p, e),
        None => Seq::empty(),
    }
}

/// The lines of an optional cost or cooldown effect under the heading `role`.
pub open spec fn role_parts(t: TablesView, p: PreparedView, role: Seq<char>, id: Option<i32>) -> Seq<ReportPartView> {
    match id {
        Some(e) => seq![ReportPartView::Text(role + ":\n"@)] + shown_effect(t, p, e),
        None => Seq::empty(),
    }
}

/// The lines of the first `n` external costs.
pub open spec fn costs_parts(costs: Seq<PreparedCostView>, n: nat) -> Seq<ReportPartView>
    decreases n,
{
    if n == 0 {
        Seq::empty()
    } else {
        costs_parts(costs, (n - 1) as nat) + seq![ReportPartView::Text("Additional cost / order "@
            + decimal(n - 1) + ": resource="@ + costs[n - 1].resource + ", amount="@
            + decimal(costs[n - 1].amount as int) + "\n"@)]
    }
}

/// The lines of one timeline action.
pub open spec fn action_parts(t: TablesView, p: PreparedView, a: PreparedAction) -> Seq<ReportPartView> {
    let head = "tick "@ + decimal(a.tick as int) + " / order "@ + decimal(a.order as int);
    match a.kind {
        PreparedActionKind::ApplyEffect { effect_id, scope } => seq![ReportPartView::Text(head
            + ": ApplyEffect to "@ + scope_text(scope) + "\n"@)] + shown_effect(t, p, effect_id),
        PreparedActionKind::EndAbility => seq![ReportPartView::Text(head + ": EndAbility\n"@)],
    }
}

/// The lines of the first `n` timeline actions.
pub open spec fn actions_parts(t: TablesView, p: PreparedView, actions: Seq<PreparedAction>, n: nat) -> Seq<ReportPartView>
    decreases n,
{
    if n == 0 {
        Seq::empty()
    } else {
        actions_parts(t, p, actions, (n - 1) as nat) + action_parts(t, p, actions[n - 1])
    }
}

/// The heading lines: the ability, its targeting, tags and instancing.
pub open spec fn heading_parts(a: AbilityView, r: TargetingView, level: u32) -> Seq<ReportPartView> {
    seq![
        ReportPartView::Text("Ability "@ + decimal(a.id as int) + ": "@ + a.name + " | level "@
            + decimal(level as int) + "/"@ + decimal(a.max_level as int) + "\n"@ + "Targeting "@
            + decimal(r.id as int) + ": "@ + r.name + " | "@ + r.selection.spec_label() + "\n"@
            + "  radius="@),
        ReportPartView::OptionalFloat(r.radius),
        ReportPartView::Text(", half_angle_radians="@),
        ReportPartView::OptionalFloat(r.half_angle_radians),
        ReportPartView::Text(", max_distance="@),
        ReportPartView::OptionalFloat(r.max_distance),
        ReportPartView::Text(", sort="@ + r.sort.spec_label() + ", limit="@ + decimal(r.limit as int)
            + "\n"@ + "  exclude_source="@ + bool_text(r.exclude_source) + ", require_attributes="@
            + bool_text(r.require_attributes) + ", required_tags="@ + name_list_text(r.required_tags)
            + ", blocked_tags="@ + name_list_text(r.blocked_tags) + "\n"@ + "Ability tags: "@
            + name_list_text(a.asset_tags) + " | required="@ + name_list_text(a.required_tags)
            + " | blocked="@ + name_list_text(a.blocked_tags) + "\n"@ + "Multiple instances: "@
            + bool_text(a.allow_multiple_instances) + "\n"@
            + "Activation commits cost and cooldown to the owner and captures targets once.\n"@),
    ]
}

/// The report writes each boolean field (`exclude_source`, `require_attributes`,
/// `execute_on_applied`, the number of instances) as Rust's `Display` writes the
/// value: `true` or `false`.
pub proof fn lemma_bool_text_is_display()
    ensures
        bool_text(true) == "true"@,
        bool_text(false) == "false"@,
{
}

proof fn lemma_prefix_grows(q: Seq<char>, z: Seq<char>, y: Seq<char>)
    requires
        q.is_prefix_of(z),
    ensures
        q.is_prefix_of(z + y),
{
    assert(q =~= (z + y).subrange(0, q.len() as int));
}

/// The heading's last text begins with the sort and limit line and then shows
/// `exclude_source=` and `require_attributes=` with the targeting row's values,
/// each `true` exactly when the row sets it.
pub proof fn lemma_heading_shows_targeting_flags(a: AbilityView, r: TargetingView, level: u32)
    ensures
        heading_parts(a, r, level)[6] matches ReportPartView::Text(text) && (", sort="@ + r.sort.spec_label() + ", limit="@
            + decimal(r.limit as int) + "\n"@ + "  exclude_source="@ + (if r.exclude_source { "true"@ } else { "false"@ })
            + ", require_attributes="@ + (if r.require_attributes { "true"@ } else { "false"@ }) + ", required_tags="@).is_prefix_of(text),
{
    let q = ", sort="@ + r.sort.spec_label() + ", limit="@ + decimal(r.limit as int)
        + "\n"@ + "  exclude_source="@ + bool_text(r.exclude_source) + ", require_attributes="@
        + bool_text(r.require_attributes) + ", required_tags="@;
    assert(q.is_prefix_of(q)) by { assert(q =~= q.subrange(0, q.len() as int)); }
    let z1 = q + name_list_text(r.required_tags);
    lemma_prefix_grows(q, q, name_list_text(r.required_tags));
    let z2 = z1 + ", blocked_tags="@;
    lemma_prefix_grows(q, z1, ", blocked_tags="@);
    let z3 = z2 + name_list_text(r.blocked_tags);
    lemma_prefix_grows(q, z2, name_list_text(r.blocked_tags));
    let z4 = z3 + "\n"@;
    lemma_prefix_grows(q, z3, "\n"@);
    let z5 = z4 + "Ability tags: "@;
    lemma_prefix_grows(q, z4, "Ability tags: "@);
    let z6 = z5 + name_list_text(a.asset_tags);
    lemma_prefix_grows(q, z5, name_list_text(a.asset_tags));
    let z7 = z6 + " | required="@;
    lemma_prefix_grows(q, z6, " | required="@);
    let z8 = z7 + name_list_text(a.required_tags);
    lemma_prefix_grows(q, z7, name_list_text(a.required_tags));
    let z9 = z8 + " | blocked="@;
    lemma_prefix_grows(q, z8, " | blocked="@);
    let z10 = z9 + name_list_text(a.blocked_tags);
    lemma_prefix_grows(q, z9, name_list_text(a.blocked_tags));
    let z11 = z10 + "\n"@;
    lemma_prefix_grows(q, z10, "\n"@);
    let z12 = z11 + "Multiple instances: "@;
    lemma_prefix_grows(q, z11, "Multiple instances: "@);
    let z13 = z12 + bool_text(a.allow_multiple_instances);
    lemma_prefix_grows(q, z12, bool_text(a.allow_multiple_instances));
    let z14 = z13 + "\n"@;
    lemma_prefix_grows(q, z13, "\n"@);
    let z15 = z14 + "Activation commits cost and cooldown to the owner and captures targets once.\n"@;
    lemma_prefix_grows(q, z14, "Activation commits cost and cooldown to the owner and captures targets once.\n"@);
    assert(heading_parts(a, r, level)[6] == ReportPartView::Text(z15));
}

/// The heading ends by showing `Multiple instances: true` exactly when the ability
/// allows several instances (`false` otherwise), before the activation note.
pub proof fn lemma_heading_shows_instances(a: AbilityView, r: TargetingView, level: u32)
    ensures
        exists|pre: Seq<char>| #![trigger pre.len()] heading_parts(a, r, level)[6] == ReportPartView::Text(pre + "Multiple instances: "@
            + (if a.allow_multiple_instances { "true"@ } else { "false"@ }) + "\n"@
            + "Activation commits cost and cooldown to the owner and captures targets once.\n"@),
{
    let pre = ", sort="@ + r.sort.spec_label() + ", limit="@ + decimal(r.limit as int)
        + "\n"@ + "  exclude_source="@ + bool_text(r.exclude_source) + ", require_attributes="@
        + bool_text(r.require_attributes) + ", required_tags="@ + name_list_text(r.required_tags)
        + ", blocked_tags="@ + name_list_text(r.blocked_tags) + "\n"@ + "Ability tags: "@
        + name_list_text(a.asset_tags) + " | required="@ + name_list_text(a.required_tags)
        + " | blocked="@ + name_list_text(a.blocked_tags) + "\n"@;
    assert(pre.len() == pre.len());
    assert(heading_parts(a, r, level)[6] == ReportPartView::Text(pre + "Multiple instances: "@
        + bool_text(a.allow_multiple_instances) + "\n"@
        + "Activation commits cost and cooldown to the owner and captures targets once.\n"@));
}

/// The whole report of ability row `a` with targeting row `r` at `level`.
pub open spec fn report_parts(t: TablesView, p: PreparedView, a: AbilityView, r: TargetingView, level: u32) -> Seq<ReportPartView> {
    let costs = costs_of(t, p, a.id);
    let actions = actions_of(t, p, a.id);
    heading_parts(a, r, level) + role_parts(t, p, "Cost"@, a.cost_effect_id)
        + role_parts(t, p, "Cooldown"@, a.cooldown_effect_id) + costs_parts(costs, costs.len())
        + actions_parts(t, p, actions, actions.len())
}

/// The effect IDs the report shows, in report order.
pub open spec fn shown_effect_ids(a: AbilityView, actions: Seq<PreparedAction>) -> Seq<i32> {
    optional_ids(a.cost_effect_id) + optional_ids(a.cooldown_effect_id) + applied_effects(actions)
}

/// Shown effect `i` has no effect row.
pub open spec fn shown_effect_check(t: TablesView, ids: Seq<i32>) -> spec_fn(int) -> Option<LocationView> {
    |i: int| if has_effect(t, ids[i]) { None } else { Some(id_row("Effect"@, ids[i])) }
}

/// What describing ability `id` at `level` gives on prepared tables that pass
/// validation: the unknown ability, the unsupported level, the unknown targeting,
/// the first shown effect without a row, or the report.
pub open spec fn spec_describe(t: TablesView, p: PreparedView, id: i32, level: u32) -> Result<Seq<ReportPartView>, ErrorSite> {
    match row_with_key::<Ability>(t.abilities, RowKey::Id(id)) {
        None => Err(site_with(ConfigErrorKind::UnknownAbility, id_row("Ability"@, id), "unknown ability"@)),
        Some(a) => if level == 0 || level > a.max_level as u32 {
            Err(site_with(ConfigErrorKind::UnsupportedLevel, row_field("Ability"@, id, "level"@),
                "level "@ + decimal(level as int) + " is outside 1..="@ + decimal(a.max_level as int)))
        } else {
            match row_with_key::<Targeting>(t.targetings, RowKey::Id(a.targeting_id)) {
                None => Err(site_with(ConfigErrorKind::Reference, row_field("Ability"@, id, "targeting_id"@), "unknown targeting"@)),
                Some(r) => {
                    let ids = shown_effect_ids(a, actions_of(t, p, a.id));
                    match first_failure(shown_effect_check(t, ids), ids.len()) {
                        Some(l) => Err(site_with(ConfigErrorKind::Reference, l, "unknown effect"@)),
                        None => Ok(report_parts(t, p, a, r, level)),
                    }
                },
            }
        },
    }
}

/// What describing ability `id` at `level` from tables `t` gives: the preparation
/// failure, else the first authoring rule broken, else the report or its failure.
pub open spec fn describe_result(t: TablesView, capacity: GasCapacity, id: i32, level: u32) -> Result<Seq<ReportPartView>, ErrorSite> {
    match spec_prepare(t) {
        Err(s) => Err(s),
        Ok(p) => match validation_failure(t, p, capacity) {
            Some(f) => Err(f),
            None => spec_describe(t, p, id, level),
        },
    }
}

/// Describing fails wherever validation fails, with the same failure, for every
/// ability and level; a report is given only for tables that validate; and every
/// failure of describing names its message.
pub proof fn lemma_describe_fails_as_validation(t: TablesView, capacity: GasCapacity, id: i32, level: u32)
    ensures
        validation_result(t, capacity) matches Err(s) ==> describe_result(t, capacity, id, level) == Err::<Seq<ReportPartView>, ErrorSite>(s),
        describe_result(t, capacity, id, level) is Ok ==> validation_result(t, capacity) is Ok,
        describe_result(t, capacity, id, level) matches Err(s) ==> s.message is Some,
{
    lemma_prepare_failure_kind(t);
    if let Ok(p) = spec_prepare(t) {
        lemma_validation_failure_kind(t, p, capacity);
    }
}

/// When validating tables fails with error `v` and describing an ability from them
/// fails with error `d`, as their contracts state, the two errors are equal.
pub proof fn lemma_describe_error_is_validation_error(t: TablesView, capacity: GasCapacity, id: i32, level: u32, v: ErrorView, d: ErrorView)
    requires
        validation_result(t, capacity) matches Err(s) && reports(v, s),
        describe_result(t, capacity, id, level) matches Err(s) && reports(d, s),
    ensures
        d == v,
{
    lemma_describe_fails_as_validation(t, capacity, id, level);
    let s = validation_result(t, capacity)->Err_0;
    lemma_reports_determine_error(v, d, s);
}

/// Two errors that report the failure of describing the same ability at the same
/// level from the same tables are equal; so describing at the default level fails
/// exactly as describing at level one does.
pub proof fn lemma_describe_error_is_determined(t: TablesView, capacity: GasCapacity, id: i32, level: u32, d1: ErrorView, d2: ErrorView)
    requires
        describe_result(t, capacity, id, level) matches Err(s) && reports(d1, s) && reports(d2, s),
    ensures
        d1 == d2,
{
    lemma_describe_fails_as_validation(t, capacity, id, level);
    let s = describe_result(t, capacity, id, level)->Err_0;
    lemma_reports_determine_error(d1, d2, s);
}

/// Only the heading of a report depends on the level: at any two supported levels
/// describing an ability succeeds or fails alike, and past the heading (the cost
/// and cooldown effects, the external cost lines and the timeline) the two reports
/// are the same.
pub proof fn lemma_report_level_only_in_heading(t: TablesView, p: PreparedView, id: i32, l1: u32, l2: u32)
    requires
        row_with_key::<Ability>(t.abilities, RowKey::Id(id)) matches Some(a) && 1 <= l1 <= a.max_level && 1 <= l2 <= a.max_level,
    ensures
        spec_describe(t, p, id, l1) is Ok <==> spec_describe(t, p, id, l2) is Ok,
        spec_describe(t, p, id, l1) is Err ==> spec_describe(t, p, id, l1) == spec_describe(t, p, id, l2),
        spec_describe(t, p, id, l1) matches Ok(x) ==> spec_describe(t, p, id, l2) matches Ok(y)
            && x.len() == y.len() && x.skip(7) == y.skip(7),
{
    let a = row_with_key::<Ability>(t.abilities, RowKey::Id(id)).unwrap();
    if let Some(r) = row_with_key::<Targeting>(t.targetings, RowKey::Id(a.targeting_id)) {
        let costs = costs_of(t, p, a.id);
        let actions = actions_of(t, p, a.id);
        let rest = role_parts(t, p, "Cost"@, a.cost_effect_id) + role_parts(t, p, "Cooldown"@, a.cooldown_effect_id)
            + costs_parts(costs, costs.len()) + actions_parts(t, p, actions, actions.len());
        assert(report_parts(t, p, a, r, l1) =~= heading_parts(a, r, l1) + rest);
        assert(report_parts(t, p, a, r, l2) =~= heading_parts(a, r, l2) + rest);
        assert((heading_parts(a, r, l1) + rest).skip(7) =~= rest);
        assert((heading_parts(a, r, l2) + rest).skip(7) =~= rest);
    }
}

/// A report follows the authored reference lists, not the order of the rows they
/// reference: tables with the same abilities, effects and targeting rows whose
/// task, cost and modifier tables hold the same rows in any order prepare alike
/// and describe every ability at every level alike.
pub proof fn lemma_report_ignores_child_row_order(a: TablesView, b: TablesView, id: i32, level: u32)
    requires
        a.abilities == b.abilities,
        a.effects == b.effects,
        a.targetings == b.targetings,
        same_child_rows(a, b),
    ensures
        spec_prepare(a) == spec_prepare(b),
        spec_prepare(a) matches Ok(p) ==> spec_describe(a, p, id, level) == spec_describe(b, p, id, level),
{
    lemma_prepare_ignores_child_row_order(a, b);
    if let Ok(p) = spec_prepare(a) {
        assert(ability_ids(a) =~= ability_ids(b));
        assert(effect_ids(a) =~= effect_ids(b));
        if let Some(ab) = row_with_key::<Ability>(a.abilities, RowKey::Id(id)) {
            let actions = actions_of(a, p, ab.id);
            assert(actions_of(b, p, ab.id) == actions);
            let ids = shown_effect_ids(ab, actions);
            assert(shown_effect_check(a, ids) =~= shown_effect_check(b, ids));
            if let Some(r) = row_with_key::<Targeting>(a.targetings, RowKey::Id(ab.targeting_id)) {
                lemma_actions_parts_same(a, b, p, actions, actions.len());
                assert(role_parts(a, p, "Cost"@, ab.cost_effect_id) == role_parts(b, p, "Cost"@, ab.cost_effect_id));
                assert(role_parts(a, p, "Cooldown"@, ab.cooldown_effect_id) == role_parts(b, p, "Cooldown"@, ab.cooldown_effect_id));
                assert(report_parts(a, p, ab, r, level) == report_parts(b, p, ab, r, level));
            }
        }
    }
}

/// Describing follows the authored reference lists, not the order of the rows
/// they reference: for tables that differ only in the order of their task, cost
/// and modifier rows, validation passes for both or for neither, describing an
/// ability at a level succeeds for both or for neither, and wherever preparation
/// fails or the tables validate the two results are the same. Only where the
/// tables prepare but fail validation may the first failure differ, since
/// validation walks each table in row order.
pub proof fn lemma_describe_ignores_child_row_order(a: TablesView, b: TablesView, capacity: GasCapacity, id: i32, level: u32)
    requires
        same_but_child_order(a, b),
    ensures
        validation_result(a, capacity) is Ok <==> validation_result(b, capacity) is Ok,
        describe_result(a, capacity, id, level) is Ok <==> describe_result(b, capacity, id, level) is Ok,
        spec_prepare(a) is Err || validation_result(a, capacity) is Ok ==> describe_result(a, capacity, id, level) == describe_result(b, capacity, id, level),
{
    lemma_report_ignores_child_row_order(a, b, id, level);
    if let Ok(p) = spec_prepare(a) {
        lemma_validation_ignores_child_row_order(a, b, p, capacity);
    }
}

proof fn lemma_actions_parts_same(a: TablesView, b: TablesView, p: PreparedView, actions: Seq<PreparedAction>, n: nat)
    requires
        a.abilities == b.abilities,
        a.effects == b.effects,
    ensures
        actions_parts(a, p, actions, n) == actions_parts(b, p, actions, n),
    decreases n,
{
    assert(effect_ids(a) =~= effect_ids(b));
    if n > 0 {
        lemma_actions_parts_same(a, b, p, actions, (n - 1) as nat);
    }
}

// ---------------------------------------------------------------------------
// Construction

fn push_part(parts: &mut Vec<ReportPart>, part: ReportPart)
    ensures
        final(parts).deep_view() == old(parts).deep_view().push(part.deep_view()),
{
    let ghost pv = part.deep_view();
    parts.push(part);
    assert(final(parts).deep_view() =~= old(parts).deep_view().push(pv));
}

fn push_bool(s: &mut String, b: bool)
    ensures
        final(s)@ == old(s)@ + bool_text(b),
{
    if b {
        push_str(s, "true");
    } else {
        push_str(s, "false");
    }
}

fn push_optional_int(s: &mut String, o: Option<i32>)
    ensures
        final(s)@ == old(s)@ + optional_int_text(o),
{
    match o {
        Some(x) => {
            let ghost start = s@;
            push_str(s, "Some(");
            push_signed(s, x as i64);
            push_str(s, ")");
            assert(s@ =~= start + ("Some("@ + decimal(x as int) + ")"@));
        },
        None => push_str(s, "None"),
    }
}

fn push_name_list(s: &mut String, names: &Vec<String>)
    ensures
        final(s)@ == old(s)@ + name_list_text(names.deep_view()),
{
    let ghost start = s@;
    let ghost d = names.deep_view();
    push_str(s, "[");
    let mut i: usize = 0;
    while i < names.len()
        invariant
            d == names.deep_view(),
            i <= d.len(),
            s@ == start + "["@ + joined_names(d, i as nat),
        decreases d.len() - i,
    {
        assert(d[i as int] == names@[i as int]@);
        let ghost before = s@;
        if i > 0 {
            push_str(s, ", ");
        }
        let text = debug_text(names[i].as_str());
        push_str(s, text.as_str());
        proof {
            if i == 0 {
                assert(joined_names(d, 0) =~= Seq::<char>::empty());
                assert(s@ =~= start + "["@ + joined_names(d, 1));
            } else {
                assert(s@ =~= start + "["@ + joined_names(d, (i + 1) as nat));
            }
        }
        i = i + 1;
    }
    push_str(s, "]");
    assert(s@ =~= start + name_list_text(d));
}

fn push_modifier(parts: &mut Vec<ReportPart>, m: &PreparedModifier)
    ensures
        final(parts).deep_view() == old(parts).deep_view() + modifier_parts(m.deep_view()),
{
    let ghost start = parts.deep_view();
    let mut head = String::new();
    push_str(&mut head, "  ");
    push_str(&mut head, m.attribute.as_str());
    push_str(&mut head, " ");
    push_str(&mut head, m.operation.label());
    push_str(&mut head, " ");
    assert(head@ =~= "  "@ + m.attribute@ + " "@ + m.operation.spec_label() + " "@);
    push_part(parts, ReportPart::Text(head));
    push_part(parts, ReportPart::Magnitude(m.magnitude));
    let mut kind = String::new();
    push_str(&mut kind, " | ");
    push_str(&mut kind, m.magnitude_kind.label());
    push_str(&mut kind, ": base=");
    assert(kind@ =~= " | "@ + m.magnitude_kind.spec_label() + ": base="@);
    push_part(parts, ReportPart::Text(kind));
    push_part(parts, ReportPart::Float(m.base));
    let mut slope = String::new();
    push_str(&mut slope, ", per_level=");
    push_part(parts, ReportPart::Text(slope));
    push_part(parts, ReportPart::Float(m.per_level));
    let mut end = String::new();
    push_str(&mut end, "\n");
    push_part(parts, ReportPart::Text(end));
    assert(parts.deep_view() =~= start + modifier_parts(m.deep_view()));
}

fn push_effect(parts: &mut Vec<ReportPart>, prepared: &PreparedTables, id: i32)
    requires
        has_effect(prepared.source(), id),
    ensures
        final(parts).deep_view() == old(parts).deep_view() + shown_effect(prepared.source(), prepared@, id),
{
    let effect = match prepared.tables().tb_effect.get(id) {
        Some(e) => e,
        None => return,
    };
    let ghost e = effect.deep_view();
    let ghost start = parts.deep_view();
    let mut line = String::new();
    push_str(&mut line, "  Effect ");
    push_signed(&mut line, effect.id as i64);
    push_str(&mut line, ": ");
    push_str(&mut line, effect.name.as_str());
    push_str(&mut line, " | ");
    push_str(&mut line, effect.duration_kind.label());
    push_str(&mut line, ", duration_ticks=");
    push_optional_int(&mut line, effect.duration_ticks);
    push_str(&mut line, ", period_ticks=");
    push_optional_int(&mut line, effect.period_ticks);
    push_str(&mut line, ", execute_on_applied=");
    push_bool(&mut line, effect.execute_on_applied);
    push_str(&mut line, ", probability=");
    assert(line@ =~= "  Effect "@ + decimal(e.id as int) + ": "@ + e.name + " | "@ + e.duration_kind.spec_label()
        + ", duration_ticks="@ + optional_int_text(e.duration_ticks) + ", period_ticks="@
        + optional_int_text(e.period_ticks) + ", execute_on_applied="@ + bool_text(e.execute_on_applied)
        + ", probability="@);
    push_part(parts, ReportPart::Text(line));
    push_part(parts, ReportPart::Float(effect.probability.0));
    let mut tags = String::new();
    push_str(&mut tags, "\n  asset_tags=");
    push_name_list(&mut tags, &effect.asset_tags);
    push_str(&mut tags, ", granted_tags=");
    push_name_list(&mut tags, &effect.granted_tags);
    push_str(&mut tags, "\n");
    assert(tags@ =~= "\n  asset_tags="@ + name_list_text(e.asset_tags) + ", granted_tags="@ + name_list_text(e.granted_tags) + "\n"@);
    push_part(parts, ReportPart::Text(tags));
    let ghost head = parts.deep_view();
    let ms = prepared.modifiers(effect.id);
    let ghost mv = ms.deep_view();
    let mut i: usize = 0;
    assert(head =~= head + modifiers_parts(mv, 0));
    while i < ms.len()
        invariant
            mv == ms.deep_view(),
            i <= mv.len(),
            parts.deep_view() == head + modifiers_parts(mv, i as nat),
        decreases mv.len() - i,
    {
        assert(mv[i as int] == ms@[i as int].deep_view());
        push_modifier(parts, &ms[i]);
        assert(parts.deep_view() =~= head + modifiers_parts(mv, (i + 1) as nat));
        i = i + 1;
    }
    assert(parts.deep_view() =~= start + effect_parts(prepared.source(), prepared@, e));
}

fn push_role(parts: &mut Vec<ReportPart>, prepared: &PreparedTables, role: &str, id: Option<i32>)
    requires
        id matches Some(c) ==> has_effect(prepared.source(), c),
    ensures
        final(parts).deep_view() == old(parts).deep_view() + role_parts(prepared.source(), prepared@, role@, id),
{
    let ghost start = parts.deep_view();
    match id {
        Some(c) => {
            let mut heading = String::new();
            push_str(&mut heading, role);
            push_str(&mut heading, ":\n");
            push_part(parts, ReportPart::Text(heading));
            push_effect(parts, prepared, c);
            assert(parts.deep_view() =~= start + role_parts(prepared.source(), prepared@, role@, id));
        },
        None => {
            assert(parts.deep_view() =~= start + role_parts(prepared.source(), prepared@, role@, id));
        },
    }
}

fn push_costs(parts: &mut Vec<ReportPart>, costs: &[PreparedAdditionalCost])
    ensures
        final(parts).deep_view() == old(parts).deep_view() + costs_parts(costs.deep_view(), costs.deep_view().len()),
{
    let ghost start = parts.deep_view();
    let ghost cv = costs.deep_view();
    let mut i: usize = 0;
    assert(start =~= start + costs_parts(cv, 0));
    while i < costs.len()
        invariant
            cv == costs.deep_view(),
            i <= cv.len(),
            parts.deep_view() == start + costs_parts(cv, i as nat),
        decreases cv.len() - i,
    {
        assert(cv[i as int] == costs@[i as int].deep_view());
        let mut line = String::new();
        push_str(&mut line, "Additional cost / order ");
        push_unsigned(&mut line, i as u64);
        push_str(&mut line, ": resource=");
        push_str(&mut line, costs[i].resource.as_str());
        push_str(&mut line, ", amount=");
        push_unsigned(&mut line, costs[i].amount as u64);
        push_str(&mut line, "\n");
        assert(line@ =~= "Additional cost / order "@ + decimal(i as int) + ": resource="@ + cv[i as int].resource
            + ", amount="@ + decimal(cv[i as int].amount as int) + "\n"@);
        push_part(parts, ReportPart::Text(line));
        assert(parts.deep_view() =~= start + costs_parts(cv, (i + 1) as nat));
        i = i + 1;
    }
}

fn push_actions(parts: &mut Vec<ReportPart>, prepared: &PreparedTables, actions: &[PreparedAction])
    requires
        forall|k: int| 0 <= k < applied_effects(actions@).len() ==> has_effect(prepared.source(), #[trigger] applied_effects(actions@)[k]),
    ensures
        final(parts).deep_view() == old(parts).deep_view() + actions_parts(prepared.source(), prepared@, actions@, actions@.len()),
{
    let ghost t = prepared.source();
    let ghost p = prepared@;
    let ghost start = parts.deep_view();
    let ghost all = applied_effects(actions@);
    let mut i: usize = 0;
    assert(start =~= start + actions_parts(t, p, actions@, 0));
    assert(actions@.take(0) =~= Seq::<PreparedAction>::empty());
    while i < actions.len()
        invariant
            t == prepared.source(),
            p == prepared@,
            all == applied_effects(actions@),
            forall|k: int| 0 <= k < all.len() ==> has_effect(t, #[trigger] all[k]),
            i <= actions@.len(),
            applied_effects(actions@.take(i as int)).len() <= all.len(),
            applied_effects(actions@.take(i as int)) == all.take(applied_effects(actions@.take(i as int)).len() as int),
            parts.deep_view() == start + actions_parts(t, p, actions@, i as nat),
        decreases actions@.len() - i,
    {
        let action = actions[i];
        let ghost done = applied_effects(actions@.take(i as int)).len();
        proof {
            lemma_applied_prefix(actions@, i as int);
        }
        let mut head = String::new();
        push_str(&mut head, "tick ");
        push_unsigned(&mut head, action.tick as u64);
        push_str(&mut head, " / order ");
        push_unsigned(&mut head, action.order as u64);
        let ghost hv = head@;
        assert(hv =~= "tick "@ + decimal(action.tick as int) + " / order "@ + decimal(action.order as int));
        let ghost before = parts.deep_view();
        match action.kind {
            PreparedActionKind::ApplyEffect { effect_id, scope } => {
                push_str(&mut head, ": ApplyEffect to ");
                match scope {
                    PreparedTargetScope::Primary => push_str(&mut head, "Primary"),
                    PreparedTargetScope::AllCaptured => push_str(&mut head, "AllCaptured"),
                }
                push_str(&mut head, "\n");
                assert(head@ =~= hv + ": ApplyEffect to "@ + scope_text(scope) + "\n"@);
                push_part(parts, ReportPart::Text(head));
                assert(applied_effects(actions@.take(i + 1))[done as int] == effect_id);
                assert(all[done as int] == effect_id);
                push_effect(parts, prepared, effect_id);
                assert(parts.deep_view() =~= before + action_parts(t, p, action));
            },
            PreparedActionKind::EndAbility => {
                push_str(&mut head, ": EndAbility\n");
                assert(head@ =~= hv + ": EndAbility\n"@);
                push_part(parts, ReportPart::Text(head));
                assert(parts.deep_view() =~= before + action_parts(t, p, action));
            },
        }
        assert(parts.deep_view() =~= start + actions_parts(t, p, actions@, (i + 1) as nat));
        i = i + 1;
    }
}

proof fn lemma_applied_prefix(actions: Seq<PreparedAction>, i: int)
    requires
        0 <= i < actions.len(),
        applied_effects(actions.take(i)).len() <= applied_effects(actions).len(),
        applied_effects(actions.take(i)) == applied_effects(actions).take(applied_effects(actions.take(i)).len() as int),
    ensures
        actions.take(i + 1).drop_last() == actions.take(i),
        applied_effects(actions.take(i + 1)) == match actions[i].kind {
            PreparedActionKind::ApplyEffect { effect_id, .. } => applied_effects(actions.take(i)).push(effect_id),
            PreparedActionKind::EndAbility => applied_effects(actions.take(i)),
        },
        applied_effects(actions.take(i + 1)).len() <= applied_effects(actions).len(),
        applied_effects(actions.take(i + 1)) == applied_effects(actions).take(applied_effects(actions.take(i + 1)).len() as int),
{
    assert(actions.take(i + 1).drop_last() =~= actions.take(i));
    lemma_applied_take(actions, i + 1);
}

proof fn lemma_applied_take(actions: Seq<PreparedAction>, n: int)
    requires
        0 <= n <= actions.len(),
    ensures
        applied_effects(actions.take(n)).len() <= applied_effects(actions).len(),
        applied_effects(actions.take(n)) == applied_effects(actions).take(applied_effects(actions.take(n)).len() as int),
    decreases actions.len() - n,
{
    if n == actions.len() {
        assert(actions.take(n) =~= actions);
        assert(applied_effects(actions).take(applied_effects(actions).len() as int) =~= applied_effects(actions));
    } else {
        lemma_applied_take(actions, n + 1);
        assert(actions.take(n + 1).drop_last() =~= actions.take(n));
        let shorter = applied_effects(actions.take(n));
        let longer = applied_effects(actions.take(n + 1));
        assert(longer.take(shorter.len() as int) =~= shorter);
        assert(applied_effects(actions).take(shorter.len() as int) =~= longer.take(shorter.len() as int));
    }
}

/// The first text of the heading: the ability and targeting lines, up to the radius.
fn heading_start(ability: &Ability, target: &Targeting, level: u32) -> (first: String)
    ensures
        first@ == "Ability "@ + decimal(ability.deep_view().id as int) + ": "@ + ability.deep_view().name + " | level "@
            + decimal(level as int) + "/"@ + decimal(ability.deep_view().max_level as int) + "\n"@ + "Targeting "@
            + decimal(target.deep_view().id as int) + ": "@ + target.deep_view().name + " | "@
            + target.deep_view().selection.spec_label() + "\n"@ + "  radius="@,
{
    let ghost a = ability.deep_view();
    let ghost r = target.deep_view();
    let mut first = String::new();
    push_str(&mut first, "Ability ");
    push_signed(&mut first, ability.id as i64);
    push_str(&mut first, ": ");
    push_str(&mut first, ability.name.as_str());
    push_str(&mut first, " | level ");
    push_unsigned(&mut first, level as u64);
    push_str(&mut first, "/");
    push_signed(&mut first, ability.max_level as i64);
    push_str(&mut first, "\n");
    push_str(&mut first, "Targeting ");
    push_signed(&mut first, target.id as i64);
    push_str(&mut first, ": ");
    push_str(&mut first, target.name.as_str());
    push_str(&mut first, " | ");
    push_str(&mut first, target.selection.label());
    push_str(&mut first, "\n");
    push_str(&mut first, "  radius=");
    assert(first@ =~= "Ability "@ + decimal(a.id as int) + ": "@ + a.name + " | level "@
        + decimal(level as int) + "/"@ + decimal(a.max_level as int) + "\n"@ + "Targeting "@
        + decimal(r.id as int) + ": "@ + r.name + " | "@ + r.selection.spec_label() + "\n"@
        + "  radius="@);
    first
}

/// The last text of the heading: sorting, tags and instancing.
fn heading_end(ability: &Ability, target: &Targeting) -> (rest: String)
    ensures
        rest@ == ", sort="@ + target.deep_view().sort.spec_label() + ", limit="@ + decimal(target.deep_view().limit as int)
            + "\n"@ + "  exclude_source="@ + bool_text(target.deep_view().exclude_source) + ", require_attributes="@
            + bool_text(target.deep_view().require_attributes) + ", required_tags="@ + name_list_text(target.deep_view().required_tags)
            + ", blocked_tags="@ + name_list_text(target.deep_view().blocked_tags) + "\n"@ + "Ability tags: "@
            + name_list_text(ability.deep_view().asset_tags) + " | required="@ + name_list_text(ability.deep_view().required_tags)
            + " | blocked="@ + name_list_text(ability.deep_view().blocked_tags) + "\n"@ + "Multiple instances: "@
            + bool_text(ability.deep_view().allow_multiple_instances) + "\n"@
            + "Activation commits cost and cooldown to the owner and captures targets once.\n"@,
{
    let ghost a = ability.deep_view();
    let ghost r = target.deep_view();
    let mut rest = String::new();
    push_str(&mut rest, ", sort=");
    push_str(&mut rest, target.sort.label());
    push_str(&mut rest, ", limit=");
    push_signed(&mut rest, target.limit as i64);
    push_str(&mut rest, "\n");
    push_str(&mut rest, "  exclude_source=");
    push_bool(&mut rest, target.exclude_source);
    push_str(&mut rest, ", require_attributes=");
    push_bool(&mut rest, target.require_attributes);
    push_str(&mut rest, ", required_tags=");
    push_name_list(&mut rest, &target.required_tags);
    push_str(&mut rest, ", blocked_tags=");
    push_name_list(&mut rest, &target.blocked_tags);
    push_str(&mut rest, "\n");
    push_str(&mut rest, "Ability tags: ");
    push_name_list(&mut rest, &ability.asset_tags);
    push_str(&mut rest, " | required=");
    push_name_list(&mut rest, &ability.required_tags);
    push_str(&mut rest, " | blocked=");
    push_name_list(&mut rest, &ability.blocked_tags);
    push_str(&mut rest, "\n");
    push_str(&mut rest, "Multiple instances: ");
    push_bool(&mut rest, ability.allow_multiple_instances);
    push_str(&mut rest, "\n");
    push_str(&mut rest, "Activation commits cost and cooldown to the owner and captures targets once.\n");
    assert(rest@ =~= ", sort="@ + r.sort.spec_label() + ", limit="@ + decimal(r.limit as int)
        + "\n"@ + "  exclude_source="@ + bool_text(r.exclude_source) + ", require_attributes="@
        + bool_text(r.require_attributes) + ", required_tags="@ + name_list_text(r.required_tags)
        + ", blocked_tags="@ + name_list_text(r.blocked_tags) + "\n"@ + "Ability tags: "@
        + name_list_text(a.asset_tags) + " | required="@ + name_list_text(a.required_tags)
        + " | blocked="@ + name_list_text(a.blocked_tags) + "\n"@ + "Multiple instances: "@
        + bool_text(a.allow_multiple_instances) + "\n"@
        + "Activation commits cost and cooldown to the owner and captures targets once.\n"@);
    rest
}

fn push_heading(parts: &mut Vec<ReportPart>, ability: &Ability, target: &Targeting, level: u32)
    ensures
        final(parts).deep_view() == old(parts).deep_view() + heading_parts(ability.deep_view(), target.deep_view(), level),
{
    let ghost a = ability.deep_view();
    let ghost r = target.deep_view();
    let ghost start = parts.deep_view();
    let first = heading_start(ability, target, level);
    push_part(parts, ReportPart::Text(first));
    push_part(parts, ReportPart::OptionalFloat(match target.radius { Some(v) => Some(v.0), None => None }));
    push_part(parts, ReportPart::Text(owned_text(", half_angle_radians=")));
    push_part(parts, ReportPart::OptionalFloat(match target.half_angle_radians { Some(v) => Some(v.0), None => None }));
    push_part(parts, ReportPart::Text(owned_text(", max_distance=")));
    push_part(parts, ReportPart::OptionalFloat(match target.max_distance { Some(v) => Some(v.0), None => None }));
    let rest = heading_end(ability, target);
    push_part(parts, ReportPart::Text(rest));
    assert(parts.deep_view() =~= start + heading_parts(a, r, level));
}

fn owned_text(t: &str) -> (s: String)
    ensures
        s@ == t@,
{
    let mut s = String::new();
    push_str(&mut s, t);
    assert(s@ =~= t@);
    s
}

/// Describes ability `id` at `level` from prepared tables; the caller has checked
/// that they pass validation.
fn describe_prepared(prepared: &PreparedTables, id: AbilityId, level: u32) -> (res: Result<AbilityReport, ConfigError>)
    ensures
        match spec_describe(prepared.source(), prepared@, id.0, level) {
            Err(s) => res matches Err(e) && reports(e@, s),
            Ok(parts) => res matches Ok(r) && r.level == level && r.parts.deep_view() == parts,
        },
{
    let ghost t = prepared.source();
    let ghost p = prepared@;
    let tables = prepared.tables();
    let ability = match tables.tb_ability.get(id.0) {
        Some(a) => a,
        None => return Err(ConfigError::new(ConfigErrorKind::UnknownAbility, row_location("Ability", id.0), "unknown ability")),
    };
    if level == 0 || level > ability.max_level as u32 {
        let mut message = owned("level ");
        push_unsigned(&mut message, level as u64);
        push_str(&mut message, " is outside 1..=");
        push_signed(&mut message, ability.max_level as i64);
        return Err(ConfigError::with_message(ConfigErrorKind::UnsupportedLevel, row_field_location("Ability", id.0, "level"), message));
    }
    let target = match tables.tb_targeting.get(ability.targeting_id) {
        Some(r) => r,
        None => return Err(ConfigError::new(ConfigErrorKind::Reference, row_field_location("Ability", id.0, "targeting_id"), "unknown targeting")),
    };
    let ghost a = ability.deep_view();
    let actions = prepared.actions(ability.id);
    let ids = shown_ids(ability, actions);
    check_shown_effects(prepared, &ids)?;
    proof {
        lemma_no_failure(shown_effect_check(t, ids@), ids@.len());
        let roles = optional_ids(a.cost_effect_id) + optional_ids(a.cooldown_effect_id);
        let applied = applied_effects(actions@);
        assert(ids@ == roles + applied);
        assert forall|k: int| 0 <= k < applied.len() implies has_effect(t, #[trigger] applied[k]) by {
            assert(ids@[roles.len() + k] == applied[k]);
            assert(shown_effect_check(t, ids@)(roles.len() + k) is None);
        }
        if a.cost_effect_id is Some {
            assert(ids@[0] == a.cost_effect_id.unwrap());
            assert(shown_effect_check(t, ids@)(0) is None);
        }
        if a.cooldown_effect_id is Some {
            let k = optional_ids(a.cost_effect_id).len() as int;
            assert(ids@[k] == a.cooldown_effect_id.unwrap());
            assert(shown_effect_check(t, ids@)(k) is None);
        }
    }
    let mut parts: Vec<ReportPart> = Vec::new();
    push_heading(&mut parts, ability, target, level);
    push_role(&mut parts, prepared, "Cost", ability.cost_effect_id);
    push_role(&mut parts, prepared, "Cooldown", ability.cooldown_effect_id);
    push_costs(&mut parts, prepared.additional_costs(ability.id));
    push_actions(&mut parts, prepared, actions);
    assert(parts.deep_view() =~= report_parts(t, p, a, target.deep_view(), level));
    Ok(AbilityReport { level, parts })
}

/// The effect IDs the report shows, in report order.
fn shown_ids(ability: &Ability, actions: &[PreparedAction]) -> (ids: Vec<i32>)
    ensures
        ids@ == shown_effect_ids(ability.deep_view(), actions@),
{
    let ghost a = ability.deep_view();
    let mut ids: Vec<i32> = Vec::new();
    if let Some(c) = ability.cost_effect_id {
        ids.push(c);
    }
    if let Some(c) = ability.cooldown_effect_id {
        ids.push(c);
    }
    let ghost head = optional_ids(a.cost_effect_id) + optional_ids(a.cooldown_effect_id);
    assert(ids@ =~= head + applied_effects(actions@.take(0)));
    let mut i: usize = 0;
    while i < actions.len()
        invariant
            i <= actions@.len(),
            ids@ == head + applied_effects(actions@.take(i as int)),
        decreases actions@.len() - i,
    {
        assert(actions@.take(i + 1).drop_last() =~= actions@.take(i as int));
        match actions[i].kind {
            PreparedActionKind::ApplyEffect { effect_id, .. } => {
                ids.push(effect_id);
                assert(ids@ =~= head + applied_effects(actions@.take(i + 1)));
            },
            PreparedActionKind::EndAbility => {},
        }
        i = i + 1;
    }
    assert(actions@.take(actions@.len() as int) =~= actions@);
    ids
}

/// Checks that every shown effect has an effect row, in report order.
fn check_shown_effects(prepared: &PreparedTables, ids: &Vec<i32>) -> (res: Result<(), ConfigError>)
    ensures
        match first_failure(shown_effect_check(prepared.source(), ids@), ids@.len()) {
            Some(l) => res matches Err(e) && reports(e@, site_with(ConfigErrorKind::Reference, l, "unknown effect"@)),
            None => res is Ok,
        },
{
    let ghost t = prepared.source();
    let mut i: usize = 0;
    while i < ids.len()
        invariant
            t == prepared.source(),
            i <= ids@.len(),
            first_failure(shown_effect_check(t, ids@), i as nat) is None,
        decreases ids@.len() - i,
    {
        if prepared.tables().tb_effect.get(ids[i]).is_none() {
            proof {
                lemma_failure_persists(shown_effect_check(t, ids@), (i + 1) as nat, ids@.len());
            }
            return Err(ConfigError::new(ConfigErrorKind::Reference, row_location("Effect", ids[i]), "unknown effect"));
        }
        i = i + 1;
    }
    Ok(())
}


/// Describes ability `id` at `level` once the tables prepare and pass validation
/// against `capacity`: its targeting, tags, cost and cooldown effects with their
/// modifiers, external costs and ordered timeline. Unknown abilities, levels
/// outside `1..=max_level` and failing tables give an error.
pub fn describe_ability_at_level(tables: &Tables, id: AbilityId, level: u32, capacity: GasCapacity) -> (res: Result<AbilityReport, ConfigError>)
    ensures
        match describe_result(tables.deep_view(), capacity, id.0, level) {
            Err(s) => res matches Err(e) && reports(e@, s),
            Ok(parts) => res matches Ok(r) && r.level == level && r.parts.deep_view() == parts,
        },
{
    let prepared = PreparedTables::new(tables)?;
    validate_prepared(&prepared, capacity)?;
    describe_prepared(&prepared, id, level)
}

/// Describes ability `id` at level one, as [`describe_ability_at_level`] does.
pub fn describe_ability(tables: &Tables, id: AbilityId, capacity: GasCapacity) -> (res: Result<AbilityReport, ConfigError>)
    ensures
        match describe_result(tables.deep_view(), capacity, id.0, 1) {
            Err(s) => res matches Err(e) && reports(e@, s),
            Ok(parts) => res matches Ok(r) && r.level == 1 && r.parts.deep_view() == parts,
        },
{
    describe_ability_at_level(tables, id, 1, capacity)
}

} // verus!
