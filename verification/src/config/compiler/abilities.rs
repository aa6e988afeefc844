//! Ability definitions: startup task batches grouped by tick, cost and cooldown
//! effects, targeting and the supported level range.

use super::preparation::{
    PreparedAction, PreparedActionKind, PreparedTables, PreparedTargetScope, PreparedView,
    action_before, actions_of, has_effect, lemma_prepared_timeline_sorted, spec_prepare,
};
use super::registration::{resolve_tags, tag_resolution_failure};
use super::validation::{first_failure, id_row, lemma_failure_persists, row_field};
use crate::config::error::{
    ConfigError, ConfigErrorKind, ErrorSite, LocationView, reports, row_field_location,
    row_location, site_with,
};
use crate::config::generated::{Ability, AbilityView, RowKey, Targeting, TablesView, row_with_key};
use crate::config::text::owned;
use vstd::prelude::*;

verus! {

/// What a startup task does when its tick arrives.
#[derive(Debug, Clone, Copy, PartialEq, Eq, Structural)]
pub enum TaskAction {
    /// Ends the ability.
    EndAbility,
    /// Applies effect `0` to the primary target.
    ApplyToTarget(i32),
    /// Applies effect `0` to every captured target.
    ApplyToTargets(i32),
}

/// The actions that run together at one tick after activation (zero: at startup).
#[derive(Debug)]
pub struct TaskBatch {
    /// The tick after activation.
    pub tick: u32,
    /// The actions, in timeline order.
    pub actions: Vec<TaskAction>,
}

impl DeepView for TaskBatch {
    type V = (u32, Seq<TaskAction>);

    open spec fn deep_view(&self) -> (u32, Seq<TaskAction>) {
        (self.tick, self.actions@)
    }
}

/// The mathematical content of an [`AbilityPlan`].
pub struct AbilityPlanView {
    pub id: i32,
    pub name: Seq<char>,
    pub max_level: u32,
    pub tasks: Seq<(u32, Seq<TaskAction>)>,
    pub cost_effect_id: Option<i32>,
    pub cooldown_effect_id: Option<i32>,
    pub targeting_id: i32,
    pub allow_multiple_instances: bool,
}

/// Everything one shared ability definition is built from, besides its tags and
/// external costs.
#[derive(Debug)]
pub struct AbilityPlan {
    /// The authored ability ID.
    pub id: i32,
    /// The authored display name.
    pub name: String,
    /// The maximum supported level.
    pub max_level: u32,
    /// The startup task batches, ascending by tick.
    pub tasks: Vec<TaskBatch>,
    /// The effect paid on activation.
    pub cost_effect_id: Option<i32>,
    /// The effect applied as cooldown.
    pub cooldown_effect_id: Option<i32>,
    /// The targeting pipeline run before activation.
    pub targeting_id: i32,
    /// Whether several instances may run at once.
    pub allow_multiple_instances: bool,
}

impl DeepView for AbilityPlan {
    type V = AbilityPlanView;

    open spec fn deep_view(&self) -> AbilityPlanView {
        AbilityPlanView {
            id: self.id,
            name: self.name@,
            max_level: self.max_level,
            tasks: self.tasks.deep_view(),
            cost_effect_id: self.cost_effect_id,
            cooldown_effect_id: self.cooldown_effect_id,
            targeting_id: self.targeting_id,
            allow_multiple_instances: self.allow_multiple_instances,
        }
    }
}

// ---------------------------------------------------------------------------
// Specification

/// The task action of a prepared action.
pub open spec fn task_action(k: PreparedActionKind) -> TaskAction {
    match k {
        PreparedActionKind::EndAbility => TaskAction::EndAbility,
        PreparedActionKind::ApplyEffect { effect_id, scope } => match scope {
            PreparedTargetScope::Primary => TaskAction::ApplyToTarget(effect_id),
            PreparedTargetScope::AllCaptured => TaskAction::ApplyToTargets(effect_id),
        },
    }
}

/// `a` appended to the batch at `tick`, or a new batch placed before the first
/// batch with a later tick.
pub open spec fn add_to_batches(s: Seq<(u32, Seq<TaskAction>)>, tick: u32, a: TaskAction) -> Seq<(u32, Seq<TaskAction>)>
    decreases s.len(),
{
    if s.len() == 0 {
        seq![(tick, seq![a])]
    } else if s[0].0 == tick {
        seq![(tick, s[0].1.push(a))] + s.drop_first()
    } else if tick < s[0].0 {
        seq![(tick, seq![a])] + s
    } else {
        seq![s[0]] + add_to_batches(s.drop_first(), tick, a)
    }
}

/// The actions grouped by tick, ascending, each batch in timeline order.
pub open spec fn task_batches(actions: Seq<PreparedAction>) -> Seq<(u32, Seq<TaskAction>)>
    decreases actions.len(),
{
    if actions.len() == 0 {
        Seq::empty()
    } else {
        add_to_batches(task_batches(actions.drop_last()), actions.last().tick, task_action(actions.last().kind))
    }
}

/// Action `i` applies an effect without an effect row.
pub open spec fn task_effect_check(t: TablesView, actions: Seq<PreparedAction>) -> spec_fn(int) -> Option<LocationView> {
    |i: int| match actions[i].kind {
        PreparedActionKind::ApplyEffect { effect_id, .. } => if has_effect(t, effect_id) {
            None
        } else {
            Some(id_row("Effect"@, effect_id))
        },
        PreparedActionKind::EndAbility => None,
    }
}

/// The first unresolved tag of the ability's tag lists, in authored field order.
pub open spec fn ability_tags_failure(registered: Seq<Seq<char>>, a: AbilityView) -> Option<LocationView> {
    if tag_resolution_failure(registered, a.asset_tags) is Some {
        tag_resolution_failure(registered, a.asset_tags)
    } else if tag_resolution_failure(registered, a.required_tags) is Some {
        tag_resolution_failure(registered, a.required_tags)
    } else if tag_resolution_failure(registered, a.blocked_tags) is Some {
        tag_resolution_failure(registered, a.blocked_tags)
    } else if tag_resolution_failure(registered, a.cancel_ability_tags) is Some {
        tag_resolution_failure(registered, a.cancel_ability_tags)
    } else {
        tag_resolution_failure(registered, a.block_ability_tags)
    }
}

/// The first failure of compiling ability row `a`, given the registered tag names.
pub open spec fn ability_plan_failure(t: TablesView, p: PreparedView, registered: Seq<Seq<char>>, a: AbilityView) -> Option<ErrorSite> {
    let table = "Ability"@;
    let actions = actions_of(t, p, a.id);
    let tags = ability_tags_failure(registered, a);
    let tasks = first_failure(task_effect_check(t, actions), actions.len());
    if tags is Some {
        Some(site_with(ConfigErrorKind::Reference, tags.unwrap(), "unresolved registered tag"@))
    } else if tasks is Some {
        Some(site_with(ConfigErrorKind::Reference, tasks.unwrap(), "unresolved effect reference"@))
    } else if a.cost_effect_id matches Some(c) && !has_effect(t, c) {
        Some(site_with(ConfigErrorKind::Reference, id_row("Effect"@, a.cost_effect_id.unwrap()), "unresolved effect reference"@))
    } else if a.cooldown_effect_id matches Some(c) && !has_effect(t, c) {
        Some(site_with(ConfigErrorKind::Reference, id_row("Effect"@, a.cooldown_effect_id.unwrap()), "unresolved effect reference"@))
    } else if row_with_key::<Targeting>(t.targetings, RowKey::Id(a.targeting_id)) is None {
        Some(site_with(ConfigErrorKind::Reference, row_field(table, a.id, "targeting_id"@), "unresolved targeting"@))
    } else if a.max_level <= 0 {
        Some(site_with(ConfigErrorKind::InvalidValue, row_field(table, a.id, "max_level"@), "maximum level must be positive"@))
    } else {
        None
    }
}

/// What ability row `a` compiles to.
pub open spec fn spec_ability_plan(t: TablesView, p: PreparedView, a: AbilityView) -> AbilityPlanView {
    AbilityPlanView {
        id: a.id,
        name: a.name,
        max_level: a.max_level as u32,
        tasks: task_batches(actions_of(t, p, a.id)),
        cost_effect_id: a.cost_effect_id,
        cooldown_effect_id: a.cooldown_effect_id,
        targeting_id: a.targeting_id,
        allow_multiple_instances: a.allow_multiple_instances,
    }
}

/// Checks of compiling the ability rows, in row order.
pub open spec fn ability_plans_check(t: TablesView, p: PreparedView, registered: Seq<Seq<char>>) -> spec_fn(int) -> Option<ErrorSite> {
    |i: int| ability_plan_failure(t, p, registered, t.abilities[i])
}

// ---------------------------------------------------------------------------
// Construction

proof fn lemma_add_to_batches_at(s: Seq<(u32, Seq<TaskAction>)>, tick: u32, a: TaskAction, j: int)
    requires
        0 <= j <= s.len(),
        forall|k: int| 0 <= k < j ==> s[k].0 < tick,
        j == s.len() || s[j].0 >= tick,
    ensures
        add_to_batches(s, tick, a) == (if j == s.len() {
            s.push((tick, seq![a]))
        } else if s[j].0 == tick {
            s.update(j, (tick, s[j].1.push(a)))
        } else {
            s.insert(j, (tick, seq![a]))
        }),
    decreases j,
{
    if j == 0 {
        if s.len() == 0 {
            assert(seq![(tick, seq![a])] =~= s.push((tick, seq![a])));
        } else if s[0].0 == tick {
            assert(seq![(tick, s[0].1.push(a))] + s.drop_first() =~= s.update(0, (tick, s[0].1.push(a))));
        } else {
            assert(seq![(tick, seq![a])] + s =~= s.insert(0, (tick, seq![a])));
        }
    } else {
        let rest = s.drop_first();
        lemma_add_to_batches_at(rest, tick, a, j - 1);
        if j == s.len() {
            assert(seq![s[0]] + rest.push((tick, seq![a])) =~= s.push((tick, seq![a])));
        } else if s[j].0 == tick {
            assert(seq![s[0]] + rest.update(j - 1, (tick, s[j].1.push(a))) =~= s.update(j, (tick, s[j].1.push(a))));
        } else {
            assert(seq![s[0]] + rest.insert(j - 1, (tick, seq![a])) =~= s.insert(j, (tick, seq![a])));
        }
    }
}

/// The actions of the batches, batch after batch.
pub open spec fn batch_actions(b: Seq<(u32, Seq<TaskAction>)>) -> Seq<TaskAction>
    decreases b.len(),
{
    if b.len() == 0 {
        Seq::empty()
    } else {
        batch_actions(b.drop_last()) + b.last().1
    }
}

/// The batches have strictly ascending ticks, and none is empty.
pub open spec fn batches_ascending(b: Seq<(u32, Seq<TaskAction>)>) -> bool {
    &&& forall|i: int, j: int| 0 <= i < j < b.len() ==> (#[trigger] b[i]).0 < (#[trigger] b[j]).0
    &&& forall|i: int| 0 <= i < b.len() ==> (#[trigger] b[i]).1.len() > 0
}

/// No action has an earlier tick than an action before it.
pub open spec fn ticks_nondecreasing(actions: Seq<PreparedAction>) -> bool {
    forall|i: int, j: int| 0 <= i < j < actions.len() ==> (#[trigger] actions[i]).tick <= (#[trigger] actions[j]).tick
}

/// The task actions of a timeline, in timeline order.
pub open spec fn timeline_task_actions(actions: Seq<PreparedAction>) -> Seq<TaskAction> {
    Seq::new(actions.len(), |i: int| task_action(actions[i].kind))
}

proof fn lemma_add_at_end(b: Seq<(u32, Seq<TaskAction>)>, tick: u32, x: TaskAction)
    requires
        batches_ascending(b),
        b.len() == 0 || b.last().0 <= tick,
    ensures
        add_to_batches(b, tick, x) == (if b.len() > 0 && b.last().0 == tick {
            b.update(b.len() - 1, (tick, b.last().1.push(x)))
        } else {
            b.push((tick, seq![x]))
        }),
{
    if b.len() > 0 && b.last().0 == tick {
        assert forall|k: int| 0 <= k < b.len() - 1 implies b[k].0 < tick by {
            assert(b[k].0 < b[b.len() - 1].0);
        }
        lemma_add_to_batches_at(b, tick, x, b.len() - 1);
    } else {
        assert forall|k: int| 0 <= k < b.len() implies b[k].0 < tick by {
            if k < b.len() - 1 {
                assert(b[k].0 < b[b.len() - 1].0);
            }
        }
        lemma_add_to_batches_at(b, tick, x, b.len() as int);
    }
}

/// On a timeline in tick order, the task batches have strictly ascending ticks,
/// none is empty, the last has the last action's tick, and taken batch after
/// batch they hold every action in timeline order.
pub proof fn lemma_task_batches(actions: Seq<PreparedAction>)
    requires
        ticks_nondecreasing(actions),
    ensures
        batches_ascending(task_batches(actions)),
        batch_actions(task_batches(actions)) == timeline_task_actions(actions),
        actions.len() > 0 ==> task_batches(actions).len() > 0 && task_batches(actions).last().0 == actions.last().tick,
    decreases actions.len(),
{
    if actions.len() == 0 {
        assert(timeline_task_actions(actions) =~= Seq::<TaskAction>::empty());
    } else {
        let rest = actions.drop_last();
        let a = actions.last();
        let x = task_action(a.kind);
        assert forall|i: int, j: int| 0 <= i < j < rest.len() implies (#[trigger] rest[i]).tick <= (#[trigger] rest[j]).tick by {
            assert(rest[i] == actions[i] && rest[j] == actions[j]);
        }
        lemma_task_batches(rest);
        let b = task_batches(rest);
        if rest.len() > 0 {
            assert(rest.last() == actions[actions.len() - 2]);
            assert(actions[actions.len() - 2].tick <= actions[actions.len() - 1].tick);
        }
        lemma_add_at_end(b, a.tick, x);
        let n = task_batches(actions);
        assert(timeline_task_actions(actions) =~= timeline_task_actions(rest).push(x));
        if b.len() > 0 && b.last().0 == a.tick {
            assert(n.drop_last() =~= b.drop_last());
            assert(batch_actions(n) =~= batch_actions(b.drop_last()) + b.last().1.push(x));
            assert(batch_actions(b) == batch_actions(b.drop_last()) + b.last().1);
            assert(batch_actions(n) =~= batch_actions(b).push(x));
            assert forall|i: int, j: int| 0 <= i < j < n.len() implies (#[trigger] n[i]).0 < (#[trigger] n[j]).0 by {
                assert(n[i].0 == b[i].0 && n[j].0 == b[j].0);
            }
            assert forall|i: int| 0 <= i < n.len() implies (#[trigger] n[i]).1.len() > 0 by {
                if i < n.len() - 1 {
                    assert(n[i] == b[i]);
                }
            }
        } else {
            assert(n.drop_last() =~= b);
            assert(batch_actions(n) =~= batch_actions(b) + seq![x]);
            assert(batch_actions(b) + seq![x] =~= batch_actions(b).push(x));
            assert forall|i: int, j: int| 0 <= i < j < n.len() implies (#[trigger] n[i]).0 < (#[trigger] n[j]).0 by {
                if j == n.len() - 1 {
                    assert(n[j].0 == a.tick);
                    assert(n[i] == b[i]);
                    if i < b.len() - 1 {
                        assert(b[i].0 < b[b.len() - 1].0);
                    }
                } else {
                    assert(n[i] == b[i] && n[j] == b[j]);
                }
            }
            assert forall|i: int| 0 <= i < n.len() implies (#[trigger] n[i]).1.len() > 0 by {
                if i < n.len() - 1 {
                    assert(n[i] == b[i]);
                }
            }
        }
    }
}

/// The task batches of every prepared timeline have strictly ascending ticks and,
/// batch after batch, hold every action of the timeline in order.
pub proof fn lemma_prepared_task_batches(t: TablesView, p: PreparedView, id: i32)
    requires
        spec_prepare(t) == Ok::<PreparedView, ErrorSite>(p),
    ensures
        batches_ascending(task_batches(actions_of(t, p, id))),
        batch_actions(task_batches(actions_of(t, p, id))) == timeline_task_actions(actions_of(t, p, id)),
{
    let actions = actions_of(t, p, id);
    lemma_prepared_timeline_sorted(t, p, id);
    assert forall|i: int, j: int| 0 <= i < j < actions.len() implies (#[trigger] actions[i]).tick <= (#[trigger] actions[j]).tick by {
        assert(!action_before(actions[j], actions[i]));
    }
    lemma_task_batches(actions);
}

fn add_to_batch(batches: &mut Vec<TaskBatch>, tick: u32, a: TaskAction)
    ensures
        final(batches).deep_view() == add_to_batches(old(batches).deep_view(), tick, a),
{
    let ghost d = batches.deep_view();
    let mut j: usize = 0;
    while j < batches.len() && batches[j].tick < tick
        invariant
            j <= batches@.len(),
            batches.deep_view() == d,
            forall|k: int| 0 <= k < j ==> d[k].0 < tick,
        decreases batches@.len() - j,
    {
        assert(d[j as int] == batches@[j as int].deep_view());
        j = j + 1;
    }
    if j < batches.len() {
        assert(d[j as int] == batches@[j as int].deep_view());
    }
    proof {
        lemma_add_to_batches_at(d, tick, a, j as int);
    }
    if j == batches.len() {
        let mut actions: Vec<TaskAction> = Vec::new();
        actions.push(a);
        let batch = TaskBatch { tick, actions };
        assert(batch.deep_view().1 =~= seq![a]);
        batches.push(batch);
        assert(batches.deep_view() =~= d.push((tick, seq![a])));
    } else if batches[j].tick == tick {
        let mut batch = batches.remove(j);
        let ghost old_actions = batch.actions@;
        batch.actions.push(a);
        assert(batch.deep_view() == (tick, old_actions.push(a)));
        batches.insert(j, batch);
        assert(batches.deep_view() =~= d.update(j as int, (tick, d[j as int].1.push(a))));
    } else {
        let mut actions: Vec<TaskAction> = Vec::new();
        actions.push(a);
        let batch = TaskBatch { tick, actions };
        assert(batch.deep_view().1 =~= seq![a]);
        batches.insert(j, batch);
        assert(batches.deep_view() =~= d.insert(j as int, (tick, seq![a])));
    }
}

/// Groups the ability's ordered timeline into task batches by tick, checking that
/// every applied effect has an effect row.
pub fn plan_tasks(prepared: &PreparedTables, ability_id: i32) -> (res: Result<Vec<TaskBatch>, ConfigError>)
    ensures
        match first_failure(task_effect_check(prepared.source(), actions_of(prepared.source(), prepared@, ability_id)), actions_of(prepared.source(), prepared@, ability_id).len()) {
            Some(l) => res matches Err(e) && reports(e@, site_with(ConfigErrorKind::Reference, l, "unresolved effect reference"@)),
            None => res matches Ok(batches) && batches.deep_view() == task_batches(actions_of(prepared.source(), prepared@, ability_id)),
        },
{
    let ghost t = prepared.source();
    let actions = prepared.actions(ability_id);
    let tables = prepared.tables();
    let mut batches: Vec<TaskBatch> = Vec::new();
    let mut i: usize = 0;
    assert(batches.deep_view() =~= task_batches(actions@.take(0)));
    while i < actions.len()
        invariant
            t == prepared.source(),
            t == tables.deep_view(),
            actions@ == actions_of(prepared.source(), prepared@, ability_id),
            i <= actions@.len(),
            first_failure(task_effect_check(t, actions@), i as nat) is None,
            batches.deep_view() == task_batches(actions@.take(i as int)),
        decreases actions@.len() - i,
    {
        let action = actions[i];
        if let PreparedActionKind::ApplyEffect { effect_id, .. } = action.kind {
            if tables.tb_effect.get(effect_id).is_none() {
                proof {
                    lemma_failure_persists(task_effect_check(t, actions@), (i + 1) as nat, actions@.len());
                }
                return Err(ConfigError::new(ConfigErrorKind::Reference, row_location("Effect", effect_id), "unresolved effect reference"));
            }
        }
        let step = match action.kind {
            PreparedActionKind::EndAbility => TaskAction::EndAbility,
            PreparedActionKind::ApplyEffect { effect_id, scope } => match scope {
                PreparedTargetScope::Primary => TaskAction::ApplyToTarget(effect_id),
                PreparedTargetScope::AllCaptured => TaskAction::ApplyToTargets(effect_id),
            },
        };
        assert(actions@.take(i + 1).drop_last() =~= actions@.take(i as int));
        add_to_batch(&mut batches, action.tick, step);
        i = i + 1;
    }
    assert(actions@.take(actions@.len() as int) =~= actions@);
    Ok(batches)
}

fn check_effect_exists(prepared: &PreparedTables, id: Option<i32>) -> (res: Result<(), ConfigError>)
    ensures
        match id {
            Some(c) => if has_effect(prepared.source(), c) {
                res is Ok
            } else {
                res matches Err(e) && reports(e@, site_with(ConfigErrorKind::Reference, id_row("Effect"@, c), "unresolved effect reference"@))
            },
            None => res is Ok,
        },
{
    if let Some(c) = id {
        if prepared.tables().tb_effect.get(c).is_none() {
            return Err(ConfigError::new(ConfigErrorKind::Reference, row_location("Effect", c), "unresolved effect reference"));
        }
    }
    Ok(())
}

fn check_ability_tags(registered: &Vec<String>, row: &Ability) -> (res: Result<(), ConfigError>)
    ensures
        match ability_tags_failure(registered.deep_view(), row.deep_view()) {
            Some(l) => res matches Err(e) && reports(e@, site_with(ConfigErrorKind::Reference, l, "unresolved registered tag"@)),
            None => res is Ok,
        },
{
    resolve_tags(registered, &row.asset_tags)?;
    resolve_tags(registered, &row.required_tags)?;
    resolve_tags(registered, &row.blocked_tags)?;
    resolve_tags(registered, &row.cancel_ability_tags)?;
    resolve_tags(registered, &row.block_ability_tags)
}

/// Compiles ability row `row` against the `registered` tag names.
pub fn plan_ability(prepared: &PreparedTables, registered: &Vec<String>, row: &Ability) -> (res: Result<AbilityPlan, ConfigError>)
    ensures
        match ability_plan_failure(prepared.source(), prepared@, registered.deep_view(), row.deep_view()) {
            Some(s) => res matches Err(e) && reports(e@, s),
            None => res matches Ok(plan) && plan.deep_view() == spec_ability_plan(prepared.source(), prepared@, row.deep_view()),
        },
{
    check_ability_tags(registered, row)?;
    let tasks = plan_tasks(prepared, row.id)?;
    check_effect_exists(prepared, row.cost_effect_id)?;
    check_effect_exists(prepared, row.cooldown_effect_id)?;
    if prepared.tables().tb_targeting.get(row.targeting_id).is_none() {
        return Err(ConfigError::new(ConfigErrorKind::Reference, row_field_location("Ability", row.id, "targeting_id"), "unresolved targeting"));
    }
    if row.max_level <= 0 {
        return Err(ConfigError::new(ConfigErrorKind::InvalidValue, row_field_location("Ability", row.id, "max_level"), "maximum level must be positive"));
    }
    Ok(AbilityPlan {
        id: row.id,
        name: owned(row.name.as_str()),
        max_level: row.max_level as u32,
        tasks,
        cost_effect_id: row.cost_effect_id,
        cooldown_effect_id: row.cooldown_effect_id,
        targeting_id: row.targeting_id,
        allow_multiple_instances: row.allow_multiple_instances,
    })
}

/// Compiles every ability row in row order against the `registered` tag names,
/// stopping at the first failure.
pub fn plan_abilities(prepared: &PreparedTables, registered: &Vec<String>) -> (res: Result<Vec<AbilityPlan>, ConfigError>)
    ensures
        match first_failure(ability_plans_check(prepared.source(), prepared@, registered.deep_view()), prepared.source().abilities.len()) {
            Some(s) => res matches Err(e) && reports(e@, s),
            None => res matches Ok(plans) && plans.deep_view() == Seq::new(prepared.source().abilities.len(), |i: int| spec_ability_plan(prepared.source(), prepared@, prepared.source().abilities[i])),
        },
{
    let ghost t = prepared.source();
    let ghost p = prepared@;
    let ghost r = registered.deep_view();
    let rows = prepared.tables().tb_ability.rows();
    let mut plans: Vec<AbilityPlan> = Vec::new();
    let mut i: usize = 0;
    while i < rows.len()
        invariant
            t == prepared.source(),
            p == prepared@,
            r == registered.deep_view(),
            rows.deep_view() == t.abilities,
            i <= t.abilities.len(),
            first_failure(ability_plans_check(t, p, r), i as nat) is None,
            plans.deep_view() == Seq::new(i as nat, |k: int| spec_ability_plan(t, p, t.abilities[k])),
        decreases t.abilities.len() - i,
    {
        assert(t.abilities[i as int] == rows@[i as int].deep_view());
        match plan_ability(prepared, registered, &rows[i]) {
            Ok(plan) => {
                let ghost before = plans.deep_view();
                let ghost pv = plan.deep_view();
                plans.push(plan);
                assert(plans.deep_view() =~= before.push(pv));
                assert(plans.deep_view() =~= Seq::new((i + 1) as nat, |k: int| spec_ability_plan(t, p, t.abilities[k])));
            },
            Err(e) => {
                proof {
                    lemma_failure_persists(ability_plans_check(t, p, r), (i + 1) as nat, t.abilities.len());
                }
                return Err(e);
            },
        }
        i = i + 1;
    }
    Ok(plans)
}

} // verus!
