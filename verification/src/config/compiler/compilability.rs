//! What authoring validation guarantees to compilation: tables that prepare and
//! pass validation compile against the tags that registration adds, with no
//! effect, targeting or ability row failing.

use super::abilities::{
    ability_plan_failure, ability_plans_check, ability_tags_failure, task_effect_check,
};
use super::effects::{attribute_check, effect_plan_failure, effect_plans_check, f32_exact};
use super::preparation::{
    PreparedActionKind, PreparedModifierView, PreparedView, actions_of, ability_index,
    effect_index, has_effect, lemma_abilities_rows, lemma_order_actions, modifiers_of,
    order_actions, spec_actions_upto, spec_effects_upto, spec_modifiers_upto, spec_prepare,
    spec_prepare_actions, spec_prepare_modifier, spec_prepare_modifiers,
};
use super::planning::catalog_failure;
use super::registration::{
    insert_name, insert_names, registered_tags, tag_resolution_check, tag_resolution_failure,
};
use super::targeting::targeting_plans_check;
use super::validation::{
    GasCapacity, ability_row_failure, ability_rows_check, effect_row_failure, effect_rows_check,
    first_failure, insert_id, insert_ids, lemma_all_pass, lemma_no_failure, modifier_rows_check,
    optional_ids, applied_effects, referenced_effects, references_check, tag_declared,
    tag_expansion, tag_refs_valid, tag_requirements_failure, targeting_rows_check,
    validation_failure,
};
use crate::config::error::ErrorSite;
use crate::config::generated::{
    DurationKind, Modifier, RowKey, Tag, TableRow, TablesView, row_with_key,
};
use crate::config::text::name_chain;
use vstd::prelude::*;

verus! {

broadcast use vstd::seq_lib::group_to_multiset_ensures;

// ---------------------------------------------------------------------------
// Rows found by key

proof fn lemma_row_with_key_member<R: TableRow>(rows: Seq<<R as DeepView>::V>, key: RowKey)
    ensures
        row_with_key::<R>(rows, key) matches Some(r) ==> exists|i: int| 0 <= i < rows.len() && rows[i] == r,
    decreases rows.len(),
{
    if rows.len() > 0 && R::spec_key(rows[0]) != key {
        lemma_row_with_key_member::<R>(rows.drop_first(), key);
        if let Some(r) = row_with_key::<R>(rows, key) {
            let i = choose|i: int| 0 <= i < rows.drop_first().len() && rows.drop_first()[i] == r;
            assert(rows[i + 1] == r);
        }
    }
}

// ---------------------------------------------------------------------------
// Tags

proof fn lemma_insert_name_keeps(s: Seq<Seq<char>>, x: Seq<char>)
    ensures
        insert_name(s, x).contains(x),
        forall|y: Seq<char>| s.contains(y) ==> insert_name(s, x).contains(y),
    decreases s.len(),
{
    if s.len() == 0 {
        assert(insert_name(s, x)[0] == x);
    } else if x == s[0] {
    } else if super::registration::text_less(x, s[0]) {
        let r = insert_name(s, x);
        assert(r[0] == x);
        assert forall|y: Seq<char>| s.contains(y) implies r.contains(y) by {
            let i = choose|i: int| 0 <= i < s.len() && s[i] == y;
            assert(r[i + 1] == y);
        }
    } else {
        let rest = s.drop_first();
        lemma_insert_name_keeps(rest, x);
        let r = insert_name(s, x);
        let inner = insert_name(rest, x);
        assert(r == seq![s[0]] + inner);
        let k = choose|k: int| 0 <= k < inner.len() && inner[k] == x;
        assert(r[k + 1] == x);
        assert forall|y: Seq<char>| s.contains(y) implies r.contains(y) by {
            let i = choose|i: int| 0 <= i < s.len() && s[i] == y;
            if i == 0 {
                assert(r[0] == y);
            } else {
                assert(rest[i - 1] == y);
                assert(rest.contains(y));
                let m = choose|m: int| 0 <= m < inner.len() && inner[m] == y;
                assert(r[m + 1] == y);
            }
        }
    }
}

proof fn lemma_insert_names_keeps(s: Seq<Seq<char>>, xs: Seq<Seq<char>>)
    ensures
        forall|y: Seq<char>| s.contains(y) || xs.contains(y) ==> insert_names(s, xs).contains(y),
    decreases xs.len(),
{
    if xs.len() > 0 {
        let rest = xs.drop_last();
        lemma_insert_names_keeps(s, rest);
        lemma_insert_name_keeps(insert_names(s, rest), xs.last());
        assert forall|y: Seq<char>| s.contains(y) || xs.contains(y) implies insert_names(s, xs).contains(y) by {
            let prev = insert_names(s, rest);
            assert(insert_names(s, xs) == insert_name(prev, xs.last()));
            if y != xs.last() {
                if xs.contains(y) {
                    let i = choose|i: int| 0 <= i < xs.len() && xs[i] == y;
                    assert(rest[i] == y);
                    assert(rest.contains(y));
                }
                assert(prev.contains(y));
            }
        }
    }
}

proof fn lemma_expansion_holds_names(t: TablesView, n: nat)
    requires
        n <= t.tags.len(),
    ensures
        forall|i: int| 0 <= i < n ==> tag_expansion(t, n).contains(#[trigger] t.tags[i].name),
    decreases n,
{
    if n > 0 {
        lemma_expansion_holds_names(t, (n - 1) as nat);
        let before = tag_expansion(t, (n - 1) as nat);
        let chain = name_chain(t.tags[n - 1].name);
        assert(tag_expansion(t, n) == before + chain);
        assert(chain[0] == t.tags[n - 1].name);
        assert(tag_expansion(t, n)[before.len() as int] == t.tags[n - 1].name);
        assert forall|i: int| 0 <= i < n implies tag_expansion(t, n).contains(#[trigger] t.tags[i].name) by {
            if i < n - 1 {
                let k = choose|k: int| 0 <= k < before.len() && before[k] == t.tags[i].name;
                assert(tag_expansion(t, n)[k] == t.tags[i].name);
            }
        }
    }
}

/// A declared tag is registered.
pub proof fn lemma_declared_tag_registered(t: TablesView, name: Seq<char>)
    requires
        tag_declared(t, name),
    ensures
        registered_tags(t).contains(name),
{
    lemma_row_with_key_member::<Tag>(t.tags, RowKey::Name(name));
    let i = choose|i: int| 0 <= i < t.tags.len() && t.tags[i] == row_with_key::<Tag>(t.tags, RowKey::Name(name)).unwrap();
    assert(<Tag as TableRow>::spec_key(t.tags[i]) == RowKey::Name(name)) by {
        lemma_row_with_key_key::<Tag>(t.tags, RowKey::Name(name));
    }
    lemma_expansion_holds_names(t, t.tags.len());
    assert(tag_expansion(t, t.tags.len()).contains(t.tags[i].name));
    lemma_insert_names_keeps(Seq::empty(), tag_expansion(t, t.tags.len()));
}

proof fn lemma_row_with_key_key<R: TableRow>(rows: Seq<<R as DeepView>::V>, key: RowKey)
    ensures
        row_with_key::<R>(rows, key) matches Some(r) ==> R::spec_key(r) == key,
    decreases rows.len(),
{
    if rows.len() > 0 && R::spec_key(rows[0]) != key {
        lemma_row_with_key_key::<R>(rows.drop_first(), key);
    }
}

/// Valid tag references resolve against the registered tags.
pub proof fn lemma_valid_refs_resolve(t: TablesView, tags: Seq<Seq<char>>)
    requires
        tag_refs_valid(t, tags),
    ensures
        tag_resolution_failure(registered_tags(t), tags) is None,
{
    assert forall|i: int| 0 <= i < tags.len() implies #[trigger] tag_resolution_check(registered_tags(t), tags)(i) is None by {
        lemma_declared_tag_registered(t, tags[i]);
    }
    lemma_all_pass(tag_resolution_check(registered_tags(t), tags), tags.len());
}

// ---------------------------------------------------------------------------
// Effects

proof fn lemma_effects_rows(t: TablesView, n: nat)
    ensures
        spec_effects_upto(t, n) matches Ok(m) ==> m.len() == n
            && forall|i: int| 0 <= i < n ==> spec_prepare_modifiers(t, t.effects[i]) == Ok::<Seq<PreparedModifierView>, ErrorSite>(#[trigger] m[i]),
    decreases n,
{
    if n > 0 {
        lemma_effects_rows(t, (n - 1) as nat);
    }
}

proof fn lemma_modifiers_from_rows(t: TablesView, e: crate::config::generated::EffectView, n: nat, ms: Seq<PreparedModifierView>)
    requires
        spec_modifiers_upto(t, e, n) == Ok::<Seq<PreparedModifierView>, ErrorSite>(ms),
    ensures
        forall|j: int| 0 <= j < ms.len() ==>
            exists|i: int| 0 <= i < t.modifiers.len() && t.modifiers[i].attribute == (#[trigger] ms[j]).attribute,
    decreases n,
{
    if n > 0 {
        let id = e.modifier_ids[n - 1];
        lemma_row_with_key_member::<Modifier>(t.modifiers, RowKey::Id(id));
        if let Ok(prev) = spec_modifiers_upto(t, e, (n - 1) as nat) {
            lemma_modifiers_from_rows(t, e, (n - 1) as nat, prev);
            if let Some(row) = row_with_key::<Modifier>(t.modifiers, RowKey::Id(id)) {
                if let Ok(m) = spec_prepare_modifier(row) {
                    assert(ms == prev.push(m));
                    assert forall|j: int| 0 <= j < ms.len() implies exists|i: int| 0 <= i < t.modifiers.len() && t.modifiers[i].attribute == (#[trigger] ms[j]).attribute by {
                        if j < prev.len() {
                            assert(ms[j] == prev[j]);
                        } else {
                            let i = choose|i: int| 0 <= i < t.modifiers.len() && t.modifiers[i] == row;
                            assert(t.modifiers[i].attribute == ms[j].attribute);
                        }
                    }
                }
            }
        }
    }
}

/// Every prepared modifier names the attribute of some modifier row.
proof fn lemma_prepared_modifier_attributes(t: TablesView, p: PreparedView, id: i32)
    requires
        spec_prepare(t) == Ok::<PreparedView, ErrorSite>(p),
    ensures
        forall|j: int| 0 <= j < modifiers_of(t, p, id).len() ==> exists|i: int| 0 <= i < t.modifiers.len()
            && t.modifiers[i].attribute == (#[trigger] modifiers_of(t, p, id)[j]).attribute,
{
    lemma_effects_rows(t, t.effects.len());
    super::preparation::lemma_first_index_bounds(super::preparation::effect_ids(t), id);
    if let Some(k) = effect_index(t, id) {
        reveal(spec_prepare_modifiers);
        let e = t.effects[k];
        let all = p.modifiers;
        assert(spec_effects_upto(t, t.effects.len()) == Ok::<Seq<Seq<PreparedModifierView>>, ErrorSite>(all));
        assert(modifiers_of(t, p, id) == all[k]);
        assert(spec_prepare_modifiers(t, e) == Ok::<Seq<PreparedModifierView>, ErrorSite>(all[k]));
        assert(spec_modifiers_upto(t, e, e.modifier_ids.len()) == Ok::<Seq<PreparedModifierView>, ErrorSite>(all[k]));
        let ms = all[k];
        lemma_modifiers_from_rows(t, e, e.modifier_ids.len(), ms);
        assert forall|j: int| 0 <= j < modifiers_of(t, p, id).len() implies exists|i: int| 0 <= i < t.modifiers.len()
            && t.modifiers[i].attribute == (#[trigger] modifiers_of(t, p, id)[j]).attribute by {
            assert(modifiers_of(t, p, id)[j] == ms[j]);
            let i = choose|i: int| 0 <= i < t.modifiers.len() && t.modifiers[i].attribute == ms[j].attribute;
            assert(t.modifiers[i].attribute == modifiers_of(t, p, id)[j].attribute);
        }
    }
}

proof fn lemma_effect_row_compiles(t: TablesView, p: PreparedView, k: int)
    requires
        spec_prepare(t) == Ok::<PreparedView, ErrorSite>(p),
        0 <= k < t.effects.len(),
        effect_row_failure(t, t.effects[k], super::preparation::effect_ids(t).take(k)) is None,
        forall|i: int| 0 <= i < t.modifiers.len() ==> #[trigger] modifier_rows_check(t)(i) is None,
    ensures
        effect_plan_failure(t, p, registered_tags(t), t.effects[k]) is None,
{
    let e = t.effects[k];
    let ms = modifiers_of(t, p, e.id);
    lemma_prepared_modifier_attributes(t, p, e.id);
    assert forall|j: int| 0 <= j < ms.len() implies #[trigger] attribute_check(t, ms)(j) is None by {
        let i = choose|i: int| 0 <= i < t.modifiers.len() && t.modifiers[i].attribute == ms[j].attribute;
        assert(modifier_rows_check(t)(i) is None);
    }
    lemma_all_pass(attribute_check(t, ms), ms.len());
    lemma_valid_refs_resolve(t, e.asset_tags);
    lemma_valid_refs_resolve(t, e.granted_tags);
    if let Some(d) = e.duration_ticks {
        if e.duration_kind == DurationKind::DurationTicks {
            assert(f32_exact(d as nat));
        }
    }
    if let Some(d) = e.period_ticks {
        assert(f32_exact(d as nat));
    }
}

// ---------------------------------------------------------------------------
// Abilities

proof fn lemma_actions_apply_existing(t: TablesView, a: crate::config::generated::AbilityView, n: nat)
    ensures
        spec_actions_upto(t, a, n) matches Ok(x) ==> forall|j: int| 0 <= j < x.len() ==>
            ((#[trigger] x[j]).kind matches PreparedActionKind::ApplyEffect { effect_id, .. } ==> has_effect(t, effect_id)),
    decreases n,
{
    if n > 0 {
        lemma_actions_apply_existing(t, a, (n - 1) as nat);
    }
}

proof fn lemma_prepared_actions_apply_existing(t: TablesView, p: PreparedView, id: i32)
    requires
        spec_prepare(t) == Ok::<PreparedView, ErrorSite>(p),
    ensures
        forall|j: int| 0 <= j < actions_of(t, p, id).len() ==>
            ((#[trigger] actions_of(t, p, id)[j]).kind matches PreparedActionKind::ApplyEffect { effect_id, .. } ==> has_effect(t, effect_id)),
{
    lemma_abilities_rows(t, t.abilities.len());
    super::preparation::lemma_first_index_bounds(super::preparation::ability_ids(t), id);
    if let Some(k) = ability_index(t, id) {
        let a = t.abilities[k];
        reveal(spec_prepare_actions);
        if let Ok(x) = spec_actions_upto(t, a, a.task_ids.len()) {
            lemma_actions_apply_existing(t, a, a.task_ids.len());
            lemma_order_actions(x);
            let o = order_actions(x);
            assert forall|j: int| 0 <= j < o.len() implies ((#[trigger] o[j]).kind matches PreparedActionKind::ApplyEffect { effect_id, .. } ==> has_effect(t, effect_id)) by {
                assert(o.to_multiset().count(o[j]) > 0);
                assert(x.to_multiset().count(o[j]) > 0);
                assert(x.contains(o[j]));
                let m = choose|m: int| 0 <= m < x.len() && x[m] == o[j];
                assert(x[m] == o[j]);
            }
        }
    }
}

proof fn lemma_insert_id_keeps(s: Seq<i32>, x: i32)
    ensures
        insert_id(s, x).contains(x),
        forall|y: i32| s.contains(y) ==> insert_id(s, x).contains(y),
    decreases s.len(),
{
    if s.len() == 0 {
        assert(insert_id(s, x)[0] == x);
    } else if x == s[0] {
    } else if x < s[0] {
        let r = insert_id(s, x);
        assert(r[0] == x);
        assert forall|y: i32| s.contains(y) implies r.contains(y) by {
            let i = choose|i: int| 0 <= i < s.len() && s[i] == y;
            assert(r[i + 1] == y);
        }
    } else {
        let rest = s.drop_first();
        lemma_insert_id_keeps(rest, x);
        let r = insert_id(s, x);
        let inner = insert_id(rest, x);
        assert(r == seq![s[0]] + inner);
        let k = choose|k: int| 0 <= k < inner.len() && inner[k] == x;
        assert(r[k + 1] == x);
        assert forall|y: i32| s.contains(y) implies r.contains(y) by {
            let i = choose|i: int| 0 <= i < s.len() && s[i] == y;
            if i == 0 {
                assert(r[0] == y);
            } else {
                assert(rest[i - 1] == y);
                assert(rest.contains(y));
                let m = choose|m: int| 0 <= m < inner.len() && inner[m] == y;
                assert(r[m + 1] == y);
            }
        }
    }
}

proof fn lemma_insert_ids_keeps(s: Seq<i32>, xs: Seq<i32>)
    ensures
        forall|y: i32| s.contains(y) || xs.contains(y) ==> insert_ids(s, xs).contains(y),
    decreases xs.len(),
{
    if xs.len() > 0 {
        let rest = xs.drop_last();
        lemma_insert_ids_keeps(s, rest);
        lemma_insert_id_keeps(insert_ids(s, rest), xs.last());
        assert forall|y: i32| s.contains(y) || xs.contains(y) implies insert_ids(s, xs).contains(y) by {
            let prev = insert_ids(s, rest);
            assert(insert_ids(s, xs) == insert_id(prev, xs.last()));
            if y != xs.last() {
                if xs.contains(y) {
                    let i = choose|i: int| 0 <= i < xs.len() && xs[i] == y;
                    assert(rest[i] == y);
                    assert(rest.contains(y));
                }
                assert(prev.contains(y));
            }
        }
    }
}

/// An effect among the ability's referenced effects exists when the reference
/// checks pass.
proof fn lemma_referenced_exists(t: TablesView, p: PreparedView, ids: Seq<i32>, level: u32, owner: crate::config::error::LocationView, id: i32)
    requires
        first_failure(references_check(t, p, ids, level, owner), ids.len()) is None,
        ids.contains(id),
    ensures
        has_effect(t, id),
{
    lemma_no_failure(references_check(t, p, ids, level, owner), ids.len());
    let j = choose|j: int| 0 <= j < ids.len() && ids[j] == id;
    assert(references_check(t, p, ids, level, owner)(j) is None);
}

proof fn lemma_ability_row_compiles(t: TablesView, p: PreparedView, k: int)
    requires
        spec_prepare(t) == Ok::<PreparedView, ErrorSite>(p),
        0 <= k < t.abilities.len(),
        ability_row_failure(t, p, t.abilities[k], super::preparation::ability_ids(t).take(k)) is None,
    ensures
        ability_plan_failure(t, p, registered_tags(t), t.abilities[k]) is None,
{
    let a = t.abilities[k];
    let actions = actions_of(t, p, a.id);
    let owner = super::validation::id_row("Ability"@, a.id);
    lemma_valid_refs_resolve(t, a.asset_tags);
    lemma_valid_refs_resolve(t, a.cancel_ability_tags);
    lemma_valid_refs_resolve(t, a.block_ability_tags);
    assert(tag_requirements_failure(t, a.required_tags, a.blocked_tags, owner) is None);
    lemma_valid_refs_resolve(t, a.required_tags);
    lemma_valid_refs_resolve(t, a.blocked_tags);
    assert(ability_tags_failure(registered_tags(t), a) is None);
    lemma_prepared_actions_apply_existing(t, p, a.id);
    assert forall|j: int| 0 <= j < actions.len() implies #[trigger] task_effect_check(t, actions)(j) is None by {
        assert(actions[j].kind matches PreparedActionKind::ApplyEffect { effect_id, .. } ==> has_effect(t, effect_id));
    }
    lemma_all_pass(task_effect_check(t, actions), actions.len());
    let ids = referenced_effects(a, actions);
    let level = a.max_level as u32;
    let head = optional_ids(a.cost_effect_id) + optional_ids(a.cooldown_effect_id);
    let listed = head + applied_effects(actions);
    lemma_insert_ids_keeps(Seq::empty(), listed);
    if let Some(c) = a.cost_effect_id {
        assert(listed[0] == c);
        assert(listed.contains(c));
        lemma_referenced_exists(t, p, ids, level, owner, c);
    }
    if let Some(c) = a.cooldown_effect_id {
        let at = optional_ids(a.cost_effect_id).len() as int;
        assert(listed[at] == c);
        assert(listed.contains(c));
        lemma_referenced_exists(t, p, ids, level, owner, c);
    }
}

// ---------------------------------------------------------------------------
// The law

/// Tables that prepare and pass authoring validation compile: with the tags that
/// registration adds, no effect row, targeting row or ability row fails to
/// compile, so the catalog plan succeeds and only the runtime registries can
/// still refuse them.
pub proof fn lemma_validated_tables_compile(t: TablesView, p: PreparedView, capacity: GasCapacity)
    requires
        spec_prepare(t) == Ok::<PreparedView, ErrorSite>(p),
        validation_failure(t, p, capacity) is None,
    ensures
        first_failure(effect_plans_check(t, p, registered_tags(t)), t.effects.len()) is None,
        first_failure(targeting_plans_check(t, registered_tags(t)), t.targetings.len()) is None,
        first_failure(ability_plans_check(t, p, registered_tags(t)), t.abilities.len()) is None,
        catalog_failure(t, p, registered_tags(t)) is None,
{
    let r = registered_tags(t);
    lemma_no_failure(effect_rows_check(t), t.effects.len());
    lemma_no_failure(modifier_rows_check(t), t.modifiers.len());
    lemma_no_failure(targeting_rows_check(t), t.targetings.len());
    lemma_no_failure(ability_rows_check(t, p), t.abilities.len());
    assert forall|k: int| 0 <= k < t.effects.len() implies #[trigger] effect_plans_check(t, p, r)(k) is None by {
        assert(effect_rows_check(t)(k) is None);
        lemma_effect_row_compiles(t, p, k);
    }
    lemma_all_pass(effect_plans_check(t, p, r), t.effects.len());
    assert forall|k: int| 0 <= k < t.targetings.len() implies #[trigger] targeting_plans_check(t, r)(k) is None by {
        assert(targeting_rows_check(t)(k) is None);
        let row = t.targetings[k];
        let owner = super::validation::id_row("Targeting"@, row.id);
        assert(tag_requirements_failure(t, row.required_tags, row.blocked_tags, owner) is None);
        lemma_valid_refs_resolve(t, row.required_tags);
        lemma_valid_refs_resolve(t, row.blocked_tags);
    }
    lemma_all_pass(targeting_plans_check(t, r), t.targetings.len());
    assert forall|k: int| 0 <= k < t.abilities.len() implies #[trigger] ability_plans_check(t, p, r)(k) is None by {
        assert(ability_rows_check(t, p)(k) is None);
        lemma_ability_row_compiles(t, p, k);
    }
    lemma_all_pass(ability_plans_check(t, p, r), t.abilities.len());
}

} // verus!
