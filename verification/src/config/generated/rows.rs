//! Rows of the configuration tables and their binary layout: fields are stored
//! one after another in declaration order.

use super::enums::{
    ActionKind, AttributeRegion, DurationKind, MagnitudeKind, ModifierOperation, SelectionKind,
    SortOrder, TargetScope,
};
use super::{RowKey, TableRow};
use crate::config::decoding::{ByteBuf, Decode, DecodeError, DecodeLimits, Float32};
use crate::config::text::text_eq;
use vstd::prelude::*;

verus! {

/// The mathematical content of [`Ability`].
pub struct AbilityView {
    pub id: i32,
    pub name: Seq<char>,
    pub max_level: i32,
    pub cost_effect_id: Option<i32>,
    pub additional_cost_ids: Seq<i32>,
    pub cooldown_effect_id: Option<i32>,
    pub asset_tags: Seq<Seq<char>>,
    pub required_tags: Seq<Seq<char>>,
    pub blocked_tags: Seq<Seq<char>>,
    pub cancel_ability_tags: Seq<Seq<char>>,
    pub block_ability_tags: Seq<Seq<char>>,
    pub targeting_id: i32,
    pub allow_multiple_instances: bool,
    pub task_ids: Seq<i32>,
}

/// A configured ability: tags, cost and cooldown effects, targeting, and ordered timeline actions.
#[derive(Debug, Clone, PartialEq)]
pub struct Ability {
    /// Stable authored ID.
    pub id: i32,
    /// Authored name.
    pub name: String,
    /// Highest supported level.
    pub max_level: i32,
    /// Effect committed as the activation cost.
    pub cost_effect_id: Option<i32>,
    /// Ordered external-resource requirements.
    pub additional_cost_ids: Vec<i32>,
    /// Effect committed as the cooldown.
    pub cooldown_effect_id: Option<i32>,
    /// Tags describing this definition.
    pub asset_tags: Vec<String>,
    /// Tags the owner or target must have.
    pub required_tags: Vec<String>,
    /// Tags the owner or target must not have.
    pub blocked_tags: Vec<String>,
    /// Active abilities with these tags are cancelled.
    pub cancel_ability_tags: Vec<String>,
    /// Abilities with these tags are blocked while active.
    pub block_ability_tags: Vec<String>,
    /// Targeting pipeline run before activation.
    pub targeting_id: i32,
    /// Whether several instances may be active.
    pub allow_multiple_instances: bool,
    /// Ordered timeline actions.
    pub task_ids: Vec<i32>,
}

impl DeepView for Ability {
    type V = AbilityView;

    open spec fn deep_view(&self) -> AbilityView {
        AbilityView {
            id: self.id,
            name: self.name@,
            max_level: self.max_level,
            cost_effect_id: self.cost_effect_id.deep_view(),
            additional_cost_ids: self.additional_cost_ids.deep_view(),
            cooldown_effect_id: self.cooldown_effect_id.deep_view(),
            asset_tags: self.asset_tags.deep_view(),
            required_tags: self.required_tags.deep_view(),
            blocked_tags: self.blocked_tags.deep_view(),
            cancel_ability_tags: self.cancel_ability_tags.deep_view(),
            block_ability_tags: self.block_ability_tags.deep_view(),
            targeting_id: self.targeting_id,
            allow_multiple_instances: self.allow_multiple_instances,
            task_ids: self.task_ids.deep_view(),
        }
    }
}

impl Decode for Ability {
    open spec fn spec_decode(data: Seq<u8>, offset: int, limits: DecodeLimits) -> Result<(AbilityView, int), int> {
        match <i32 as Decode>::spec_decode(data, offset, limits) {
            Err(at) => Err(at),
            Ok((id, at_0)) => 
            match <String as Decode>::spec_decode(data, at_0, limits) {
                Err(at) => Err(at),
                Ok((name, at_1)) => 
                match <i32 as Decode>::spec_decode(data, at_1, limits) {
                    Err(at) => Err(at),
                    Ok((max_level, at_2)) => 
                    match <Option<i32> as Decode>::spec_decode(data, at_2, limits) {
                        Err(at) => Err(at),
                        Ok((cost_effect_id, at_3)) => 
                        match <Vec<i32> as Decode>::spec_decode(data, at_3, limits) {
                            Err(at) => Err(at),
                            Ok((additional_cost_ids, at_4)) => 
                            match <Option<i32> as Decode>::spec_decode(data, at_4, limits) {
                                Err(at) => Err(at),
                                Ok((cooldown_effect_id, at_5)) => 
                                match <Vec<String> as Decode>::spec_decode(data, at_5, limits) {
                                    Err(at) => Err(at),
                                    Ok((asset_tags, at_6)) => 
                                    match <Vec<String> as Decode>::spec_decode(data, at_6, limits) {
                                        Err(at) => Err(at),
                                        Ok((required_tags, at_7)) => 
                                        match <Vec<String> as Decode>::spec_decode(data, at_7, limits) {
                                            Err(at) => Err(at),
                                            Ok((blocked_tags, at_8)) => 
                                            match <Vec<String> as Decode>::spec_decode(data, at_8, limits) {
                                                Err(at) => Err(at),
                                                Ok((cancel_ability_tags, at_9)) => 
                                                match <Vec<String> as Decode>::spec_decode(data, at_9, limits) {
                                                    Err(at) => Err(at),
                                                    Ok((block_ability_tags, at_10)) => 
                                                    match <i32 as Decode>::spec_decode(data, at_10, limits) {
                                                        Err(at) => Err(at),
                                                        Ok((targeting_id, at_11)) => 
                                                        match <bool as Decode>::spec_decode(data, at_11, limits) {
                                                            Err(at) => Err(at),
                                                            Ok((allow_multiple_instances, at_12)) => 
                                                            match <Vec<i32> as Decode>::spec_decode(data, at_12, limits) {
                                                                Err(at) => Err(at),
                                                                Ok((task_ids, at_13)) => 
                                                                Ok((AbilityView { id, name, max_level, cost_effect_id, additional_cost_ids, cooldown_effect_id, asset_tags, required_tags, blocked_tags, cancel_ability_tags, block_ability_tags, targeting_id, allow_multiple_instances, task_ids }, at_13)),
                                                            }
                                                        }
                                                    }
                                                }
                                            }
                                        }
                                    }
                                }
                            }
                        }
                    }
                }
            }
        }
    }

    fn decode(buf: &mut ByteBuf) -> (res: Result<Ability, DecodeError>) {
        let id = <i32 as Decode>::decode(buf)?;
        let name = <String as Decode>::decode(buf)?;
        let max_level = <i32 as Decode>::decode(buf)?;
        let cost_effect_id = <Option<i32> as Decode>::decode(buf)?;
        let additional_cost_ids = <Vec<i32> as Decode>::decode(buf)?;
        let cooldown_effect_id = <Option<i32> as Decode>::decode(buf)?;
        let asset_tags = <Vec<String> as Decode>::decode(buf)?;
        let required_tags = <Vec<String> as Decode>::decode(buf)?;
        let blocked_tags = <Vec<String> as Decode>::decode(buf)?;
        let cancel_ability_tags = <Vec<String> as Decode>::decode(buf)?;
        let block_ability_tags = <Vec<String> as Decode>::decode(buf)?;
        let targeting_id = <i32 as Decode>::decode(buf)?;
        let allow_multiple_instances = <bool as Decode>::decode(buf)?;
        let task_ids = <Vec<i32> as Decode>::decode(buf)?;
        Ok(Ability { id, name, max_level, cost_effect_id, additional_cost_ids, cooldown_effect_id, asset_tags, required_tags, blocked_tags, cancel_ability_tags, block_ability_tags, targeting_id, allow_multiple_instances, task_ids })
    }
}

impl TableRow for Ability {
    open spec fn spec_key(v: AbilityView) -> RowKey {
        RowKey::Id(v.id)
    }

    fn same_key(&self, other: &Self) -> (same: bool) {
        self.id == other.id
    }

    fn has_id(&self, id: i32) -> (found: bool) {
        self.id == id
    }

    fn has_name(&self, name: &str) -> (found: bool) {
        false
    }
}

/// The mathematical content of [`AbilityTask`].
pub struct AbilityTaskView {
    pub id: i32,
    pub at_tick: i32,
    pub kind: ActionKind,
    pub target_scope: TargetScope,
    pub effect_id: Option<i32>,
}

/// One timeline action of an ability.
#[derive(Debug, Clone, PartialEq)]
pub struct AbilityTask {
    /// Stable authored ID.
    pub id: i32,
    /// Tick after activation at which the action runs.
    pub at_tick: i32,
    /// What the action does.
    pub kind: ActionKind,
    /// Recipients of an applied effect.
    pub target_scope: TargetScope,
    /// Applied effect.
    pub effect_id: Option<i32>,
}

impl DeepView for AbilityTask {
    type V = AbilityTaskView;

    open spec fn deep_view(&self) -> AbilityTaskView {
        AbilityTaskView {
            id: self.id,
            at_tick: self.at_tick,
            kind: self.kind,
            target_scope: self.target_scope,
            effect_id: self.effect_id.deep_view(),
        }
    }
}

impl Decode for AbilityTask {
    open spec fn spec_decode(data: Seq<u8>, offset: int, limits: DecodeLimits) -> Result<(AbilityTaskView, int), int> {
        match <i32 as Decode>::spec_decode(data, offset, limits) {
            Err(at) => Err(at),
            Ok((id, at_0)) => 
            match <i32 as Decode>::spec_decode(data, at_0, limits) {
                Err(at) => Err(at),
                Ok((at_tick, at_1)) => 
                match <ActionKind as Decode>::spec_decode(data, at_1, limits) {
                    Err(at) => Err(at),
                    Ok((kind, at_2)) => 
                    match <TargetScope as Decode>::spec_decode(data, at_2, limits) {
                        Err(at) => Err(at),
                        Ok((target_scope, at_3)) => 
                        match <Option<i32> as Decode>::spec_decode(data, at_3, limits) {
                            Err(at) => Err(at),
                            Ok((effect_id, at_4)) => 
                            Ok((AbilityTaskView { id, at_tick, kind, target_scope, effect_id }, at_4)),
                        }
                    }
                }
            }
        }
    }

    fn decode(buf: &mut ByteBuf) -> (res: Result<AbilityTask, DecodeError>) {
        let id = <i32 as Decode>::decode(buf)?;
        let at_tick = <i32 as Decode>::decode(buf)?;
        let kind = <ActionKind as Decode>::decode(buf)?;
        let target_scope = <TargetScope as Decode>::decode(buf)?;
        let effect_id = <Option<i32> as Decode>::decode(buf)?;
        Ok(AbilityTask { id, at_tick, kind, target_scope, effect_id })
    }
}

impl TableRow for AbilityTask {
    open spec fn spec_key(v: AbilityTaskView) -> RowKey {
        RowKey::Id(v.id)
    }

    fn same_key(&self, other: &Self) -> (same: bool) {
        self.id == other.id
    }

    fn has_id(&self, id: i32) -> (found: bool) {
        self.id == id
    }

    fn has_name(&self, name: &str) -> (found: bool) {
        false
    }
}

/// The mathematical content of [`AbilityAdditionalCost`].
pub struct AbilityAdditionalCostView {
    pub id: i32,
    pub resource: Seq<char>,
    pub amount: i64,
}

/// One external-resource requirement of an ability.
#[derive(Debug, Clone, PartialEq)]
pub struct AbilityAdditionalCost {
    /// Stable authored ID.
    pub id: i32,
    /// Stable external resource name.
    pub resource: String,
    /// Required quantity.
    pub amount: i64,
}

impl DeepView for AbilityAdditionalCost {
    type V = AbilityAdditionalCostView;

    open spec fn deep_view(&self) -> AbilityAdditionalCostView {
        AbilityAdditionalCostView {
            id: self.id,
            resource: self.resource@,
            amount: self.amount,
        }
    }
}

impl Decode for AbilityAdditionalCost {
    open spec fn spec_decode(data: Seq<u8>, offset: int, limits: DecodeLimits) -> Result<(AbilityAdditionalCostView, int), int> {
        match <i32 as Decode>::spec_decode(data, offset, limits) {
            Err(at) => Err(at),
            Ok((id, at_0)) => 
            match <String as Decode>::spec_decode(data, at_0, limits) {
                Err(at) => Err(at),
                Ok((resource, at_1)) => 
                match <i64 as Decode>::spec_decode(data, at_1, limits) {
                    Err(at) => Err(at),
                    Ok((amount, at_2)) => 
                    Ok((AbilityAdditionalCostView { id, resource, amount }, at_2)),
                }
            }
        }
    }

    fn decode(buf: &mut ByteBuf) -> (res: Result<AbilityAdditionalCost, DecodeError>) {
        let id = <i32 as Decode>::decode(buf)?;
        let resource = <String as Decode>::decode(buf)?;
        let amount = <i64 as Decode>::decode(buf)?;
        Ok(AbilityAdditionalCost { id, resource, amount })
    }
}

impl TableRow for AbilityAdditionalCost {
    open spec fn spec_key(v: AbilityAdditionalCostView) -> RowKey {
        RowKey::Id(v.id)
    }

    fn same_key(&self, other: &Self) -> (same: bool) {
        self.id == other.id
    }

    fn has_id(&self, id: i32) -> (found: bool) {
        self.id == id
    }

    fn has_name(&self, name: &str) -> (found: bool) {
        false
    }
}

/// The mathematical content of [`Attribute`].
pub struct AttributeView {
    pub name: Seq<char>,
    pub region: AttributeRegion,
    pub description: Seq<char>,
}

/// An attribute registered by stable name.
#[derive(Debug, Clone, PartialEq)]
pub struct Attribute {
    /// Authored name.
    pub name: String,
    /// Storage region of the attribute.
    pub region: AttributeRegion,
    /// Free-form description.
    pub description: String,
}

impl DeepView for Attribute {
    type V = AttributeView;

    open spec fn deep_view(&self) -> AttributeView {
        AttributeView {
            name: self.name@,
            region: self.region,
            description: self.description@,
        }
    }
}

impl Decode for Attribute {
    open spec fn spec_decode(data: Seq<u8>, offset: int, limits: DecodeLimits) -> Result<(AttributeView, int), int> {
        match <String as Decode>::spec_decode(data, offset, limits) {
            Err(at) => Err(at),
            Ok((name, at_0)) => 
            match <AttributeRegion as Decode>::spec_decode(data, at_0, limits) {
                Err(at) => Err(at),
                Ok((region, at_1)) => 
                match <String as Decode>::spec_decode(data, at_1, limits) {
                    Err(at) => Err(at),
                    Ok((description, at_2)) => 
                    Ok((AttributeView { name, region, description }, at_2)),
                }
            }
        }
    }

    fn decode(buf: &mut ByteBuf) -> (res: Result<Attribute, DecodeError>) {
        let name = <String as Decode>::decode(buf)?;
        let region = <AttributeRegion as Decode>::decode(buf)?;
        let description = <String as Decode>::decode(buf)?;
        Ok(Attribute { name, region, description })
    }
}

impl TableRow for Attribute {
    open spec fn spec_key(v: AttributeView) -> RowKey {
        RowKey::Name(v.name)
    }

    fn same_key(&self, other: &Self) -> (same: bool) {
        self.name == other.name
    }

    fn has_id(&self, id: i32) -> (found: bool) {
        false
    }

    fn has_name(&self, name: &str) -> (found: bool) {
        text_eq(self.name.as_str(), name)
    }
}

/// The mathematical content of [`Effect`].
pub struct EffectView {
    pub id: i32,
    pub name: Seq<char>,
    pub duration_kind: DurationKind,
    pub duration_ticks: Option<i32>,
    pub period_ticks: Option<i32>,
    pub execute_on_applied: bool,
    pub probability: u32,
    pub asset_tags: Seq<Seq<char>>,
    pub granted_tags: Seq<Seq<char>>,
    pub modifier_ids: Seq<i32>,
}

/// A shared gameplay effect definition.
#[derive(Debug, Clone, PartialEq)]
pub struct Effect {
    /// Stable authored ID.
    pub id: i32,
    /// Authored name.
    pub name: String,
    /// How long the effect lasts.
    pub duration_kind: DurationKind,
    /// Duration of a timed effect.
    pub duration_ticks: Option<i32>,
    /// Period of periodic execution.
    pub period_ticks: Option<i32>,
    /// Whether the period also executes on application.
    pub execute_on_applied: bool,
    /// Application probability, as an IEEE-754 binary32 bit pattern.
    pub probability: Float32,
    /// Tags describing this definition.
    pub asset_tags: Vec<String>,
    /// Tags granted while the effect is active.
    pub granted_tags: Vec<String>,
    /// Ordered attribute modifiers.
    pub modifier_ids: Vec<i32>,
}

impl DeepView for Effect {
    type V = EffectView;

    open spec fn deep_view(&self) -> EffectView {
        EffectView {
            id: self.id,
            name: self.name@,
            duration_kind: self.duration_kind,
            duration_ticks: self.duration_ticks.deep_view(),
            period_ticks: self.period_ticks.deep_view(),
            execute_on_applied: self.execute_on_applied,
            probability: self.probability.0,
            asset_tags: self.asset_tags.deep_view(),
            granted_tags: self.granted_tags.deep_view(),
            modifier_ids: self.modifier_ids.deep_view(),
        }
    }
}

impl Decode for Effect {
    open spec fn spec_decode(data: Seq<u8>, offset: int, limits: DecodeLimits) -> Result<(EffectView, int), int> {
        match <i32 as Decode>::spec_decode(data, offset, limits) {
            Err(at) => Err(at),
            Ok((id, at_0)) => 
            match <String as Decode>::spec_decode(data, at_0, limits) {
                Err(at) => Err(at),
                Ok((name, at_1)) => 
                match <DurationKind as Decode>::spec_decode(data, at_1, limits) {
                    Err(at) => Err(at),
                    Ok((duration_kind, at_2)) => 
                    match <Option<i32> as Decode>::spec_decode(data, at_2, limits) {
                        Err(at) => Err(at),
                        Ok((duration_ticks, at_3)) => 
                        match <Option<i32> as Decode>::spec_decode(data, at_3, limits) {
                            Err(at) => Err(at),
                            Ok((period_ticks, at_4)) => 
                            match <bool as Decode>::spec_decode(data, at_4, limits) {
                                Err(at) => Err(at),
                                Ok((execute_on_applied, at_5)) => 
                                match <Float32 as Decode>::spec_decode(data, at_5, limits) {
                                    Err(at) => Err(at),
                                    Ok((probability, at_6)) => 
                                    match <Vec<String> as Decode>::spec_decode(data, at_6, limits) {
                                        Err(at) => Err(at),
                                        Ok((asset_tags, at_7)) => 
                                        match <Vec<String> as Decode>::spec_decode(data, at_7, limits) {
                                            Err(at) => Err(at),
                                            Ok((granted_tags, at_8)) => 
                                            match <Vec<i32> as Decode>::spec_decode(data, at_8, limits) {
                                                Err(at) => Err(at),
                                                Ok((modifier_ids, at_9)) => 
                                                Ok((EffectView { id, name, duration_kind, duration_ticks, period_ticks, execute_on_applied, probability, asset_tags, granted_tags, modifier_ids }, at_9)),
                                            }
                                        }
                                    }
                                }
                            }
                        }
                    }
                }
            }
        }
    }

    fn decode(buf: &mut ByteBuf) -> (res: Result<Effect, DecodeError>) {
        let id = <i32 as Decode>::decode(buf)?;
        let name = <String as Decode>::decode(buf)?;
        let duration_kind = <DurationKind as Decode>::decode(buf)?;
        let duration_ticks = <Option<i32> as Decode>::decode(buf)?;
        let period_ticks = <Option<i32> as Decode>::decode(buf)?;
        let execute_on_applied = <bool as Decode>::decode(buf)?;
        let probability = <Float32 as Decode>::decode(buf)?;
        let asset_tags = <Vec<String> as Decode>::decode(buf)?;
        let granted_tags = <Vec<String> as Decode>::decode(buf)?;
        let modifier_ids = <Vec<i32> as Decode>::decode(buf)?;
        Ok(Effect { id, name, duration_kind, duration_ticks, period_ticks, execute_on_applied, probability, asset_tags, granted_tags, modifier_ids })
    }
}

impl TableRow for Effect {
    open spec fn spec_key(v: EffectView) -> RowKey {
        RowKey::Id(v.id)
    }

    fn same_key(&self, other: &Self) -> (same: bool) {
        self.id == other.id
    }

    fn has_id(&self, id: i32) -> (found: bool) {
        self.id == id
    }

    fn has_name(&self, name: &str) -> (found: bool) {
        false
    }
}

/// The mathematical content of [`Modifier`].
pub struct ModifierView {
    pub id: i32,
    pub attribute: Seq<char>,
    pub operation: ModifierOperation,
    pub magnitude_kind: MagnitudeKind,
    pub base: u32,
    pub per_level: u32,
}

/// One attribute modifier of an effect.
#[derive(Debug, Clone, PartialEq)]
pub struct Modifier {
    /// Stable authored ID.
    pub id: i32,
    /// Modified attribute name.
    pub attribute: String,
    /// How the magnitude combines with the attribute.
    pub operation: ModifierOperation,
    /// How the magnitude depends on the level.
    pub magnitude_kind: MagnitudeKind,
    /// Magnitude at level one, as an IEEE-754 binary32 bit pattern.
    pub base: Float32,
    /// Magnitude increase per level above one, as an IEEE-754 binary32 bit pattern.
    pub per_level: Float32,
}

impl DeepView for Modifier {
    type V = ModifierView;

    open spec fn deep_view(&self) -> ModifierView {
        ModifierView {
            id: self.id,
            attribute: self.attribute@,
            operation: self.operation,
            magnitude_kind: self.magnitude_kind,
            base: self.base.0,
            per_level: self.per_level.0,
        }
    }
}

impl Decode for Modifier {
    open spec fn spec_decode(data: Seq<u8>, offset: int, limits: DecodeLimits) -> Result<(ModifierView, int), int> {
        match <i32 as Decode>::spec_decode(data, offset, limits) {
            Err(at) => Err(at),
            Ok((id, at_0)) => 
            match <String as Decode>::spec_decode(data, at_0, limits) {
                Err(at) => Err(at),
                Ok((attribute, at_1)) => 
                match <ModifierOperation as Decode>::spec_decode(data, at_1, limits) {
                    Err(at) => Err(at),
                    Ok((operation, at_2)) => 
                    match <MagnitudeKind as Decode>::spec_decode(data, at_2, limits) {
                        Err(at) => Err(at),
                        Ok((magnitude_kind, at_3)) => 
                        match <Float32 as Decode>::spec_decode(data, at_3, limits) {
                            Err(at) => Err(at),
                            Ok((base, at_4)) => 
                            match <Float32 as Decode>::spec_decode(data, at_4, limits) {
                                Err(at) => Err(at),
                                Ok((per_level, at_5)) => 
                                Ok((ModifierView { id, attribute, operation, magnitude_kind, base, per_level }, at_5)),
                            }
                        }
                    }
                }
            }
        }
    }

    fn decode(buf: &mut ByteBuf) -> (res: Result<Modifier, DecodeError>) {
        let id = <i32 as Decode>::decode(buf)?;
        let attribute = <String as Decode>::decode(buf)?;
        let operation = <ModifierOperation as Decode>::decode(buf)?;
        let magnitude_kind = <MagnitudeKind as Decode>::decode(buf)?;
        let base = <Float32 as Decode>::decode(buf)?;
        let per_level = <Float32 as Decode>::decode(buf)?;
        Ok(Modifier { id, attribute, operation, magnitude_kind, base, per_level })
    }
}

impl TableRow for Modifier {
    open spec fn spec_key(v: ModifierView) -> RowKey {
        RowKey::Id(v.id)
    }

    fn same_key(&self, other: &Self) -> (same: bool) {
        self.id == other.id
    }

    fn has_id(&self, id: i32) -> (found: bool) {
        self.id == id
    }

    fn has_name(&self, name: &str) -> (found: bool) {
        false
    }
}

/// The mathematical content of [`Tag`].
pub struct TagView {
    pub name: Seq<char>,
}

/// A gameplay tag declared by dot-separated name.
#[derive(Debug, Clone, PartialEq)]
pub struct Tag {
    /// Authored name.
    pub name: String,
}

impl DeepView for Tag {
    type V = TagView;

    open spec fn deep_view(&self) -> TagView {
        TagView {
            name: self.name@,
        }
    }
}

impl Decode for Tag {
    open spec fn spec_decode(data: Seq<u8>, offset: int, limits: DecodeLimits) -> Result<(TagView, int), int> {
        match <String as Decode>::spec_decode(data, offset, limits) {
            Err(at) => Err(at),
            Ok((name, at_0)) => 
            Ok((TagView { name }, at_0)),
        }
    }

    fn decode(buf: &mut ByteBuf) -> (res: Result<Tag, DecodeError>) {
        let name = <String as Decode>::decode(buf)?;
        Ok(Tag { name })
    }
}

impl TableRow for Tag {
    open spec fn spec_key(v: TagView) -> RowKey {
        RowKey::Name(v.name)
    }

    fn same_key(&self, other: &Self) -> (same: bool) {
        self.name == other.name
    }

    fn has_id(&self, id: i32) -> (found: bool) {
        false
    }

    fn has_name(&self, name: &str) -> (found: bool) {
        text_eq(self.name.as_str(), name)
    }
}

/// The mathematical content of [`Targeting`].
pub struct TargetingView {
    pub id: i32,
    pub name: Seq<char>,
    pub selection: SelectionKind,
    pub radius: Option<u32>,
    pub half_angle_radians: Option<u32>,
    pub max_distance: Option<u32>,
    pub exclude_source: bool,
    pub require_attributes: bool,
    pub required_tags: Seq<Seq<char>>,
    pub blocked_tags: Seq<Seq<char>>,
    pub sort: SortOrder,
    pub limit: i32,
}

/// A target selection and refinement pipeline.
#[derive(Debug, Clone, PartialEq)]
pub struct Targeting {
    /// Stable authored ID.
    pub id: i32,
    /// Authored name.
    pub name: String,
    /// Initial selection shape.
    pub selection: SelectionKind,
    /// Sphere or cone radius, as an IEEE-754 binary32 bit pattern.
    pub radius: Option<Float32>,
    /// Cone half angle, as an IEEE-754 binary32 bit pattern.
    pub half_angle_radians: Option<Float32>,
    /// Distance filter, as an IEEE-754 binary32 bit pattern.
    pub max_distance: Option<Float32>,
    /// Whether the source is removed from the targets.
    pub exclude_source: bool,
    /// Whether targets need an attribute set.
    pub require_attributes: bool,
    /// Tags the owner or target must have.
    pub required_tags: Vec<String>,
    /// Tags the owner or target must not have.
    pub blocked_tags: Vec<String>,
    /// Distance ordering of the targets.
    pub sort: SortOrder,
    /// Maximum number of targets.
    pub limit: i32,
}

impl DeepView for Targeting {
    type V = TargetingView;

    open spec fn deep_view(&self) -> TargetingView {
        TargetingView {
            id: self.id,
            name: self.name@,
            selection: self.selection,
            radius: self.radius.deep_view(),
            half_angle_radians: self.half_angle_radians.deep_view(),
            max_distance: self.max_distance.deep_view(),
            exclude_source: self.exclude_source,
            require_attributes: self.require_attributes,
            required_tags: self.required_tags.deep_view(),
            blocked_tags: self.blocked_tags.deep_view(),
            sort: self.sort,
            limit: self.limit,
        }
    }
}

impl Decode for Targeting {
    open spec fn spec_decode(data: Seq<u8>, offset: int, limits: DecodeLimits) -> Result<(TargetingView, int), int> {
        match <i32 as Decode>::spec_decode(data, offset, limits) {
            Err(at) => Err(at),
            Ok((id, at_0)) => 
            match <String as Decode>::spec_decode(data, at_0, limits) {
                Err(at) => Err(at),
                Ok((name, at_1)) => 
                match <SelectionKind as Decode>::spec_decode(data, at_1, limits) {
                    Err(at) => Err(at),
                    Ok((selection, at_2)) => 
                    match <Option<Float32> as Decode>::spec_decode(data, at_2, limits) {
                        Err(at) => Err(at),
                        Ok((radius, at_3)) => 
                        match <Option<Float32> as Decode>::spec_decode(data, at_3, limits) {
                            Err(at) => Err(at),
                            Ok((half_angle_radians, at_4)) => 
                            match <Option<Float32> as Decode>::spec_decode(data, at_4, limits) {
                                Err(at) => Err(at),
                                Ok((max_distance, at_5)) => 
                                match <bool as Decode>::spec_decode(data, at_5, limits) {
                                    Err(at) => Err(at),
                                    Ok((exclude_source, at_6)) => 
                                    match <bool as Decode>::spec_decode(data, at_6, limits) {
                                        Err(at) => Err(at),
                                        Ok((require_attributes, at_7)) => 
                                        match <Vec<String> as Decode>::spec_decode(data, at_7, limits) {
                                            Err(at) => Err(at),
                                            Ok((required_tags, at_8)) => 
                                            match <Vec<String> as Decode>::spec_decode(data, at_8, limits) {
                                                Err(at) => Err(at),
                                                Ok((blocked_tags, at_9)) => 
                                                match <SortOrder as Decode>::spec_decode(data, at_9, limits) {
                                                    Err(at) => Err(at),
                                                    Ok((sort, at_10)) => 
                                                    match <i32 as Decode>::spec_decode(data, at_10, limits) {
                                                        Err(at) => Err(at),
                                                        Ok((limit, at_11)) => 
                                                        Ok((TargetingView { id, name, selection, radius, half_angle_radians, max_distance, exclude_source, require_attributes, required_tags, blocked_tags, sort, limit }, at_11)),
                                                    }
                                                }
                                            }
                                        }
                                    }
                                }
                            }
                        }
                    }
                }
            }
        }
    }

    fn decode(buf: &mut ByteBuf) -> (res: Result<Targeting, DecodeError>) {
        let id = <i32 as Decode>::decode(buf)?;
        let name = <String as Decode>::decode(buf)?;
        let selection = <SelectionKind as Decode>::decode(buf)?;
        let radius = <Option<Float32> as Decode>::decode(buf)?;
        let half_angle_radians = <Option<Float32> as Decode>::decode(buf)?;
        let max_distance = <Option<Float32> as Decode>::decode(buf)?;
        let exclude_source = <bool as Decode>::decode(buf)?;
        let require_attributes = <bool as Decode>::decode(buf)?;
        let required_tags = <Vec<String> as Decode>::decode(buf)?;
        let blocked_tags = <Vec<String> as Decode>::decode(buf)?;
        let sort = <SortOrder as Decode>::decode(buf)?;
        let limit = <i32 as Decode>::decode(buf)?;
        Ok(Targeting { id, name, selection, radius, half_angle_radians, max_distance, exclude_source, require_attributes, required_tags, blocked_tags, sort, limit })
    }
}

impl TableRow for Targeting {
    open spec fn spec_key(v: TargetingView) -> RowKey {
        RowKey::Id(v.id)
    }

    fn same_key(&self, other: &Self) -> (same: bool) {
        self.id == other.id
    }

    fn has_id(&self, id: i32) -> (found: bool) {
        self.id == id
    }

    fn has_name(&self, name: &str) -> (found: bool) {
        false
    }
}

} // verus!
