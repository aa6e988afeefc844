use gas_config::config::catalog::{AbilityId, ConfiguredAbilities};
use gas_config::config::compiler::validation::{validate_tables, GasCapacity};
use gas_config::config::decoding::{ByteBuf, Float32};
use gas_config::config::generated::{
    Ability, AbilityTask, ActionKind, Attribute, AttributeRegion, DurationKind, Effect, MagnitudeKind,
    Modifier, ModifierOperation, SelectionKind, SortOrder, Table, Tables, Tag, TargetScope, Targeting,
};
use gas_config::config::inspection::{describe_ability, describe_ability_at_level};
use gas_config::config::ConfigErrorKind;

fn capacity() -> GasCapacity {
    GasCapacity { max_tags: 64, hot_attributes: 16, cold_attributes: 16 }
}

fn tables() -> Tables {
    let mut tables = Tables::empty();
    tables.tb_ability = Table::from_rows(vec![Ability {
        id: 1,
        name: "Test ability".to_owned(),
        max_level: 2,
        cost_effect_id: None,
        additional_cost_ids: vec![],
        cooldown_effect_id: None,
        asset_tags: vec![],
        required_tags: vec![],
        blocked_tags: vec![],
        cancel_ability_tags: vec![],
        block_ability_tags: vec![],
        targeting_id: 1,
        allow_multiple_instances: false,
        task_ids: vec![1],
    }])
    .unwrap();
    tables.tb_ability_task = Table::from_rows(vec![AbilityTask {
        id: 1,
        at_tick: 0,
        kind: ActionKind::EndAbility,
        target_scope: TargetScope::NoTarget,
        effect_id: None,
    }])
    .unwrap();
    tables.tb_targeting = Table::from_rows(vec![Targeting {
        id: 1,
        name: "Self".to_owned(),
        selection: SelectionKind::SelfTarget,
        radius: None,
        half_angle_radians: None,
        max_distance: None,
        exclude_source: false,
        require_attributes: false,
        required_tags: vec![],
        blocked_tags: vec![],
        sort: SortOrder::Unsorted,
        limit: 1,
    }])
    .unwrap();
    tables.tb_tag = Table::from_rows(vec![
        Tag { name: "State".to_owned() },
        Tag { name: "State.Stunned".to_owned() },
    ])
    .unwrap();
    tables
}

fn with_ability(edit: impl FnOnce(&mut Ability)) -> Tables {
    let mut tables = tables();
    let mut ability = tables.tb_ability.get(1).unwrap().clone();
    edit(&mut ability);
    tables.tb_ability = Table::from_rows(vec![ability]).unwrap();
    tables
}

#[test]
fn validation_messages_name_the_offending_tags() {
    let error = validate_tables(&with_ability(|a| a.asset_tags = vec!["Missing".to_owned()]), capacity()).unwrap_err();
    assert_eq!(error.message(), "unknown tag 'Missing'; referenced parent tags must also be declared");

    let error = validate_tables(
        &with_ability(|a| a.required_tags = vec!["State".to_owned(), "State".to_owned()]),
        capacity(),
    )
    .unwrap_err();
    assert_eq!(error.message(), "duplicate tag 'State'");

    let error = validate_tables(
        &with_ability(|a| {
            a.required_tags = vec!["State.Stunned".to_owned()];
            a.blocked_tags = vec!["State".to_owned()];
        }),
        capacity(),
    )
    .unwrap_err();
    assert_eq!(error.kind(), ConfigErrorKind::Validation);
    assert_eq!(error.message(), "required tag 'State.Stunned' implies blocked tag 'State'");
}

#[test]
fn validation_messages_name_unknown_cost_effects() {
    let error = validate_tables(&with_ability(|a| a.cost_effect_id = Some(42)), capacity()).unwrap_err();
    assert_eq!(error.kind(), ConfigErrorKind::Validation);
    assert_eq!(error.message(), "unknown effect 42");
}

#[test]
fn level_messages_name_the_level_and_its_bound() {
    let error = describe_ability_at_level(&tables(), AbilityId(1), 3, capacity()).unwrap_err();
    assert_eq!(error.message(), "level 3 is outside 1..=2");
    let bindings: ConfiguredAbilities<u64> = ConfiguredAbilities::new();
    let error = bindings.check_grant(Some(2), AbilityId(1), 0).unwrap_err();
    assert_eq!(error.message(), "level 0 is outside 1..=2");
}

#[test]
fn default_level_reports_the_same_error() {
    let invalid = with_ability(|a| a.asset_tags = vec!["Missing".to_owned()]);
    assert_eq!(
        describe_ability(&invalid, AbilityId(1), capacity()).unwrap_err(),
        describe_ability_at_level(&invalid, AbilityId(1), 1, capacity()).unwrap_err()
    );
    assert_eq!(
        describe_ability(&invalid, AbilityId(1), capacity()).unwrap_err(),
        validate_tables(&invalid, capacity()).unwrap_err()
    );
}

#[test]
fn failed_reads_leave_the_offset_where_stated() {
    let mut buf = ByteBuf::new(vec![7, 0x81]);
    assert_eq!(buf.read_byte().unwrap(), 7);
    assert_eq!(buf.read_bytes(2).unwrap_err().message(), "need 2 bytes, only 1 remain");
    assert_eq!(buf.offset(), 1);
    assert_eq!(buf.read_int().unwrap_err().message(), "need 1 bytes, only 0 remain");
    assert_eq!(buf.offset(), 2);
    let trailing = ByteBuf::new(vec![1, 2, 3]);
    assert_eq!(trailing.finish().unwrap_err().message(), "3 trailing bytes remain");
    assert_eq!(buf.remaining(), 0);
    assert!(buf.read_byte().is_err());
    assert_eq!(buf.offset(), 2);
}

fn cost_effect(id: i32, modifier_ids: Vec<i32>) -> Effect {
    Effect {
        id,
        name: format!("Effect {id}"),
        duration_kind: DurationKind::Instant,
        duration_ticks: None,
        period_ticks: None,
        execute_on_applied: false,
        probability: Float32(1.0f32.to_bits()),
        asset_tags: vec![],
        granted_tags: vec![],
        modifier_ids,
    }
}

fn cost_modifier(id: i32, attribute: &str, operation: ModifierOperation, base: f32) -> Modifier {
    Modifier {
        id,
        attribute: attribute.to_owned(),
        operation,
        magnitude_kind: MagnitudeKind::Flat,
        base: Float32(base.to_bits()),
        per_level: Float32(0.0f32.to_bits()),
    }
}

fn with_effect(effect: Effect, modifiers: Vec<Modifier>, cost: bool) -> Tables {
    let mut tables = with_ability(|a| {
        if cost {
            a.cost_effect_id = Some(7);
        } else {
            a.cooldown_effect_id = Some(7);
        }
    });
    tables.tb_attribute = Table::from_rows(vec![
        Attribute { name: "Mana".to_owned(), region: AttributeRegion::Hot, description: String::new() },
        Attribute { name: "Stamina".to_owned(), region: AttributeRegion::Hot, description: String::new() },
    ])
    .unwrap();
    tables.tb_effect = Table::from_rows(vec![effect]).unwrap();
    tables.tb_modifier = Table::from_rows(modifiers).unwrap();
    tables
}

fn validation_message(tables: &Tables) -> String {
    let error = validate_tables(tables, capacity()).unwrap_err();
    assert_eq!(error.kind(), ConfigErrorKind::Validation);
    error.message().to_owned()
}

#[test]
fn cost_rules_report_the_first_rule_broken() {
    let mut timed = cost_effect(7, vec![1]);
    timed.duration_kind = DurationKind::DurationTicks;
    timed.duration_ticks = Some(10);
    let tables = with_effect(timed, vec![cost_modifier(1, "Mana", ModifierOperation::Add, -5.0)], true);
    assert_eq!(validation_message(&tables), "cost must be instant, nonperiodic, and probability=1");

    let tables = with_effect(cost_effect(7, vec![1]), vec![cost_modifier(1, "Mana", ModifierOperation::Multiply, -5.0)], true);
    assert_eq!(validation_message(&tables), "cost modifiers must use Add");

    let tables = with_effect(
        cost_effect(7, vec![1, 2]),
        vec![
            cost_modifier(1, "Mana", ModifierOperation::Add, -5.0),
            cost_modifier(2, "Mana", ModifierOperation::Add, -1.0),
        ],
        true,
    );
    assert_eq!(validation_message(&tables), "cost cannot contain duplicate attributes");

    let tables = with_effect(cost_effect(7, vec![1]), vec![cost_modifier(1, "Stamina", ModifierOperation::Add, 5.0)], true);
    assert_eq!(validation_message(&tables), "cost magnitude must remain negative at all supported levels");

    let tables = with_effect(cost_effect(7, vec![]), vec![], true);
    assert_eq!(validation_message(&tables), "cost requires at least one attribute modifier");
}

#[test]
fn cooldown_rules_have_their_own_messages() {
    let mut cooldown = cost_effect(7, vec![]);
    cooldown.duration_kind = DurationKind::DurationTicks;
    cooldown.duration_ticks = Some(30);
    let tables = with_effect(cooldown.clone(), vec![], false);
    assert_eq!(
        validation_message(&tables),
        "cooldown requires positive duration, granted tags, probability=1, and no period"
    );

    cooldown.granted_tags = vec!["State".to_owned()];
    cooldown.modifier_ids = vec![1];
    let tables = with_effect(cooldown, vec![cost_modifier(1, "Mana", ModifierOperation::Add, -5.0)], false);
    assert_eq!(validation_message(&tables), "cooldown effects must not modify attributes");
}

#[test]
fn duration_messages_depend_on_the_duration_kind() {
    let mut timed = cost_effect(7, vec![]);
    timed.duration_kind = DurationKind::DurationTicks;
    let tables = with_effect(timed, vec![], true);
    assert_eq!(validation_message(&tables), "duration ticks must be an integer in 1..=1000000");

    let mut instant = cost_effect(7, vec![]);
    instant.duration_ticks = Some(5);
    let tables = with_effect(instant, vec![], true);
    assert_eq!(validation_message(&tables), "unused duration must be empty");
}

#[test]
fn targeting_shape_messages_depend_on_the_selection() {
    let mut tables = tables();
    let mut target = tables.tb_targeting.get(1).unwrap().clone();
    target.radius = Some(Float32(2.0f32.to_bits()));
    tables.tb_targeting = Table::from_rows(vec![target.clone()]).unwrap();
    assert_eq!(validation_message(&tables), "unused radius must be empty");

    target.selection = SelectionKind::Sphere;
    target.radius = Some(Float32((-1.0f32).to_bits()));
    tables.tb_targeting = Table::from_rows(vec![target]).unwrap();
    assert_eq!(
        validation_message(&tables),
        "sphere/cone radius must be finite, nonnegative, and have a finite square"
    );
}
