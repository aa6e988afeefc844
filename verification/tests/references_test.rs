use gas_config::config::compiler::planning::{plan_catalog, CatalogPlan};
use gas_config::config::compiler::preparation::{PreparedMagnitude, PreparedTables};
use gas_config::config::compiler::registration::tag_registration_order;
use gas_config::config::compiler::validation::{validate_prepared, GasCapacity};
use gas_config::config::decoding::Float32;
use gas_config::config::generated::{
    Ability, AbilityAdditionalCost, AbilityTask, ActionKind, Attribute, AttributeRegion,
    DurationKind, Effect, MagnitudeKind, Modifier, ModifierOperation, SelectionKind, SortOrder,
    Table, Tables, TargetScope, Targeting,
};
use gas_config::config::{ConfigError, ConfigErrorKind, ConfigLocation};

fn capacity() -> GasCapacity {
    GasCapacity { max_tags: 64, hot_attributes: 16, cold_attributes: 16 }
}

fn compile(tables: &Tables, validate: bool) -> Result<CatalogPlan, ConfigError> {
    let prepared = PreparedTables::new(tables)?;
    if validate {
        validate_prepared(&prepared, capacity())?;
    }
    plan_catalog(&prepared, &tag_registration_order(tables))
}

fn base_tables() -> Tables {
    let mut tables = Tables::empty();
    tables.tb_ability = Table::from_rows(vec![Ability {
        id: 1,
        name: "Test ability".to_owned(),
        max_level: 2,
        cost_effect_id: None,
        additional_cost_ids: vec![],
        cooldown_effect_id: None,
        asset_tags: vec![],
        required_tags: vec![],
        blocked_tags: vec![],
        cancel_ability_tags: vec![],
        block_ability_tags: vec![],
        targeting_id: 1,
        allow_multiple_instances: false,
        task_ids: vec![1],
    }])
    .unwrap();
    tables.tb_ability_task = Table::from_rows(vec![AbilityTask {
        id: 1,
        at_tick: 0,
        kind: ActionKind::EndAbility,
        target_scope: TargetScope::NoTarget,
        effect_id: None,
    }])
    .unwrap();
    tables.tb_targeting = Table::from_rows(vec![Targeting {
        id: 1,
        name: "Self".to_owned(),
        selection: SelectionKind::SelfTarget,
        radius: None,
        half_angle_radians: None,
        max_distance: None,
        exclude_source: false,
        require_attributes: false,
        required_tags: vec![],
        blocked_tags: vec![],
        sort: SortOrder::Unsorted,
        limit: 1,
    }])
    .unwrap();
    tables
}

fn effect(id: i32, modifier_ids: Vec<i32>) -> Effect {
    Effect {
        id,
        name: format!("Effect {id}"),
        duration_kind: DurationKind::Instant,
        duration_ticks: None,
        period_ticks: None,
        execute_on_applied: false,
        probability: Float32(1.0f32.to_bits()),
        asset_tags: vec![],
        granted_tags: vec![],
        modifier_ids,
    }
}

fn modifier(id: i32, base: f32) -> Modifier {
    Modifier {
        id,
        attribute: "Health".to_owned(),
        operation: ModifierOperation::Add,
        magnitude_kind: MagnitudeKind::Flat,
        base: Float32(base.to_bits()),
        per_level: Float32(0.0f32.to_bits()),
    }
}

fn health() -> Table<Attribute> {
    Table::from_rows(vec![Attribute {
        name: "Health".to_owned(),
        region: AttributeRegion::Hot,
        description: String::new(),
    }])
    .unwrap()
}

#[test]
fn missing_and_duplicate_child_ids_identify_the_parent_reference_field() {
    for field in ["task_ids", "additional_cost_ids", "modifier_ids"] {
        for (ids, kind) in [(vec![99], ConfigErrorKind::Reference), (vec![1, 1], ConfigErrorKind::InvalidValue)] {
            let mut tables = base_tables();
            let mut ability = tables.tb_ability.get(1).unwrap().clone();
            let table = match field {
                "task_ids" => {
                    ability.task_ids = ids;
                    "Ability"
                }
                "additional_cost_ids" => {
                    ability.additional_cost_ids = ids;
                    tables.tb_ability_additional_cost = Table::from_rows(vec![AbilityAdditionalCost {
                        id: 1,
                        resource: "Inventory.Bomb".to_owned(),
                        amount: 1,
                    }])
                    .unwrap();
                    "Ability"
                }
                "modifier_ids" => {
                    tables.tb_effect = Table::from_rows(vec![effect(1, ids)]).unwrap();
                    tables.tb_modifier = Table::from_rows(vec![modifier(1, 1.0)]).unwrap();
                    "Effect"
                }
                _ => unreachable!(),
            };
            tables.tb_ability = Table::from_rows(vec![ability]).unwrap();
            for validate in [false, true] {
                let error = compile(&tables, validate).err().unwrap();
                assert_eq!(error.kind(), kind, "{field}");
                assert_eq!(
                    error.location(),
                    &ConfigLocation::Table { table, row: Some("1".to_owned()), field: Some(field.to_owned()) }
                );
            }
        }
    }
}

#[test]
fn effects_share_modifier_definitions_with_independent_list_order() {
    for reverse in [false, true] {
        let mut tables = base_tables();
        tables.tb_attribute = health();
        tables.tb_effect =
            Table::from_rows(vec![effect(1, vec![2, 1]), effect(2, vec![1, 2]), effect(3, vec![])]).unwrap();
        let mut modifiers = vec![modifier(1, 10.0), modifier(2, 20.0)];
        if reverse {
            modifiers.reverse();
        }
        tables.tb_modifier = Table::from_rows(modifiers).unwrap();
        let catalog = compile(&tables, false).unwrap();
        for (id, expected) in [(1, vec![20.0f32, 10.0]), (2, vec![10.0, 20.0]), (3, vec![])] {
            let plan = catalog.effects.iter().find(|plan| plan.id == id).unwrap();
            let actual: Vec<f32> = plan
                .modifiers
                .iter()
                .map(|m| match m.magnitude {
                    PreparedMagnitude::Flat(v) => f32::from_bits(v),
                    PreparedMagnitude::LinearLevel { .. } => panic!("expected a flat magnitude"),
                })
                .collect();
            assert_eq!(actual, expected);
            assert!(plan.modifiers.iter().all(|m| m.attribute == "Health"));
        }
    }
}

#[test]
fn unused_child_definitions_are_only_checked_by_authoring_validation() {
    for (table, invalid) in ["AbilityTask", "AbilityAdditionalCost", "Modifier"]
        .into_iter()
        .flat_map(|table| [false, true].map(|invalid| (table, invalid)))
    {
        let mut tables = base_tables();
        match table {
            "AbilityTask" => {
                let original = tables.tb_ability_task.get(1).unwrap().clone();
                let mut unused = original.clone();
                unused.id = 99;
                unused.at_tick = if invalid { -1 } else { 0 };
                tables.tb_ability_task = Table::from_rows(vec![original, unused]).unwrap();
            }
            "AbilityAdditionalCost" => {
                tables.tb_ability_additional_cost = Table::from_rows(vec![AbilityAdditionalCost {
                    id: 99,
                    resource: "Inventory.Unused".to_owned(),
                    amount: if invalid { 0 } else { 1 },
                }])
                .unwrap();
            }
            "Modifier" => {
                tables.tb_attribute = health();
                tables.tb_modifier =
                    Table::from_rows(vec![modifier(99, if invalid { f32::NAN } else { 1.0 })]).unwrap();
            }
            _ => unreachable!(),
        }
        for validate in [false, true] {
            let result = compile(&tables, validate);
            if invalid && validate {
                let error = result.err().unwrap();
                assert!(
                    matches!(error.location(), ConfigLocation::Table { table: actual, row: Some(row), .. } if *actual == table && row == "99")
                );
            } else {
                let catalog = result.unwrap();
                assert_eq!(catalog.abilities.len(), 1);
                assert_eq!(catalog.effects.len(), 0);
            }
        }
    }
}

#[test]
fn binary_rows_decode_parent_lists_and_independent_child_definitions() {
    // All integers fit in one byte; binary32 values use little-endian IEEE 754 bytes.
    let ability = vec![1, 7, 1, b'A', 2, 0, 1, 6, 0, 0, 0, 0, 0, 0, 1, 0, 2, 9, 8];
    let task = vec![1, 9, 3, 1, 0, 0];
    let mut effect = vec![1, 4, 1, b'E', 0, 0, 0, 0];
    effect.extend_from_slice(&1.0_f32.to_le_bytes());
    effect.extend_from_slice(&[0, 0, 2, 3, 2]);
    let mut modifier = vec![1, 3, 6];
    modifier.extend_from_slice(b"Health");
    modifier.extend_from_slice(&[0, 0]);
    modifier.extend_from_slice(&12.0_f32.to_le_bytes());
    modifier.extend_from_slice(&0.0_f32.to_le_bytes());
    let files = gas_config::config::generated::table_files()
        .into_iter()
        .map(|name| {
            let bytes = match name {
                "gas_tbability" => ability.clone(),
                "gas_tbabilitytask" => task.clone(),
                "gas_tbeffect" => effect.clone(),
                "gas_tbmodifier" => modifier.clone(),
                _ => vec![0],
            };
            (name.to_owned(), bytes)
        })
        .collect();
    let tables = Tables::new(files).unwrap();
    let ability = tables.tb_ability.get(7).unwrap();
    assert_eq!(ability.task_ids, [9, 8]);
    assert_eq!(ability.additional_cost_ids, [6]);
    assert_eq!(tables.tb_ability_task.get(9).unwrap().at_tick, 3);
    assert_eq!(tables.tb_effect.get(4).unwrap().modifier_ids, [3, 2]);
    assert_eq!(f32::from_bits(tables.tb_modifier.get(3).unwrap().base.0), 12.0);
}
