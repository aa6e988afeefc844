use gas_config::config::catalog::AbilityId;
use gas_config::config::compiler::planning::{plan_catalog, CatalogPlan};
use gas_config::config::compiler::preparation::PreparedTables;
use gas_config::config::compiler::registration::{resource_registration_order, tag_registration_order};
use gas_config::config::compiler::validation::{validate_prepared, validate_tables, GasCapacity};
use gas_config::config::generated::{
    table_files, Ability, AbilityAdditionalCost, AbilityTask, ActionKind, SelectionKind, SortOrder,
    Table, Tables, TargetScope, Targeting,
};
use gas_config::config::inspection::report::{AbilityReport, ReportPart};
use gas_config::config::inspection::{describe_ability, describe_ability_at_level};
use gas_config::config::{ConfigError, ConfigErrorKind, ConfigLocation};

fn capacity() -> GasCapacity {
    GasCapacity { max_tags: 64, hot_attributes: 16, cold_attributes: 16 }
}

fn compile(tables: &Tables, validate: bool) -> Result<CatalogPlan, ConfigError> {
    let prepared = PreparedTables::new(tables)?;
    if validate {
        validate_prepared(&prepared, capacity())?;
    }
    plan_catalog(&prepared, &tag_registration_order(tables))
}

/// The external costs of ability `id`, in its cost order.
fn requirements(tables: &Tables, id: i32) -> Vec<(String, u32)> {
    let prepared = PreparedTables::new(tables).unwrap();
    prepared.additional_costs(id).iter().map(|c| (c.resource.clone(), c.amount)).collect()
}

fn location(row: &str, field: &str) -> ConfigLocation {
    ConfigLocation::Table { table: "AbilityAdditionalCost", row: Some(row.to_owned()), field: Some(field.to_owned()) }
}

fn cost(id: i32, resource: &str, amount: i64) -> AbilityAdditionalCost {
    AbilityAdditionalCost { id, resource: resource.to_owned(), amount }
}

fn base_tables() -> Tables {
    let mut tables = Tables::empty();
    tables.tb_ability = Table::from_rows(vec![Ability {
        id: 1,
        name: "Test ability".to_owned(),
        max_level: 2,
        cost_effect_id: None,
        additional_cost_ids: vec![],
        cooldown_effect_id: None,
        asset_tags: vec![],
        required_tags: vec![],
        blocked_tags: vec![],
        cancel_ability_tags: vec![],
        block_ability_tags: vec![],
        targeting_id: 1,
        allow_multiple_instances: false,
        task_ids: vec![1],
    }])
    .unwrap();
    tables.tb_ability_task = Table::from_rows(vec![AbilityTask {
        id: 1,
        at_tick: 0,
        kind: ActionKind::EndAbility,
        target_scope: TargetScope::NoTarget,
        effect_id: None,
    }])
    .unwrap();
    tables.tb_targeting = Table::from_rows(vec![Targeting {
        id: 1,
        name: "Self".to_owned(),
        selection: SelectionKind::SelfTarget,
        radius: None,
        half_angle_radians: None,
        max_distance: None,
        exclude_source: false,
        require_attributes: false,
        required_tags: vec![],
        blocked_tags: vec![],
        sort: SortOrder::Unsorted,
        limit: 1,
    }])
    .unwrap();
    tables
}

fn tables(rows: Vec<AbilityAdditionalCost>) -> Tables {
    let mut ids: Vec<_> = rows.iter().map(|row| row.id).collect();
    ids.sort_unstable();
    tables_with_ids(rows, ids)
}

fn tables_with_ids(rows: Vec<AbilityAdditionalCost>, ids: Vec<i32>) -> Tables {
    let mut tables = base_tables();
    let mut ability = tables.tb_ability.get(1).unwrap().clone();
    ability.additional_cost_ids = ids;
    tables.tb_ability = Table::from_rows(vec![ability]).unwrap();
    tables.tb_ability_additional_cost = Table::from_rows(rows).unwrap();
    tables
}

fn render(report: &AbilityReport) -> String {
    let mut text = String::new();
    for part in &report.parts {
        match part {
            ReportPart::Text(s) => text.push_str(s),
            ReportPart::Float(v) => text.push_str(&f32::from_bits(*v).to_string()),
            ReportPart::OptionalFloat(v) => text.push_str(&format!("{:?}", v.map(f32::from_bits))),
            ReportPart::Magnitude(_) => text.push_str("<value>"),
        }
    }
    text
}

fn decode_with_costs(bytes: &[u8]) -> Result<Tables, ()> {
    let files = table_files()
        .into_iter()
        .map(|name| {
            let data = if name == "gas_tbabilityadditionalcost" { bytes.to_vec() } else { vec![0] };
            (name.to_owned(), data)
        })
        .collect();
    Tables::new(files).map_err(|_| ())
}

#[test]
fn generated_cost_table_decodes_long_amount_and_compiles_the_requirement() {
    // One row: id 7, Inventory.Bomb, and the largest u32 amount.
    let mut bytes = vec![1, 7, 14];
    bytes.extend_from_slice(b"Inventory.Bomb");
    bytes.extend_from_slice(&[0xf0, 0xff, 0xff, 0xff, 0xff]);
    let decoded = decode_with_costs(&bytes).unwrap();
    let row = decoded.tb_ability_additional_cost.get(7).unwrap();
    assert_eq!(row.resource, "Inventory.Bomb");
    assert_eq!(row.amount, i64::from(u32::MAX));

    let mut tables = tables_with_ids(vec![], vec![7]);
    tables.tb_ability_additional_cost = decoded.tb_ability_additional_cost;
    assert!(compile(&tables, false).is_ok());
    assert_eq!(requirements(&tables, 1), vec![("Inventory.Bomb".to_owned(), u32::MAX)]);
    let prepared = PreparedTables::new(&tables).unwrap();
    assert_eq!(resource_registration_order(&prepared), vec![("Inventory.Bomb".to_owned(), 7)]);

    for malformed in [bytes[..bytes.len() - 1].to_vec(), [bytes, vec![0]].concat()] {
        assert!(decode_with_costs(&malformed).is_err());
    }
}

#[test]
fn cost_order_and_name_registration_are_independent_of_input_row_order() {
    let rows = vec![cost(1, "Inventory.Ammo", 1), cost(2, "Inventory.ZBomb", 2), cost(3, "Inventory.ZBomb", 3)];
    let mut compiled = Vec::new();
    for reverse in [false, true] {
        let mut rows = rows.clone();
        if reverse {
            rows.reverse();
        }
        let tables = tables_with_ids(rows, vec![3, 2, 1]);
        assert!(compile(&tables, false).is_ok());
        let costs = requirements(&tables, 1);
        assert_eq!(
            costs,
            vec![
                ("Inventory.ZBomb".to_owned(), 3),
                ("Inventory.ZBomb".to_owned(), 2),
                ("Inventory.Ammo".to_owned(), 1),
            ]
        );
        let prepared = PreparedTables::new(&tables).unwrap();
        let names = resource_registration_order(&prepared);
        assert_eq!(names, vec![("Inventory.Ammo".to_owned(), 1), ("Inventory.ZBomb".to_owned(), 3)]);
        compiled.push((costs, names));
    }
    assert_eq!(compiled[0], compiled[1]);
}

#[test]
fn malformed_costs_are_rejected_with_field_locations_in_every_feature_mode() {
    let mut cases = Vec::new();
    for amount in [i64::MIN, -1, 0, i64::from(u32::MAX) + 1, i64::MAX] {
        cases.push((vec![cost(1, "Inventory.Bomb", amount)], "1", "amount"));
    }
    for resource in ["", " \t\n"] {
        cases.push((vec![cost(1, resource, 1)], "1", "resource"));
    }
    cases.push((vec![cost(1, "Inventory.Bomb", i64::from(u32::MAX)), cost(2, "Inventory.Bomb", 1)], "2", "amount"));
    for (rows, row, field) in cases {
        for validate in [false, true] {
            let error = compile(&tables(rows.clone()), validate).err().unwrap();
            assert_eq!(error.kind(), ConfigErrorKind::InvalidValue);
            assert_eq!(error.location(), &location(row, field));
        }
    }
}

#[test]
fn abilities_without_cost_rows_keep_an_empty_requirement_list() {
    let tables = base_tables();
    assert!(compile(&tables, false).is_ok());
    assert!(requirements(&tables, 1).is_empty());
}

#[test]
fn authoring_validation_rejects_malformed_resource_names() {
    for resource in ["Inventory..Bomb", ".Inventory", "Inventory.", "Inventory Bomb", "背包.炸弹"] {
        let error = validate_tables(&tables(vec![cost(1, resource, 1)]), capacity()).unwrap_err();
        assert_eq!(error.kind(), ConfigErrorKind::Validation);
        assert_eq!(error.location(), &location("1", "resource"));
    }
}

#[test]
fn inspection_displays_ordered_costs_with_constant_amounts_at_each_level() {
    let rows = vec![cost(1, "Inventory.Bomb", 2), cost(2, "Inventory.Ammo", 3)];
    let report =
        render(&describe_ability(&tables_with_ids(rows.clone(), vec![2, 1]), AbilityId(1), capacity()).unwrap());
    let mut reversed = rows.clone();
    reversed.reverse();
    assert_eq!(
        report,
        render(&describe_ability(&tables_with_ids(reversed, vec![2, 1]), AbilityId(1), capacity()).unwrap())
    );
    let cost_lines: Vec<_> = report.lines().filter(|line| line.starts_with("Additional cost")).collect();
    assert_eq!(
        cost_lines,
        [
            "Additional cost / order 0: resource=Inventory.Ammo, amount=3",
            "Additional cost / order 1: resource=Inventory.Bomb, amount=2",
        ]
    );
    let level_two =
        render(&describe_ability_at_level(&tables_with_ids(rows, vec![2, 1]), AbilityId(1), 2, capacity()).unwrap());
    assert_eq!(
        cost_lines,
        level_two.lines().filter(|line| line.starts_with("Additional cost")).collect::<Vec<_>>()
    );
}

#[test]
fn resource_totals_and_order_positions_are_scoped_to_each_ability() {
    let mut tables = tables(vec![cost(1, "Inventory.Bomb", i64::from(u32::MAX))]);
    let first = tables.tb_ability.get(1).unwrap().clone();
    let mut second = first.clone();
    second.id = 2;
    tables.tb_ability = Table::from_rows(vec![first, second]).unwrap();
    let catalog = compile(&tables, false).unwrap();
    assert_eq!(catalog.abilities.len(), 2);
    let first_costs = requirements(&tables, 1);
    let second_costs = requirements(&tables, 2);
    assert_eq!(first_costs.len(), 1);
    assert_eq!(first_costs[0].1, u32::MAX);
    assert_eq!(first_costs, second_costs);
}
