use gas_config::config::catalog::{AbilityId, ConfiguredAbilities};
use gas_config::config::compiler::planning::{plan_catalog, CatalogPlan};
use gas_config::config::compiler::startup::missing_registry;
use gas_config::config::compiler::preparation::PreparedTables;
use gas_config::config::compiler::registration::tag_registration_order;
use gas_config::config::compiler::validation::{validate_prepared, GasCapacity};
use gas_config::config::decoding::Float32;
use gas_config::config::generated::{
    table_files, Ability, AbilityTask, ActionKind, Attribute, AttributeRegion, DurationKind,
    Effect, MagnitudeKind, Modifier, ModifierOperation, SelectionKind, SortOrder, Table, Tables,
    TargetScope, Targeting,
};
use gas_config::config::inspection::report::{AbilityReport, ReportPart};
use gas_config::config::inspection::{describe_ability, describe_ability_at_level};
use gas_config::config::{ConfigError, ConfigErrorKind, ConfigLocation};

fn capacity() -> GasCapacity {
    GasCapacity { max_tags: 64, hot_attributes: 16, cold_attributes: 16 }
}

fn bits(v: f32) -> Float32 {
    Float32(v.to_bits())
}

/// Prepares, optionally validates, and plans the catalog of `tables`.
fn compile(tables: &Tables, validate: bool) -> Result<CatalogPlan, ConfigError> {
    let prepared = PreparedTables::new(tables)?;
    if validate {
        validate_prepared(&prepared, capacity())?;
    }
    plan_catalog(&prepared, &tag_registration_order(tables))
}

fn tables(unused_radius: Option<f32>) -> Tables {
    let mut tables = Tables::empty();
    tables.tb_ability = Table::from_rows(vec![Ability {
        id: 1,
        name: "Test ability".to_owned(),
        max_level: 2,
        cost_effect_id: None,
        additional_cost_ids: vec![],
        cooldown_effect_id: None,
        asset_tags: vec![],
        required_tags: vec![],
        blocked_tags: vec![],
        cancel_ability_tags: vec![],
        block_ability_tags: vec![],
        targeting_id: 1,
        allow_multiple_instances: false,
        task_ids: vec![1],
    }])
    .unwrap();
    tables.tb_ability_task = Table::from_rows(vec![AbilityTask {
        id: 1,
        at_tick: 0,
        kind: ActionKind::EndAbility,
        target_scope: TargetScope::NoTarget,
        effect_id: None,
    }])
    .unwrap();
    tables.tb_targeting = Table::from_rows(vec![Targeting {
        id: 1,
        name: "Self".to_owned(),
        selection: SelectionKind::SelfTarget,
        radius: unused_radius.map(bits),
        half_angle_radians: None,
        max_distance: None,
        exclude_source: false,
        require_attributes: false,
        required_tags: vec![],
        blocked_tags: vec![],
        sort: SortOrder::Unsorted,
        limit: 1,
    }])
    .unwrap();
    tables
}

fn effect(duration: Option<i32>, period: Option<i32>, probability: f32) -> Effect {
    Effect {
        id: 1,
        name: "Test effect".to_owned(),
        duration_kind: DurationKind::DurationTicks,
        duration_ticks: duration,
        period_ticks: period,
        execute_on_applied: false,
        probability: bits(probability),
        asset_tags: vec![],
        granted_tags: vec![],
        modifier_ids: vec![],
    }
}

fn render(report: &AbilityReport) -> String {
    let mut text = String::new();
    for part in &report.parts {
        match part {
            ReportPart::Text(s) => text.push_str(s),
            ReportPart::Float(v) => text.push_str(&f32::from_bits(*v).to_string()),
            ReportPart::OptionalFloat(v) => text.push_str(&format!("{:?}", v.map(f32::from_bits))),
            ReportPart::Magnitude(_) => text.push_str("<value>"),
        }
    }
    text
}

#[test]
fn runtime_catalog_grants_and_revokes_without_tooling_apis() {
    let catalog = compile(&tables(None), false).unwrap();
    let ability = &catalog.abilities[0];
    assert_eq!(ability.id, 1);
    assert_eq!(ability.name, "Test ability");
    let mut bindings: ConfiguredAbilities<u64> = ConfiguredAbilities::new();
    assert!(bindings.check_grant(Some(ability.max_level), AbilityId(1), 0).is_err());
    assert!(bindings.handle(AbilityId(1)).is_none());
    assert!(bindings.check_grant(Some(ability.max_level), AbilityId(1), 2).is_ok());
    let handle = 7;
    bindings.bind(AbilityId(1), handle);
    assert_eq!(bindings.handle(AbilityId(1)), Some(handle));
    assert!(bindings.finish_revoke(AbilityId(1), true).unwrap());
    assert!(bindings.handle(AbilityId(1)).is_none());
}

#[test]
fn extra_authoring_validation_depends_on_luban_config_feature() {
    let error = compile(&tables(Some(1.0)), true).err().unwrap();
    assert_eq!(error.kind(), ConfigErrorKind::Validation);
    assert!(
        matches!(error.location(), ConfigLocation::Table { table: "Targeting", row: Some(row), field: Some(field) } if row == "1" && field == "radius")
    );
    let catalog = compile(&tables(Some(1.0)), false).unwrap();
    assert!(catalog.abilities.iter().any(|a| a.id == 1));
}

#[test]
fn required_references_and_ecs_resources_are_always_checked() {
    let mut tables = tables(None);
    let missing = missing_registry("UniqueNamePool");
    assert_eq!(missing.kind(), ConfigErrorKind::MissingResource);
    assert!(matches!(missing.location(), ConfigLocation::Resource("UniqueNamePool")));
    assert_eq!(missing.message(), "install GameplayAbilitySystemPlugin before compiling configuration");
    tables.tb_targeting = Table::from_rows(vec![]).unwrap();
    for validate in [false, true] {
        assert!(compile(&tables, validate).is_err());
    }
}

#[test]
fn invalid_effect_numbers_are_always_rejected() {
    for (duration, period, probability) in [
        (None, None, 1.0),
        (Some(0), None, 1.0),
        (Some(-1), None, 1.0),
        (Some(16_777_217), None, 1.0),
        (Some(1), Some(0), 1.0),
        (Some(1), None, f32::NAN),
        (Some(1), None, 1.1),
        (Some(1), None, -0.1),
        (Some(1), None, f32::INFINITY),
    ] {
        let mut tables = tables(None);
        tables.tb_effect = Table::from_rows(vec![effect(duration, period, probability)]).unwrap();
        for validate in [false, true] {
            assert!(compile(&tables, validate).is_err());
        }
    }
}

#[test]
fn invalid_levels_and_unrepresentable_targeting_distances_are_always_rejected() {
    let mut invalid_level = tables(None);
    let mut ability = invalid_level.tb_ability.get(1).unwrap().clone();
    ability.max_level = 0;
    invalid_level.tb_ability = Table::from_rows(vec![ability]).unwrap();
    for validate in [false, true] {
        assert!(compile(&invalid_level, validate).is_err());
    }

    for (selection, radius, max_distance) in [
        (SelectionKind::Sphere, Some(f32::MAX), None),
        (SelectionKind::SelfTarget, None, Some(f32::MAX)),
    ] {
        let mut tables = tables(None);
        let mut targeting = tables.tb_targeting.get(1).unwrap().clone();
        targeting.selection = selection;
        targeting.radius = radius.map(bits);
        targeting.max_distance = max_distance.map(bits);
        tables.tb_targeting = Table::from_rows(vec![targeting]).unwrap();
        for validate in [false, true] {
            assert!(compile(&tables, validate).is_err());
        }
    }
}

#[test]
fn modifier_parameter_checks_respect_magnitude_kind_and_feature() {
    for validate in [false, true] {
        let unused_slope_is_allowed = !validate;
        for (magnitude_kind, base, per_level, valid) in [
            (MagnitudeKind::LinearLevel, 1.0, 1.0, true),
            (MagnitudeKind::LinearLevel, f32::NAN, 1.0, false),
            (MagnitudeKind::LinearLevel, 1.0, f32::INFINITY, false),
            (MagnitudeKind::Flat, 1.0, f32::NAN, unused_slope_is_allowed),
            (MagnitudeKind::Flat, 1.0, f32::INFINITY, unused_slope_is_allowed),
        ] {
            let mut tables = tables(None);
            tables.tb_attribute = Table::from_rows(vec![Attribute {
                name: "Health".to_owned(),
                region: AttributeRegion::Hot,
                description: String::new(),
            }])
            .unwrap();
            let mut definition = effect(Some(1), None, 1.0);
            definition.modifier_ids = vec![1];
            tables.tb_effect = Table::from_rows(vec![definition]).unwrap();
            tables.tb_modifier = Table::from_rows(vec![Modifier {
                id: 1,
                attribute: "Health".to_owned(),
                operation: ModifierOperation::Add,
                magnitude_kind,
                base: bits(base),
                per_level: bits(per_level),
            }])
            .unwrap();
            assert_eq!(compile(&tables, validate).is_ok(), valid);
        }
    }
}

#[test]
fn probability_endpoints_are_supported() {
    for probability in [0.0, 1.0] {
        let mut tables = tables(None);
        tables.tb_effect = Table::from_rows(vec![effect(Some(1), None, probability)]).unwrap();
        for validate in [false, true] {
            let catalog = compile(&tables, validate).unwrap();
            assert_eq!(catalog.effects.len(), 1);
            assert_eq!(catalog.effects[0].probability, probability.to_bits());
        }
    }
}

#[test]
fn public_inspection_apis_preserve_default_level_and_errors() {
    let tables = tables(None);
    let default_report = render(&describe_ability(&tables, AbilityId(1), capacity()).unwrap());
    assert_eq!(
        default_report,
        render(&describe_ability_at_level(&tables, AbilityId(1), 1, capacity()).unwrap())
    );
    assert!(default_report.contains("Test ability | level 1/2"));
    assert!(render(&describe_ability_at_level(&tables, AbilityId(1), 2, capacity()).unwrap()).contains("level 2/2"));
    let error: ConfigError = describe_ability_at_level(&tables, AbilityId(1), 3, capacity()).unwrap_err();
    assert_eq!(error.kind(), ConfigErrorKind::UnsupportedLevel);
    assert!(
        matches!(error.location(), ConfigLocation::Table { table: "Ability", row: Some(row), field: Some(field) } if row == "1" && field == "level")
    );
    assert!(describe_ability(&tables, AbilityId(99), capacity()).is_err());
}

#[test]
fn generated_decoding_rejects_truncated_and_trailing_bytes() {
    let names = table_files();
    for malformed in [vec![], vec![1], vec![0, 0]] {
        let files = names
            .iter()
            .map(|name| (name.to_string(), if *name == names[0] { malformed.clone() } else { vec![0] }))
            .collect();
        assert!(Tables::new(files).is_err());
    }
}
