use gas_config::config::catalog::AbilityId;
use gas_config::config::compiler::abilities::{plan_abilities, TaskAction};
use gas_config::config::compiler::effects::ticks_exact;
use gas_config::config::compiler::magnitude::{flat_range, linear_range};
use gas_config::config::compiler::planning::{plan_catalog, CatalogPlan};
use gas_config::config::compiler::preparation::{PreparedActionKind, PreparedTables};
use gas_config::config::compiler::registration::{
    attribute_registration_order, tag_parent, tag_registration_order,
};
use gas_config::config::compiler::targeting::{plan_targeting, TargetingStep};
use gas_config::config::compiler::validation::{validate_prepared, validate_tables, GasCapacity};
use gas_config::config::decoding::Float32;
use gas_config::config::generated::{
    Ability, AbilityTask, ActionKind, Attribute, AttributeRegion, DurationKind, Effect,
    SelectionKind, SortOrder, Table, Tables, Tag, TargetScope, Targeting,
};
use gas_config::config::inspection::report::{AbilityReport, ReportPart};
use gas_config::config::inspection::describe_ability;
use gas_config::config::{ConfigError, ConfigErrorKind, ConfigLocation};

fn capacity() -> GasCapacity {
    GasCapacity { max_tags: 64, hot_attributes: 16, cold_attributes: 16 }
}

fn bits(v: f32) -> Float32 {
    Float32(v.to_bits())
}

fn compile(tables: &Tables, validate: bool) -> Result<CatalogPlan, ConfigError> {
    let prepared = PreparedTables::new(tables)?;
    if validate {
        validate_prepared(&prepared, capacity())?;
    }
    plan_catalog(&prepared, &tag_registration_order(tables))
}

fn ability() -> Ability {
    Ability {
        id: 1,
        name: "Timeline".to_owned(),
        max_level: 2,
        cost_effect_id: None,
        additional_cost_ids: vec![],
        cooldown_effect_id: None,
        asset_tags: vec![],
        required_tags: vec![],
        blocked_tags: vec![],
        cancel_ability_tags: vec![],
        block_ability_tags: vec![],
        targeting_id: 1,
        allow_multiple_instances: false,
        task_ids: vec![],
    }
}

fn self_targeting(radius: Option<f32>) -> Targeting {
    Targeting {
        id: 1,
        name: "Self".to_owned(),
        selection: SelectionKind::SelfTarget,
        radius: radius.map(bits),
        half_angle_radians: None,
        max_distance: None,
        exclude_source: false,
        require_attributes: false,
        required_tags: vec![],
        blocked_tags: vec![],
        sort: SortOrder::Unsorted,
        limit: 1,
    }
}

fn tables(unused_radius: Option<f32>) -> Tables {
    let mut tables = Tables::empty();
    let mut a = ability();
    a.name = "Test ability".to_owned();
    a.task_ids = vec![1];
    tables.tb_ability = Table::from_rows(vec![a]).unwrap();
    tables.tb_ability_task = Table::from_rows(vec![AbilityTask {
        id: 1,
        at_tick: 0,
        kind: ActionKind::EndAbility,
        target_scope: TargetScope::NoTarget,
        effect_id: None,
    }])
    .unwrap();
    tables.tb_targeting = Table::from_rows(vec![self_targeting(unused_radius)]).unwrap();
    tables
}

fn timeline_tables(reverse: bool) -> Tables {
    let mut tables = Tables::empty();
    let mut ability = ability();
    ability.task_ids = vec![3, 1, 2, 4];
    tables.tb_ability = Table::from_rows(vec![ability]).unwrap();
    tables.tb_targeting = Table::from_rows(vec![self_targeting(None)]).unwrap();
    tables.tb_effect = Table::from_rows(
        (1..=3)
            .map(|id| Effect {
                id,
                name: format!("Effect {id}"),
                duration_kind: DurationKind::Instant,
                duration_ticks: None,
                period_ticks: None,
                execute_on_applied: false,
                probability: bits(1.0),
                asset_tags: vec![],
                granted_tags: vec![],
                modifier_ids: vec![],
            })
            .collect(),
    )
    .unwrap();
    let mut actions = vec![
        AbilityTask { id: 4, at_tick: 2, kind: ActionKind::EndAbility, target_scope: TargetScope::NoTarget, effect_id: None },
        AbilityTask { id: 2, at_tick: 2, kind: ActionKind::ApplyEffect, target_scope: TargetScope::AllCaptured, effect_id: Some(2) },
        AbilityTask { id: 1, at_tick: 0, kind: ActionKind::ApplyEffect, target_scope: TargetScope::Primary, effect_id: Some(1) },
        AbilityTask { id: 3, at_tick: 2, kind: ActionKind::ApplyEffect, target_scope: TargetScope::Primary, effect_id: Some(3) },
    ];
    if reverse {
        actions.reverse();
    }
    tables.tb_ability_task = Table::from_rows(actions).unwrap();
    tables
}

fn table_location(location: &ConfigLocation) -> (&'static str, Option<String>, Option<String>) {
    match location {
        ConfigLocation::Table { table, row, field } => (*table, row.clone(), field.clone()),
        other => panic!("unexpected location {other:?}"),
    }
}

fn render(report: &AbilityReport) -> String {
    let mut text = String::new();
    for part in &report.parts {
        match part {
            ReportPart::Text(s) => text.push_str(s),
            ReportPart::Float(v) => text.push_str(&f32::from_bits(*v).to_string()),
            ReportPart::OptionalFloat(v) => text.push_str(&format!("{:?}", v.map(f32::from_bits))),
            ReportPart::Magnitude(_) => text.push_str("<value>"),
        }
    }
    text
}

#[test]
fn authored_order_drives_compiled_tasks_independently_of_input_row_order() {
    for reverse in [false, true] {
        let tables = timeline_tables(reverse);
        let prepared = PreparedTables::new(&tables).unwrap();
        let keys: Vec<(u32, usize)> = prepared.actions(1).iter().map(|a| (a.tick, a.order)).collect();
        assert_eq!(keys, vec![(0, 1), (2, 0), (2, 2), (2, 3)]);
        assert!(matches!(prepared.actions(1)[3].kind, PreparedActionKind::EndAbility));
        let catalog = compile(&tables, false).unwrap();
        let tasks = &catalog.abilities[0].tasks;
        assert_eq!(tasks.len(), 2);
        assert_eq!(tasks[0].tick, 0);
        assert_eq!(tasks[0].actions, vec![TaskAction::ApplyToTarget(1)]);
        assert_eq!(tasks[1].tick, 2);
        assert_eq!(
            tasks[1].actions,
            vec![TaskAction::ApplyToTarget(3), TaskAction::ApplyToTargets(2), TaskAction::EndAbility]
        );
    }
}

#[test]
fn validation_and_inspection_share_the_compiler_timeline_order() {
    let tables = timeline_tables(false);
    validate_tables(&tables, capacity()).unwrap();
    let report = render(&describe_ability(&tables, AbilityId(1), capacity()).unwrap());
    assert_eq!(report, render(&describe_ability(&timeline_tables(true), AbilityId(1), capacity()).unwrap()));
    let actions: Vec<_> = report.lines().filter(|line| line.starts_with("tick ")).collect();
    assert_eq!(
        actions,
        [
            "tick 0 / order 1: ApplyEffect to Primary",
            "tick 2 / order 0: ApplyEffect to Primary",
            "tick 2 / order 2: ApplyEffect to AllCaptured",
            "tick 2 / order 3: EndAbility",
        ]
    );
}

#[test]
fn configured_abilities_require_one_explicit_final_end_action() {
    for invalid_timeline in ["missing", "duplicate", "early"] {
        let mut tables = timeline_tables(false);
        let mut actions: Vec<AbilityTask> = tables.tb_ability_task.rows().clone();
        let mut ability = tables.tb_ability.get(1).unwrap().clone();
        match invalid_timeline {
            "missing" => ability.task_ids.retain(|id| *id != 4),
            "duplicate" => {
                ability.task_ids.push(5);
                actions.push(AbilityTask {
                    id: 5,
                    at_tick: 3,
                    kind: ActionKind::EndAbility,
                    target_scope: TargetScope::NoTarget,
                    effect_id: None,
                });
            }
            "early" => {
                let end = actions.iter_mut().find(|action| action.kind == ActionKind::EndAbility).unwrap();
                end.at_tick = 0;
            }
            _ => unreachable!(),
        }
        tables.tb_ability = Table::from_rows(vec![ability]).unwrap();
        tables.tb_ability_task = Table::from_rows(actions).unwrap();
        let error = validate_tables(&tables, capacity()).unwrap_err();
        assert_eq!(error.kind(), ConfigErrorKind::Validation);
        assert_eq!(table_location(error.location()), ("Ability", Some("1".to_owned()), None), "{invalid_timeline}");
        assert_eq!(error.message(), "exactly one EndAbility must be the final ordered action", "{invalid_timeline}");
    }
}

#[test]
fn minimal_tables_pass_validation() {
    assert!(validate_tables(&tables(None), capacity()).is_ok());
    assert!(compile(&tables(None), true).is_ok());
}

#[test]
fn inspection_reports_list_targeting_and_tags() {
    let report = render(&describe_ability(&tables(None), AbilityId(1), capacity()).unwrap());
    assert!(report.starts_with("Ability 1: Test ability | level 1/2\nTargeting 1: Self | SelfTarget\n"));
    assert!(report.contains("  radius=None, half_angle_radians=None, max_distance=None, sort=None, limit=1\n"));
    assert!(report.contains("Ability tags: [] | required=[] | blocked=[]\n"));
    let error = describe_ability(&tables(None), AbilityId(99), capacity()).unwrap_err();
    assert_eq!(error.kind(), ConfigErrorKind::UnknownAbility);
}

#[test]
fn inspection_quotes_tag_names() {
    let mut tables = tables(None);
    tables.tb_tag = Table::from_rows(vec![
        Tag { name: "Ability.Fire".to_owned() },
        Tag { name: "State.Stunned".to_owned() },
    ])
    .unwrap();
    let mut a = tables.tb_ability.get(1).unwrap().clone();
    a.asset_tags = vec!["Ability.Fire".to_owned()];
    a.blocked_tags = vec!["State.Stunned".to_owned()];
    tables.tb_ability = Table::from_rows(vec![a]).unwrap();
    let report = render(&describe_ability(&tables, AbilityId(1), capacity()).unwrap());
    assert!(report.contains("Ability tags: [\"Ability.Fire\"] | required=[] | blocked=[\"State.Stunned\"]\n"));
}

#[test]
fn tick_counts_must_be_exact_binary32_integers() {
    assert!(ticks_exact(1));
    assert!(ticks_exact(16_777_216));
    assert!(!ticks_exact(16_777_217));
    assert!(ticks_exact(33_554_432));
    assert!(!ticks_exact(33_554_434));
    assert!(!ticks_exact(0));
    assert!(!ticks_exact(-5));
    assert_eq!(ticks_exact(16_777_217), (16_777_217_i32 as f32) as f64 == 16_777_217_f64);
}

#[test]
fn tags_register_sorted_with_implicit_parents() {
    let mut tables = tables(None);
    tables.tb_tag = Table::from_rows(vec![
        Tag { name: "State.Stunned".to_owned() },
        Tag { name: "Ability.Fire.Ball".to_owned() },
    ])
    .unwrap();
    assert_eq!(
        tag_registration_order(&tables),
        vec!["Ability", "Ability.Fire", "Ability.Fire.Ball", "State", "State.Stunned"]
    );
    assert_eq!(tag_parent("Ability.Fire.Ball"), Some("Ability.Fire".to_owned()));
    assert_eq!(tag_parent("Ability"), None);
}

#[test]
fn attributes_register_by_name() {
    let mut tables = tables(None);
    tables.tb_attribute = Table::from_rows(vec![
        Attribute { name: "Mana".to_owned(), region: AttributeRegion::Cold, description: String::new() },
        Attribute { name: "Health".to_owned(), region: AttributeRegion::Hot, description: String::new() },
    ])
    .unwrap();
    assert_eq!(
        attribute_registration_order(&tables),
        vec![("Health".to_owned(), AttributeRegion::Hot), ("Mana".to_owned(), AttributeRegion::Cold)]
    );
}

#[test]
fn tag_capacity_counts_implicit_parents() {
    let mut tables = tables(None);
    tables.tb_tag = Table::from_rows(vec![Tag { name: "A.B.C".to_owned() }]).unwrap();
    let small = GasCapacity { max_tags: 2, hot_attributes: 16, cold_attributes: 16 };
    let error = validate_tables(&tables, small).unwrap_err();
    assert_eq!(table_location(error.location()), ("Tag", None, None));
    let exact = GasCapacity { max_tags: 3, hot_attributes: 16, cold_attributes: 16 };
    assert!(validate_tables(&tables, exact).is_ok());
}

#[test]
fn targeting_plans_follow_the_pipeline_order() {
    let mut row = self_targeting(None);
    row.selection = SelectionKind::Sphere;
    row.radius = Some(bits(3.0));
    row.exclude_source = true;
    row.require_attributes = true;
    row.max_distance = Some(bits(10.0));
    row.sort = SortOrder::Nearest;
    row.limit = 4;
    let steps = plan_targeting(&vec![], &row).unwrap();
    assert_eq!(
        steps,
        vec![
            TargetingStep::SelectSphere { radius: 3.0f32.to_bits() },
            TargetingStep::FilterSource,
            TargetingStep::RequireAttributeSet,
            TargetingStep::FilterDistance { max_distance: 10.0f32.to_bits() },
            TargetingStep::SortByDistance { ascending: true },
            TargetingStep::Limit { count: 4 },
        ]
    );
    row.radius = Some(bits(f32::MAX));
    let error = plan_targeting(&vec![], &row).unwrap_err();
    assert_eq!(error.kind(), ConfigErrorKind::InvalidValue);
    assert_eq!(table_location(error.location()), ("Targeting", Some("1".to_owned()), Some("radius".to_owned())));
}

#[test]
fn invalid_levels_are_rejected_by_compilation() {
    let mut tables = tables(None);
    let mut a = tables.tb_ability.get(1).unwrap().clone();
    a.max_level = 0;
    tables.tb_ability = Table::from_rows(vec![a]).unwrap();
    let prepared = PreparedTables::new(&tables).unwrap();
    let error = plan_abilities(&prepared, &vec![]).unwrap_err();
    assert_eq!(error.kind(), ConfigErrorKind::InvalidValue);
    assert_eq!(table_location(error.location()), ("Ability", Some("1".to_owned()), Some("max_level".to_owned())));
}

#[test]
fn level_formulas_are_checked_in_binary64() {
    let level_value = |base: f32, per_level: f32, level: u32| base as f64 + per_level as f64 * (level.saturating_sub(1)) as f64;
    for (base, per_level, level) in [
        (1.0f32, 2.0f32, 3u32),
        (f32::MAX, f32::MAX, 2),
        (-1.0, 0.5, 3),
        (f32::MAX, 0.0, 100),
        (-3.0, -1.0, 1),
        (f32::MAX, 1.0e30, 2),
    ] {
        let value = level_value(base, per_level, level);
        let within = value.is_finite() && value.abs() <= f32::MAX as f64;
        assert_eq!(linear_range(base.to_bits(), per_level.to_bits(), level), (within, value < 0.0));
    }
    assert_eq!(flat_range((-2.5f32).to_bits()), (true, true));
    assert_eq!(flat_range((-0.0f32).to_bits()), (true, false));
}

#[test]
fn child_row_order_decides_neither_success_nor_report() {
    for reverse in [false, true] {
        assert!(validate_tables(&timeline_tables(reverse), capacity()).is_ok());
    }
    let with_unused_rows = |reverse: bool| {
        let mut tables = timeline_tables(reverse);
        let mut actions: Vec<AbilityTask> = tables.tb_ability_task.rows().clone();
        let mut unused = vec![
            AbilityTask { id: 98, at_tick: -1, kind: ActionKind::EndAbility, target_scope: TargetScope::NoTarget, effect_id: None },
            AbilityTask { id: 99, at_tick: -1, kind: ActionKind::EndAbility, target_scope: TargetScope::NoTarget, effect_id: None },
        ];
        if reverse {
            unused.reverse();
        }
        actions.extend(unused);
        tables.tb_ability_task = Table::from_rows(actions).unwrap();
        tables
    };
    let first = validate_tables(&with_unused_rows(false), capacity()).unwrap_err();
    let second = validate_tables(&with_unused_rows(true), capacity()).unwrap_err();
    assert_eq!(table_location(first.location()), ("AbilityTask", Some("98".to_owned()), Some("at_tick".to_owned())));
    assert_eq!(table_location(second.location()), ("AbilityTask", Some("99".to_owned()), Some("at_tick".to_owned())));
    assert!(describe_ability(&with_unused_rows(false), AbilityId(1), capacity()).is_err());
    assert!(describe_ability(&with_unused_rows(true), AbilityId(1), capacity()).is_err());
}
