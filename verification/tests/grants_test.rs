use gas_config::config::catalog::{AbilityId, ConfiguredAbilities};
use gas_config::config::compiler::startup::missing_registry;
use gas_config::config::{ConfigErrorKind, ConfigLocation};

#[test]
fn grants_bind_once_and_revokes_clear_bindings() {
    let mut bindings: ConfiguredAbilities<u64> = ConfiguredAbilities::new();
    assert_eq!(bindings.handle(AbilityId(1)), None);
    assert!(bindings.check_grant(Some(2), AbilityId(1), 1).is_ok());
    bindings.bind(AbilityId(1), 41);
    assert_eq!(bindings.handle(AbilityId(1)), Some(41));

    let error = bindings.check_grant(Some(2), AbilityId(1), 1).unwrap_err();
    assert_eq!(error.kind(), ConfigErrorKind::AlreadyGranted);
    let error = bindings.check_grant(Some(2), AbilityId(2), 3).unwrap_err();
    assert_eq!(error.kind(), ConfigErrorKind::UnsupportedLevel);
    assert!(matches!(error.location(), ConfigLocation::Table { table: "Ability", row: Some(row), field: Some(field) } if row == "2" && field == "level"));
    let error = bindings.check_grant(Some(2), AbilityId(2), 0).unwrap_err();
    assert_eq!(error.kind(), ConfigErrorKind::UnsupportedLevel);
    let error = bindings.check_grant(None, AbilityId(9), 1).unwrap_err();
    assert_eq!(error.kind(), ConfigErrorKind::UnknownAbility);

    let error = bindings.finish_revoke(AbilityId(1), false).unwrap_err();
    assert_eq!(error.kind(), ConfigErrorKind::ActiveAbility);
    assert_eq!(bindings.handle(AbilityId(1)), Some(41));
    assert_eq!(bindings.finish_revoke(AbilityId(1), true).unwrap(), true);
    assert_eq!(bindings.handle(AbilityId(1)), None);
    assert_eq!(bindings.finish_revoke(AbilityId(1), true).unwrap(), false);
    assert!(bindings.check_grant(Some(2), AbilityId(1), 2).is_ok());
}

#[test]
fn bindings_are_kept_per_ability() {
    let mut bindings: ConfiguredAbilities<u64> = ConfiguredAbilities::new();
    bindings.bind(AbilityId(3), 7);
    bindings.bind(AbilityId(1), 8);
    bindings.bind(AbilityId(2), 9);
    assert_eq!(bindings.finish_revoke(AbilityId(1), true).unwrap(), true);
    assert_eq!(bindings.handle(AbilityId(3)), Some(7));
    assert_eq!(bindings.handle(AbilityId(2)), Some(9));
    assert_eq!(bindings.handle(AbilityId(1)), None);
}

#[test]
fn missing_registries_are_classified() {
    let error = missing_registry("AttributeIdManager");
    assert_eq!(error.kind(), ConfigErrorKind::MissingResource);
    assert!(matches!(error.location(), ConfigLocation::Resource("AttributeIdManager")));
}
