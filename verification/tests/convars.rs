use std::str::FromStr;

use bevy_convars::builtin::CVarsPlugin;
use bevy_convars::defaults::{IsDefault, IsDefaultMut};
use bevy_convars::error::CVarError;
use bevy_convars::world::{World, WorldExtensions};
use bevy_convars::parse::CVarOverride;
use bevy_convars::reflect::ReflectCVar;
use bevy_convars::tree::{ComponentId, TreeConflict};
use bevy_convars::types::CVarFlags;
use bevy_convars::value::{ApplyError, CVarType, CVarValue};
use toml_edit::Value;

const TEST_INTEGER_INIT_VAL: i64 = -5;
const TEST_BOOL_PATH: &str = "testrig.test_bool";
const TEST_INTEGER_PATH: &str = "testrig.test_int";

struct TestApp {
    world: World,
    test_bool: ComponentId,
    test_integer: ComponentId,
}

fn make_test_app() -> TestApp {
    let mut world = World::new();
    CVarsPlugin.build(&mut world).unwrap();
    let test_bool = world
        .try_register_cvar(ReflectCVar::new(
            TEST_BOOL_PATH,
            CVarFlags(CVarFlags::RUNTIME),
            CVarValue::Bool(true),
        ))
        .unwrap();
    let test_integer = world
        .try_register_cvar(ReflectCVar::new(
            TEST_INTEGER_PATH,
            CVarFlags(CVarFlags::RUNTIME),
            CVarValue::Integer(TEST_INTEGER_INIT_VAL),
        ))
        .unwrap();
    TestApp {
        world,
        test_bool,
        test_integer,
    }
}

fn integer_of(app: &TestApp) -> i64 {
    match app.world.resource(app.test_integer).unwrap().get() {
        Some(CVarValue::Integer(i)) => *i,
        other => panic!("not an integer: {:?}", other),
    }
}

#[test]
fn read_write_convar_direct() {
    let mut app = make_test_app();

    assert_eq!(integer_of(&app), TEST_INTEGER_INIT_VAL);

    *app.world
        .resource_mut(app.test_integer)
        .unwrap()
        .value_mut()
        .unwrap() = CVarValue::Integer(69);

    assert_eq!(integer_of(&app), 69);

    assert_eq!(
        app.world.resource(app.test_bool).unwrap().get(),
        Some(&CVarValue::Bool(true))
    );
}

#[test]
fn read_write_default_convar_direct() {
    let mut app = make_test_app();

    assert_eq!(integer_of(&app), TEST_INTEGER_INIT_VAL);

    assert!(app.world.resource(app.test_integer).unwrap().is_default());

    *app.world
        .resource_mut(app.test_integer)
        .unwrap()
        .value_mut()
        .unwrap() = CVarValue::Integer(69);

    assert_eq!(integer_of(&app), 69);
    assert!(!app.world.resource(app.test_integer).unwrap().is_default());

    app.world
        .resource_mut(app.test_integer)
        .unwrap()
        .reset_to_default();

    assert_eq!(integer_of(&app), TEST_INTEGER_INIT_VAL);
    assert!(app.world.resource(app.test_integer).unwrap().is_default());
}

#[test]
fn write_convar_deserialize() {
    let mut app = make_test_app();

    app.world
        .set_cvar_deserialize(TEST_INTEGER_PATH, &Value::from_str("37").unwrap())
        .unwrap();

    assert_eq!(integer_of(&app), 37);
}

#[test]
fn write_convar_deserialize_unknown_convar() {
    let mut app = make_test_app();

    let e = app
        .world
        .set_cvar_deserialize("testrig.not_real", &Value::from_str("37").unwrap());

    assert!(
        matches!(e, Err(CVarError::UnknownCVar)),
        "{} failed to match UnknownCVar.",
        e.err().unwrap().to_string()
    );
}

#[test]
fn write_convar_deserialize_wrong_type() {
    let mut app = make_test_app();

    let e = app.world.set_cvar_deserialize(
        TEST_INTEGER_PATH,
        &Value::from_str("\"awawa\"").unwrap(),
    );

    assert!(
        matches!(e, Err(CVarError::FailedDeserialize(_))),
        "{} failed to match FailedDeserialize.",
        e.err().unwrap().to_string()
    );
    assert_eq!(integer_of(&app), TEST_INTEGER_INIT_VAL);
}

#[test]
fn write_convar_reflect_wrong_type() {
    let mut app = make_test_app();

    let e = app
        .world
        .set_cvar_reflect(TEST_INTEGER_PATH, &CVarValue::Text("awawa".to_owned()));

    assert!(
        matches!(e, Err(CVarError::FailedApply { .. })),
        "{} failed to match FailedDeserialize.",
        e.err().unwrap().to_string()
    );
}

#[test]
fn write_convar_override() {
    let mut app = make_test_app();

    app.world
        .set_cvar_with_override(&CVarOverride::from_str("testrig.test_int=37").unwrap())
        .unwrap();

    assert_eq!(integer_of(&app), 37);
    assert!(
        app.world.resource(app.test_integer).unwrap().is_default(),
        "An override should look like the default value for a convar."
    );
}

#[test]
fn duplicate_cvar_registration_is_refused() {
    let mut app = make_test_app();
    let before = integer_of(&app);
    let r = app.world.try_register_cvar(ReflectCVar::new(
        "testrig.test_int",
        CVarFlags(CVarFlags::LOCAL),
        CVarValue::Integer(69),
    ));
    assert_eq!(r, Err(TreeConflict::Duplicate));
    assert_eq!(integer_of(&app), before);
    assert_eq!(
        app.world.management().tree().get("testrig.test_int"),
        Some(app.test_integer)
    );
}

#[test]
fn mixed_branch_and_leaf_cvar_registration_is_refused() {
    let mut app = make_test_app();
    let r = app.world.try_register_cvar(ReflectCVar::new(
        "testrig.test_int.shadowed",
        CVarFlags(CVarFlags::LOCAL),
        CVarValue::Integer(69),
    ));
    assert_eq!(r, Err(TreeConflict::ParentIsLeaf));
    // the other way round: a namespace cannot become a value
    let r = app.world.try_register_cvar(ReflectCVar::new(
        "testrig",
        CVarFlags(CVarFlags::LOCAL),
        CVarValue::Integer(69),
    ));
    assert_eq!(r, Err(TreeConflict::Duplicate));
    assert_eq!(
        app.world.management().tree().get("testrig.test_int"),
        Some(app.test_integer)
    );
    assert_eq!(app.world.management().tree().get("testrig"), None);
    assert_eq!(
        app.world.management().tree().get("testrig.test_int.shadowed"),
        None
    );
}

#[test]
fn normal_and_silent_writes_differ_in_default_tracking() {
    let mut app = make_test_app();
    app.world
        .set_cvar_reflect(TEST_INTEGER_PATH, &CVarValue::Integer(7))
        .unwrap();
    assert_eq!(integer_of(&app), 7);
    assert!(!app.world.resource(app.test_integer).unwrap().is_default());

    app.world
        .set_cvar_reflect_no_change(TEST_INTEGER_PATH, &CVarValue::Integer(8))
        .unwrap();
    assert_eq!(integer_of(&app), 8);
    assert!(app.world.resource(app.test_integer).unwrap().is_default());

    app.world
        .set_cvar_deserialize(TEST_INTEGER_PATH, &Value::from_str("9").unwrap())
        .unwrap();
    assert_eq!(integer_of(&app), 9);
    assert!(!app.world.resource(app.test_integer).unwrap().is_default());

    app.world
        .set_cvar_deserialize_no_change(TEST_INTEGER_PATH, &Value::from_str("10").unwrap())
        .unwrap();
    assert_eq!(integer_of(&app), 10);
    assert!(app.world.resource(app.test_integer).unwrap().is_default());
}

#[test]
fn set_is_default_keeps_the_value() {
    let mut app = make_test_app();
    *app.world
        .resource_mut(app.test_integer)
        .unwrap()
        .value_mut()
        .unwrap() = CVarValue::Integer(69);
    app.world
        .resource_mut(app.test_integer)
        .unwrap()
        .set_is_default();
    assert_eq!(integer_of(&app), 69);
    assert!(app.world.resource(app.test_integer).unwrap().is_default());
    // the declared default is still the one of the registration
    app.world
        .resource_mut(app.test_integer)
        .unwrap()
        .reset_to_default();
    assert_eq!(integer_of(&app), TEST_INTEGER_INIT_VAL);
}

#[test]
fn failed_apply_names_both_types() {
    let mut app = make_test_app();
    let e = app
        .world
        .set_cvar_reflect(TEST_INTEGER_PATH, &CVarValue::Bool(true))
        .unwrap_err();
    match e {
        CVarError::FailedApply { inner } => assert_eq!(
            inner,
            ApplyError::MismatchedTypes {
                from_type: CVarType::Bool,
                to_type: CVarType::Integer
            }
        ),
        other => panic!("unexpected error {:?}", other),
    }
    // a normal write records the modification even though nothing was applied
    assert_eq!(integer_of(&app), TEST_INTEGER_INIT_VAL);
    assert!(!app.world.resource(app.test_integer).unwrap().is_default());
}

#[test]
fn lent_resource_is_an_access_conflict() {
    let mut app = make_test_app();
    let lent = app.world.resources_mut().lend(app.test_integer).unwrap();
    let e = app
        .world
        .set_cvar_reflect(TEST_INTEGER_PATH, &CVarValue::Integer(1));
    assert!(matches!(e, Err(CVarError::AccessConflict)));
    let e = app
        .world
        .management()
        .get_cvar_reflect(app.world.resources(), TEST_INTEGER_PATH);
    assert!(matches!(e, Err(CVarError::AccessConflict)));
    app.world
        .resources_mut()
        .restore(app.test_integer, lent)
        .unwrap();
    app.world
        .set_cvar_reflect(TEST_INTEGER_PATH, &CVarValue::Integer(1))
        .unwrap();
    assert_eq!(integer_of(&app), 1);
}

#[test]
fn get_cvar_reflect_reads_by_path() {
    let mut app = make_test_app();
    assert_eq!(
        app.world
            .management()
            .get_cvar_reflect(app.world.resources(), TEST_BOOL_PATH)
            .unwrap(),
        &CVarValue::Bool(true)
    );
    assert!(matches!(
        app.world
            .management()
            .get_cvar_reflect(app.world.resources(), "testrig"),
        Err(CVarError::UnknownCVar)
    ));
    assert!(matches!(
        app.world
            .management()
            .get_cvar_reflect(app.world.resources(), "testrig.test_bool.deeper"),
        Err(CVarError::UnknownCVar)
    ));
    assert!(matches!(
        app.world.management().get_cvar_reflect(app.world.resources(), ""),
        Err(CVarError::UnknownCVar)
    ));
    // the builtin cvar is there as well
    assert_eq!(
        app.world
            .management()
            .get_cvar_reflect(app.world.resources(), "core.log_cvar_changes")
            .unwrap(),
        &CVarValue::Bool(false)
    );
    let _ = &mut app;
}

#[test]
fn serialized_values_of_every_type_are_read_back() {
    let mut world = World::new();
    let flags = CVarFlags(CVarFlags::LOCAL);
    for (path, default, text, expected) in [
        ("t.flag", CVarValue::Bool(false), "true", CVarValue::Bool(true)),
        ("t.count", CVarValue::Integer(0), "-37", CVarValue::Integer(-37)),
        (
            "t.name",
            CVarValue::Text(String::new()),
            "\"hello\"",
            CVarValue::Text("hello".to_owned()),
        ),
        (
            "t.list",
            CVarValue::IntegerList(Vec::new()),
            "[1, 2, -3]",
            CVarValue::IntegerList(vec![1, 2, -3]),
        ),
    ] {
        world
            .try_register_cvar(ReflectCVar::new(path, flags, default))
            .unwrap();
        world
            .set_cvar_deserialize(path, &Value::from_str(text).unwrap())
            .unwrap();
        assert_eq!(
            world
                .management()
                .get_cvar_reflect(world.resources(), path)
                .unwrap(),
            &expected
        );
    }
}
