use std::str::FromStr;

use bevy_convars::builtin::{
    cvar_modified_system, CoreCVarsPlugin, LogCVarChanges, ModificationNotice,
};
use bevy_convars::codec::{decode, encode};
use bevy_convars::defaults::{IsDefault, IsDefaultMut};
use bevy_convars::error::CVarError;
use bevy_convars::world::{World, WorldExtensions};
use bevy_convars::management::{CVarManagement, WriteMode};
use bevy_convars::reflect::{CVarMeta, ReflectCVar};
use bevy_convars::resource::{Mut, Resource};
use bevy_convars::tree::{ComponentId, TreeConflict};
use bevy_convars::types::CVarFlags;
use bevy_convars::value::{duplicate_all, ApplyError, CVarType, CVarValue};
use bevy_convars::resources::{ResourceFetchError, Resources};
use toml_edit::Value;

fn raw(text: &str) -> Value {
    Value::from_str(text).unwrap()
}

#[test]
fn document_values_decode_by_type() {
    assert_eq!(decode(CVarType::Bool, &raw("true")), Ok(CVarValue::Bool(true)));
    assert_eq!(
        decode(CVarType::Integer, &raw("-37")),
        Ok(CVarValue::Integer(-37))
    );
    assert_eq!(
        decode(CVarType::Integer, &raw("9223372036854775807")),
        Ok(CVarValue::Integer(i64::MAX))
    );
    assert_eq!(
        decode(CVarType::Text, &raw("\"awawa\"")),
        Ok(CVarValue::Text("awawa".to_owned()))
    );
    assert_eq!(
        decode(CVarType::IntegerList, &raw("[1, 2, -3]")),
        Ok(CVarValue::IntegerList(vec![1, 2, -3]))
    );
    assert_eq!(
        decode(CVarType::IntegerList, &raw("[]")),
        Ok(CVarValue::IntegerList(vec![]))
    );
}

#[test]
fn document_values_of_another_type_fail_to_decode() {
    assert!(decode(CVarType::Bool, &raw("1")).is_err());
    assert!(decode(CVarType::Bool, &raw("\"true\"")).is_err());
    assert!(decode(CVarType::Integer, &raw("true")).is_err());
    assert!(decode(CVarType::Integer, &raw("1.5")).is_err());
    assert!(decode(CVarType::Integer, &raw("\"1\"")).is_err());
    assert!(decode(CVarType::Integer, &raw("[1]")).is_err());
    assert!(decode(CVarType::Text, &raw("1")).is_err());
    assert!(decode(CVarType::Text, &raw("1979-05-27")).is_err());
    assert!(decode(CVarType::IntegerList, &raw("[1, \"2\"]")).is_err());
    assert!(decode(CVarType::IntegerList, &raw("[[1]]")).is_err());
    assert!(decode(CVarType::IntegerList, &raw("1")).is_err());
    assert!(decode(CVarType::IntegerList, &raw("{ a = 1 }")).is_err());
    let detail = decode(CVarType::Integer, &raw("\"awawa\"")).unwrap_err();
    assert!(!detail.is_empty());
}

#[test]
fn cvar_values_encode_as_document_values() {
    assert_eq!(encode(&CVarValue::Bool(true)).as_bool(), Some(true));
    assert_eq!(encode(&CVarValue::Integer(-4)).as_integer(), Some(-4));
    assert_eq!(
        encode(&CVarValue::Text("hi".to_owned())).as_str(),
        Some("hi")
    );
    let list = encode(&CVarValue::IntegerList(vec![5, 6]));
    let items: Vec<i64> = list
        .as_array()
        .unwrap()
        .iter()
        .map(|v| v.as_integer().unwrap())
        .collect();
    assert_eq!(items, vec![5, 6]);
    for value in [
        CVarValue::Bool(false),
        CVarValue::Integer(i64::MIN),
        CVarValue::Text("ä \"quoted\"\n".to_owned()),
        CVarValue::IntegerList(vec![i64::MAX, 0, -1]),
    ] {
        assert_eq!(decode(value.inner_type(), &encode(&value)), Ok(value));
    }
}

#[test]
fn values_know_their_type() {
    assert_eq!(CVarValue::Bool(true).inner_type(), CVarType::Bool);
    assert_eq!(CVarValue::Integer(1).inner_type(), CVarType::Integer);
    assert_eq!(CVarValue::Text(String::new()).inner_type(), CVarType::Text);
    assert_eq!(
        CVarValue::IntegerList(vec![]).inner_type(),
        CVarType::IntegerList
    );
    assert_eq!(CVarType::Bool.name(), "Bool");
    assert_eq!(CVarType::IntegerList.name(), "IntegerList");
    assert!(CVarType::Text.same(CVarType::Text));
    assert!(!CVarType::Text.same(CVarType::Integer));
    let values = vec![CVarValue::Integer(3), CVarValue::IntegerList(vec![1, 2])];
    assert_eq!(duplicate_all(&values), values);
    assert_eq!(values[1].duplicate(), values[1]);
}

#[test]
fn try_apply_replaces_values_of_the_same_type_only() {
    let mut value = CVarValue::IntegerList(vec![1, 2, 3]);
    assert_eq!(value.try_apply(&CVarValue::IntegerList(vec![9])), Ok(()));
    // the value is replaced as a whole
    assert_eq!(value, CVarValue::IntegerList(vec![9]));
    let e = value.try_apply(&CVarValue::Integer(9)).unwrap_err();
    assert_eq!(
        e,
        ApplyError::MismatchedTypes {
            from_type: CVarType::Integer,
            to_type: CVarType::IntegerList
        }
    );
    assert_eq!(value, CVarValue::IntegerList(vec![9]));
    assert_eq!(
        e.describe(),
        "MismatchedTypes { from_type: Integer, to_type: IntegerList }"
    );
}

#[test]
fn errors_as_messages() {
    assert_eq!(CVarError::UnknownCVar.to_string(), "Unknown CVar.");
    assert_eq!(
        CVarError::BadCVarType.to_string(),
        "CVar is not internally a Tuple Struct of the expected layout, did you try to register it manually?"
    );
    assert_eq!(
        CVarError::MissingCid.to_string(),
        "Missing ComponentID, was the resource registered?"
    );
    assert_eq!(
        CVarError::CannotDeserialize.to_string(),
        "Underlying CVar type cannot be deserialized."
    );
    assert_eq!(
        CVarError::FailedDeserialize("why".to_owned()).to_string(),
        "Failed to deserialize: why"
    );
    assert_eq!(
        CVarError::FailedApply {
            inner: ApplyError::MismatchedTypes {
                from_type: CVarType::Text,
                to_type: CVarType::Bool
            }
        }
        .to_string(),
        "Failed to apply value to CVar. (MismatchedTypes { from_type: Text, to_type: Bool })"
    );
    assert_eq!(
        CVarError::AccessConflict.to_string(),
        "The requested operation conflicts with another ongoing operation on the world and cannot be performed."
    );
    let toml_error = Value::from_str("][").unwrap_err();
    assert_eq!(
        CVarError::TomlError(toml_error.clone()).to_string(),
        format!("TOML parsing error: {}", toml_error)
    );
}

#[test]
fn errors_convert() {
    assert!(matches!(
        CVarError::from(ResourceFetchError::NotRegistered),
        CVarError::UnknownCVar
    ));
    assert!(matches!(
        CVarError::from(ResourceFetchError::DoesNotExist(ComponentId(3))),
        CVarError::UnknownCVar
    ));
    assert!(matches!(
        CVarError::from(ResourceFetchError::NoResourceAccess(ComponentId(3))),
        CVarError::AccessConflict
    ));
    assert!(matches!(
        CVarError::from_fetch_error(ResourceFetchError::NoResourceAccess(ComponentId(3))),
        CVarError::AccessConflict
    ));
    let inner = ApplyError::MismatchedTypes {
        from_type: CVarType::Text,
        to_type: CVarType::Bool,
    };
    assert!(matches!(
        CVarError::from(inner),
        CVarError::FailedApply { inner: i } if i == inner
    ));
    assert!(matches!(
        CVarError::from(Value::from_str("][").unwrap_err()),
        CVarError::TomlError(_)
    ));
}

#[test]
fn resources_track_their_default() {
    let mut resource = Resource::new(CVarValue::Integer(3));
    assert!(resource.is_default());
    assert_eq!(resource.get(), Some(&CVarValue::Integer(3)));

    // writing without recording leaves the marks alone
    *resource.get_mut().unwrap() = CVarValue::Integer(4);
    assert!(resource.is_default());

    resource.set_changed();
    assert!(!resource.is_default());
    resource.set_changed();
    assert!(!resource.is_default());

    resource.set_is_default();
    assert!(resource.is_default());
    assert_eq!(resource.get(), Some(&CVarValue::Integer(4)));

    *resource.value_mut().unwrap() = CVarValue::Integer(5);
    assert!(!resource.is_default());
    resource.reset_to_default();
    assert!(resource.is_default());
    assert_eq!(resource.get(), Some(&CVarValue::Integer(3)));

    let mut unit = Resource::from_fields(Vec::new());
    assert_eq!(unit.get(), None);
    assert!(unit.get_mut().is_none());
    assert!(unit.value_mut().is_none());
    assert!(unit.is_default());
}

#[test]
fn resources_are_fetched_by_handle() {
    let mut table = Resources::new();
    assert_eq!(table.len(), 0);
    let a = table.insert(Resource::new(CVarValue::Bool(true)));
    let b = table.insert(Resource::new(CVarValue::Integer(2)));
    assert_eq!((a, b), (ComponentId(0), ComponentId(1)));
    assert_eq!(table.len(), 2);
    assert_eq!(table.get(b).unwrap().get(), Some(&CVarValue::Integer(2)));
    assert_eq!(
        table.get(ComponentId(2)).unwrap_err(),
        ResourceFetchError::DoesNotExist(ComponentId(2))
    );
    assert_eq!(
        table.get_mut(ComponentId(9)).unwrap_err(),
        ResourceFetchError::DoesNotExist(ComponentId(9))
    );

    let lent = table.lend(a).unwrap();
    assert_eq!(
        table.get(a).unwrap_err(),
        ResourceFetchError::NoResourceAccess(a)
    );
    assert_eq!(
        table.lend(a).unwrap_err(),
        ResourceFetchError::NoResourceAccess(a)
    );
    assert_eq!(
        table.lend(ComponentId(5)).unwrap_err(),
        ResourceFetchError::DoesNotExist(ComponentId(5))
    );
    // a resource is given back only where one is lent out
    let other = Resource::new(CVarValue::Integer(0));
    let other = table.restore(b, other).unwrap_err();
    let other = table.restore(ComponentId(7), other).unwrap_err();
    assert_eq!(other.get(), Some(&CVarValue::Integer(0)));
    table.restore(a, lent).unwrap();
    assert_eq!(table.get(a).unwrap().get(), Some(&CVarValue::Bool(true)));
}

#[test]
fn records_describe_their_cvar() {
    let record = ReflectCVar::new(
        "a.b",
        CVarFlags(CVarFlags::SAVED | CVarFlags::MIRRORED),
        CVarValue::Text("x".to_owned()),
    );
    assert_eq!(record.cvar_path(), "a.b");
    assert_eq!(record.flags(), CVarFlags(0b11));
    assert_eq!(record.inner_type(), CVarType::Text);
    assert_eq!(record.default_inner(), CVarValue::Text("x".to_owned()));
    assert!(record.can_serialize() && record.can_deserialize());
    let copy = record.duplicate().with_hooks(true, false);
    assert!(copy.can_serialize() && !copy.can_deserialize());
    assert_eq!(copy.cvar_path(), "a.b");

    let mut resource = Resource::new(record.default_inner());
    assert!(record.is_default_value(&resource));
    assert_eq!(
        record.reflect_inner(&resource).unwrap(),
        &CVarValue::Text("x".to_owned())
    );
    record
        .reflect_apply(&mut resource, &CVarValue::Text("y".to_owned()))
        .unwrap();
    assert_eq!(resource.get(), Some(&CVarValue::Text("y".to_owned())));
    // applying does not record a modification by itself
    assert!(record.is_default_value(&resource));
    *record.reflect_inner_mut(&mut resource).unwrap() = CVarValue::Text("z".to_owned());
    assert_eq!(resource.get(), Some(&CVarValue::Text("z".to_owned())));
    assert!(matches!(
        record.reflect_apply(&mut resource, &CVarValue::Integer(1)),
        Err(CVarError::FailedApply { .. })
    ));

    let mut unit = Resource::from_fields(Vec::new());
    assert!(matches!(
        record.reflect_inner(&unit),
        Err(CVarError::BadCVarType)
    ));
    assert!(matches!(
        record.reflect_inner_mut(&mut unit),
        Err(CVarError::BadCVarType)
    ));
    assert!(matches!(
        record.reflect_apply(&mut unit, &CVarValue::Integer(1)),
        Err(CVarError::BadCVarType)
    ));
}

#[test]
fn records_from_meta_types() {
    let record = ReflectCVar::from_type::<LogCVarChanges>();
    assert_eq!(record.cvar_path(), "core.log_cvar_changes");
    assert_eq!(record.flags(), CVarFlags(CVarFlags::RUNTIME));
    assert_eq!(record.default_inner(), CVarValue::Bool(false));
    assert_eq!(record.inner_type(), CVarType::Bool);
    assert_eq!(LogCVarChanges::cvar_path(), "core.log_cvar_changes");
}

#[test]
fn registry_errors_by_cause() {
    let mut management = CVarManagement::default();
    let mut resources = Resources::new();
    assert_eq!(management.len(), 0);
    let plain = management.register_cvar(
        &mut resources,
        ReflectCVar::new("a.plain", CVarFlags(0), CVarValue::Integer(1)),
    );
    let opaque = management.register_cvar(
        &mut resources,
        ReflectCVar::new("a.opaque", CVarFlags(0), CVarValue::Integer(1)).with_hooks(false, false),
    );
    assert_eq!(management.len(), 2);
    assert_eq!(management.registration(1).0, opaque);
    assert_eq!(management.registration(0).1.cvar_path(), "a.plain");
    assert_eq!(management.record(plain).unwrap().cvar_path(), "a.plain");
    assert!(management.record(ComponentId(17)).is_none());
    assert_eq!(management.conflict("a.plain"), Some(TreeConflict::Duplicate));
    assert_eq!(management.tree().get("a.opaque"), Some(opaque));

    let value = Value::from_str("5").unwrap();
    assert!(matches!(
        management.set_cvar_deserialize(&mut resources, "a.opaque", &value),
        Err(CVarError::CannotDeserialize)
    ));
    assert!(matches!(
        management.set_cvar_deserialize_no_change(&mut resources, "a.nothing", &value),
        Err(CVarError::UnknownCVar)
    ));
    management
        .set_cvar_deserialize_with(&mut resources, "a.plain", &value, WriteMode::Silent)
        .unwrap();
    assert_eq!(
        management.get_cvar_reflect(&resources, "a.plain").unwrap(),
        &CVarValue::Integer(5)
    );
    management
        .set_cvar_reflect_with(
            &mut resources,
            "a.opaque",
            &CVarValue::Integer(6),
            WriteMode::Normal,
        )
        .unwrap();
    assert_eq!(
        management.get_cvar_reflect(&resources, "a.opaque").unwrap(),
        &CVarValue::Integer(6)
    );

    // a registry used with resources that lack the cvar's resource
    let mut elsewhere = Resources::new();
    assert!(matches!(
        management.set_cvar_reflect(&mut elsewhere, "a.plain", &CVarValue::Integer(1)),
        Err(CVarError::UnknownCVar)
    ));
    assert!(matches!(
        management.get_cvar_reflect(&elsewhere, "a.plain"),
        Err(CVarError::UnknownCVar)
    ));
    // a resource that has not the layout of a cvar
    elsewhere.insert(Resource::from_fields(Vec::new()));
    assert!(matches!(
        management.get_cvar_reflect(&elsewhere, "a.plain"),
        Err(CVarError::BadCVarType)
    ));
    assert!(matches!(
        management.set_cvar_reflect_no_change(&mut elsewhere, "a.plain", &CVarValue::Integer(1)),
        Err(CVarError::BadCVarType)
    ));
    assert!(matches!(
        management.get_cvar_reflect_mut(&mut elsewhere, "a.plain"),
        Err(CVarError::BadCVarType)
    ));
}

#[test]
fn value_written_through_a_handle_counts_as_modified() {
    let mut world = World::new();
    let id = world
        .try_register_cvar(ReflectCVar::new(
            "a.b",
            CVarFlags(0),
            CVarValue::Integer(1),
        ))
        .unwrap();
    let management = CVarManagement::new();
    assert!(matches!(
        management.get_cvar_reflect_mut(world.resources_mut(), "a.b"),
        Err(CVarError::UnknownCVar)
    ));
    assert!(world.resource(id).unwrap().is_default());

    let mut resources = Resources::new();
    let mut management = CVarManagement::new();
    let id = management.register_cvar(
        &mut resources,
        ReflectCVar::new("a.b", CVarFlags(0), CVarValue::Integer(1)),
    );

    // a value that is fetched for writing and only looked at keeps its marks
    {
        let handle = management
            .get_cvar_reflect_mut(&mut resources, "a.b")
            .unwrap();
        assert_eq!(handle.get(), Some(&CVarValue::Integer(1)));
        assert!(handle.is_default());
    }
    assert!(resources.get(id).unwrap().is_default());
    assert_eq!(resources.get(id).unwrap().get(), Some(&CVarValue::Integer(1)));

    // a write through the handle records the modification
    {
        let mut handle = management
            .get_cvar_reflect_mut(&mut resources, "a.b")
            .unwrap();
        assert!(handle.set(CVarValue::Integer(2)));
        assert_eq!(handle.get(), Some(&CVarValue::Integer(2)));
        assert!(!handle.is_default());
    }
    assert_eq!(resources.get(id).unwrap().get(), Some(&CVarValue::Integer(2)));
    assert!(!resources.get(id).unwrap().is_default());

    // a cvar whose resource is lent out cannot be fetched for writing
    let lent = resources.lend(id).unwrap();
    assert!(matches!(
        management.get_cvar_reflect_mut(&mut resources, "a.b"),
        Err(CVarError::AccessConflict)
    ));
    resources.restore(id, lent).unwrap();
}

#[test]
fn handles_on_resources() {
    let mut resource = Resource::new(CVarValue::Bool(false));
    {
        let mut handle = Mut::new(&mut resource);
        assert_eq!(handle.get(), Some(&CVarValue::Bool(false)));
        assert!(handle.set(CVarValue::Bool(true)));
    }
    assert_eq!(resource.get(), Some(&CVarValue::Bool(true)));
    assert!(!resource.is_default());

    let mut unit = Resource::from_fields(Vec::new());
    {
        let mut handle = Mut::new(&mut unit);
        assert_eq!(handle.get(), None);
        assert!(!handle.set(CVarValue::Bool(true)));
        assert!(handle.is_default());
    }
    assert!(unit.is_default());
}

#[test]
fn saved_cvars_without_hooks_are_passed_over() {
    let mut world = World::new();
    let id = world
        .try_register_cvar(
            ReflectCVar::new("a.b", CVarFlags(CVarFlags::SAVED), CVarValue::Integer(1))
                .with_hooks(false, false),
        )
        .unwrap();
    assert_eq!(id, ComponentId(0));
    assert!(matches!(
        world.set_cvar_deserialize("a.b", &Value::from_str("2").unwrap()),
        Err(CVarError::CannotDeserialize)
    ));
    world.set_cvar_reflect("a.b", &CVarValue::Integer(3)).unwrap();
    // a value that cannot be written into documents is not saved
    let mut ctx = bevy_convars::save::CVarSaveContext::blank();
    ctx.save_world(&world).unwrap();
    assert_eq!(ctx.to_string(), "");
}

#[test]
fn core_plugin_registers_once() {
    let mut world = World::new();
    let id = CoreCVarsPlugin.build(&mut world).unwrap();
    assert_eq!(id, ComponentId(0));
    assert_eq!(
        CoreCVarsPlugin.build(&mut world),
        Err(TreeConflict::Duplicate)
    );
    assert_eq!(world.resources().len(), 1);
    assert_eq!(
        world.management().record(id).unwrap().flags(),
        CVarFlags(CVarFlags::RUNTIME)
    );
}

#[test]
fn modification_reports() {
    let runtime = CVarFlags(CVarFlags::RUNTIME);
    let saved = CVarFlags(CVarFlags::SAVED);
    let local = CVarFlags(CVarFlags::LOCAL);

    let report = cvar_modified_system(runtime, true, true, false);
    assert!(report.log_value);
    assert_eq!(report.notice, ModificationNotice::Silent);

    let report = cvar_modified_system(saved, false, true, false);
    assert!(!report.log_value);
    assert_eq!(report.notice, ModificationNotice::RestartNeeded);

    let report = cvar_modified_system(local, true, true, false);
    assert!(report.log_value);
    assert_eq!(report.notice, ModificationNotice::NoEffect);

    // the making of a cvar is no change to warn about
    let report = cvar_modified_system(local, true, true, true);
    assert!(report.log_value);
    assert_eq!(report.notice, ModificationNotice::Silent);

    let report = cvar_modified_system(local, true, false, false);
    assert!(!report.log_value);
    assert_eq!(report.notice, ModificationNotice::Silent);

    let report = cvar_modified_system(CVarFlags(0b101), false, true, false);
    assert_eq!(report.notice, ModificationNotice::Silent);
}

#[test]
fn lists_of_booleans_and_strings_decode_by_type() {
    assert_eq!(
        decode(CVarType::BoolList, &raw("[true, false, true]")),
        Ok(CVarValue::BoolList(vec![true, false, true]))
    );
    assert_eq!(
        decode(CVarType::TextList, &raw("[\"a\", \"b c\", \"\"]")),
        Ok(CVarValue::TextList(vec![
            "a".to_owned(),
            "b c".to_owned(),
            String::new()
        ]))
    );
    // an array without a value is a list of each type
    assert_eq!(
        decode(CVarType::BoolList, &raw("[]")),
        Ok(CVarValue::BoolList(vec![]))
    );
    assert_eq!(
        decode(CVarType::TextList, &raw("[]")),
        Ok(CVarValue::TextList(vec![]))
    );
    assert!(decode(CVarType::BoolList, &raw("[true, 1]")).is_err());
    assert!(decode(CVarType::BoolList, &raw("[\"true\"]")).is_err());
    assert!(decode(CVarType::BoolList, &raw("true")).is_err());
    assert!(decode(CVarType::BoolList, &raw("[[true]]")).is_err());
    assert!(decode(CVarType::TextList, &raw("[\"a\", 1]")).is_err());
    assert!(decode(CVarType::TextList, &raw("[1979-05-27]")).is_err());
    assert!(decode(CVarType::TextList, &raw("\"a\"")).is_err());
    assert!(decode(CVarType::IntegerList, &raw("[true]")).is_err());
    assert!(decode(CVarType::Text, &raw("[\"a\"]")).is_err());
}

#[test]
fn lists_of_booleans_and_strings_encode_as_arrays() {
    let bools = encode(&CVarValue::BoolList(vec![false, true]));
    let items: Vec<bool> = bools
        .as_array()
        .unwrap()
        .iter()
        .map(|v| v.as_bool().unwrap())
        .collect();
    assert_eq!(items, vec![false, true]);
    let texts = encode(&CVarValue::TextList(vec!["x".to_owned(), "y z".to_owned()]));
    let items: Vec<String> = texts
        .as_array()
        .unwrap()
        .iter()
        .map(|v| v.as_str().unwrap().to_owned())
        .collect();
    assert_eq!(items, vec!["x".to_owned(), "y z".to_owned()]);
    for value in [
        CVarValue::BoolList(vec![true, true, false]),
        CVarValue::BoolList(vec![]),
        CVarValue::TextList(vec!["ä \"quoted\"\n".to_owned(), String::new()]),
        CVarValue::TextList(vec![]),
    ] {
        assert_eq!(decode(value.inner_type(), &encode(&value)), Ok(value.clone()));
        assert_eq!(value.duplicate(), value);
    }
    assert_eq!(CVarType::BoolList.name(), "BoolList");
    assert_eq!(CVarType::TextList.name(), "TextList");
    assert!(CVarType::BoolList.same(CVarType::BoolList));
    assert!(!CVarType::BoolList.same(CVarType::TextList));
    assert!(!CVarType::TextList.same(CVarType::IntegerList));
}

#[test]
fn lists_are_applied_as_a_whole_and_by_type() {
    let mut value = CVarValue::TextList(vec!["a".to_owned(), "b".to_owned()]);
    assert_eq!(
        value.try_apply(&CVarValue::TextList(vec!["c".to_owned()])),
        Ok(())
    );
    assert_eq!(value, CVarValue::TextList(vec!["c".to_owned()]));
    let e = value.try_apply(&CVarValue::BoolList(vec![])).unwrap_err();
    assert_eq!(
        e,
        ApplyError::MismatchedTypes {
            from_type: CVarType::BoolList,
            to_type: CVarType::TextList
        }
    );
    assert_eq!(value, CVarValue::TextList(vec!["c".to_owned()]));
}

#[test]
fn list_cvars_are_set_from_document_values() {
    let mut world = World::new();
    world.register_cvar(ReflectCVar::new(
        "net.hosts",
        CVarFlags(CVarFlags::SAVED | CVarFlags::RUNTIME),
        CVarValue::TextList(vec!["localhost".to_owned()]),
    ));
    world.register_cvar(ReflectCVar::new(
        "net.switches",
        CVarFlags(CVarFlags::RUNTIME),
        CVarValue::BoolList(vec![]),
    ));
    world
        .set_cvar_deserialize("net.hosts", &raw("[\"a.example\", \"b.example\"]"))
        .unwrap();
    assert_eq!(
        world
            .management()
            .get_cvar_reflect(world.resources(), "net.hosts")
            .unwrap(),
        &CVarValue::TextList(vec![
            "a.example".to_owned(),
            "b.example".to_owned()
        ])
    );
    world
        .set_cvar_deserialize("net.switches", &raw("[true, false]"))
        .unwrap();
    assert_eq!(
        world
            .management()
            .get_cvar_reflect(world.resources(), "net.switches")
            .unwrap(),
        &CVarValue::BoolList(vec![true, false])
    );
    assert!(matches!(
        world.set_cvar_deserialize("net.switches", &raw("[\"on\"]")),
        Err(CVarError::FailedDeserialize(_))
    ));
    assert_eq!(
        world
            .management()
            .get_cvar_reflect(world.resources(), "net.switches")
            .unwrap(),
        &CVarValue::BoolList(vec![true, false])
    );
}
