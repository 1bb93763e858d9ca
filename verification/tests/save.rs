use std::str::FromStr;

use bevy_convars::builtin::CVarsPlugin;
use bevy_convars::defaults::IsDefaultMut;
use bevy_convars::error::CVarError;
use bevy_convars::world::{World, WorldExtensions};
use bevy_convars::reflect::ReflectCVar;
use bevy_convars::resource::Resource;
use bevy_convars::save::CVarSaveContext;
use bevy_convars::tree::ComponentId;
use bevy_convars::types::CVarFlags;
use bevy_convars::value::CVarValue;
use toml_edit::DocumentMut;

const TEST_BOOL_PATH: &str = "testrig.test_bool";
const TEST_INTEGER_PATH: &str = "testrig.test_int";

struct SaveApp {
    world: World,
    test_bool: ComponentId,
    test_integer: ComponentId,
}

fn make_save_app() -> SaveApp {
    let mut world = World::new();
    CVarsPlugin.build(&mut world).unwrap();
    let test_bool = world
        .try_register_cvar(ReflectCVar::new(
            TEST_BOOL_PATH,
            CVarFlags(CVarFlags::SAVED | CVarFlags::RUNTIME),
            CVarValue::Bool(true),
        ))
        .unwrap();
    let test_integer = world
        .try_register_cvar(ReflectCVar::new(
            TEST_INTEGER_PATH,
            CVarFlags(CVarFlags::SAVED | CVarFlags::RUNTIME),
            CVarValue::Integer(-5),
        ))
        .unwrap();
    SaveApp {
        world,
        test_bool,
        test_integer,
    }
}

fn modify(app: &mut SaveApp) {
    *app.world
        .resource_mut(app.test_bool)
        .unwrap()
        .value_mut()
        .unwrap() = CVarValue::Bool(true);
    *app.world
        .resource_mut(app.test_integer)
        .unwrap()
        .value_mut()
        .unwrap() = CVarValue::Integer(42);
}

const EXPECTED_CFG_1: &str = "\
[testrig]
test_bool = true
test_int = 42
";

const EXISTING_CFG_1: &str = "\
# settings of the player
name = \"someone\" # not a cvar

[testrig]
# the answer
test_int = 7 # to be replaced
untouched = [1, 2, 3]

[window]
width = 800
";

const EXPECTED_CFG_2: &str = "\
# settings of the player
name = \"someone\" # not a cvar

[testrig]
# the answer
test_int = 42
untouched = [1, 2, 3]
test_bool = true

[window]
width = 800
";

#[test]
fn save_unmodified_world() {
    let app = make_save_app();

    let mut save_ctx = CVarSaveContext::blank();

    save_ctx.save_world(&app.world).unwrap();

    let result = save_ctx.return_document();

    assert_eq!(result.to_string(), "");
}

#[test]
fn save_modified_world() {
    let expected = EXPECTED_CFG_1.to_owned().replace("\r\n", "\n");

    let mut app = make_save_app();

    modify(&mut app);

    let mut save_ctx = CVarSaveContext::blank();

    save_ctx.save_world(&app.world).unwrap();

    let result = save_ctx.return_document();

    assert_eq!(result.to_string(), expected);
}

#[test]
fn save_over_existing_cfg() {
    let expected = EXPECTED_CFG_2.to_owned().replace("\r\n", "\n");
    let mut app = make_save_app();

    modify(&mut app);

    let document = DocumentMut::from_str(EXISTING_CFG_1).unwrap();

    let mut save_ctx = CVarSaveContext::from_document(document);

    save_ctx.save_world(&app.world).unwrap();

    let result = save_ctx.return_document();

    assert_eq!(result.to_string(), expected);
}

#[test]
fn save_follows_default_tracking() {
    let mut world = World::new();
    let id = world
        .try_register_cvar(ReflectCVar::new(
            "x.y",
            CVarFlags(CVarFlags::SAVED),
            CVarValue::Integer(1),
        ))
        .unwrap();

    let mut ctx = CVarSaveContext::blank();
    ctx.save_world(&world).unwrap();
    assert_eq!(ctx.to_string(), "");

    world.set_cvar_reflect("x.y", &CVarValue::Integer(5)).unwrap();
    let mut ctx = CVarSaveContext::blank();
    ctx.save_world(&world).unwrap();
    assert_eq!(ctx.to_string(), "[x]\ny = 5\n");

    world.resource_mut(id).unwrap().reset_to_default();
    let mut ctx = CVarSaveContext::blank();
    ctx.save_world(&world).unwrap();
    assert_eq!(ctx.to_string(), "");
}

#[test]
fn silent_writes_and_unsaved_cvars_are_not_saved() {
    let mut world = World::new();
    world
        .try_register_cvar(ReflectCVar::new(
            "a.saved",
            CVarFlags(CVarFlags::SAVED),
            CVarValue::Integer(1),
        ))
        .unwrap();
    world
        .try_register_cvar(ReflectCVar::new(
            "a.local",
            CVarFlags(CVarFlags::LOCAL),
            CVarValue::Integer(1),
        ))
        .unwrap();
    world
        .set_cvar_reflect_no_change("a.saved", &CVarValue::Integer(2))
        .unwrap();
    world.set_cvar_reflect("a.local", &CVarValue::Integer(3)).unwrap();
    let mut ctx = CVarSaveContext::blank();
    ctx.save_world(&world).unwrap();
    assert_eq!(ctx.to_string(), "");
}

#[test]
fn values_of_every_type_are_written() {
    let mut world = World::new();
    let flags = CVarFlags(CVarFlags::SAVED);
    world
        .try_register_cvar(ReflectCVar::new("v.flag", flags, CVarValue::Bool(false)))
        .unwrap();
    world
        .try_register_cvar(ReflectCVar::new("v.count", flags, CVarValue::Integer(0)))
        .unwrap();
    world
        .try_register_cvar(ReflectCVar::new(
            "v.name",
            flags,
            CVarValue::Text(String::new()),
        ))
        .unwrap();
    world
        .try_register_cvar(ReflectCVar::new(
            "v.list",
            flags,
            CVarValue::IntegerList(Vec::new()),
        ))
        .unwrap();
    world
        .try_register_cvar(ReflectCVar::new(
            "v.switches",
            flags,
            CVarValue::BoolList(Vec::new()),
        ))
        .unwrap();
    world
        .try_register_cvar(ReflectCVar::new(
            "v.hosts",
            flags,
            CVarValue::TextList(Vec::new()),
        ))
        .unwrap();
    world.set_cvar_reflect("v.flag", &CVarValue::Bool(true)).unwrap();
    world.set_cvar_reflect("v.count", &CVarValue::Integer(-12)).unwrap();
    world
        .set_cvar_reflect("v.name", &CVarValue::Text("a \"b\"".to_owned()))
        .unwrap();
    world
        .set_cvar_reflect("v.list", &CVarValue::IntegerList(vec![3, -4]))
        .unwrap();
    world
        .set_cvar_reflect("v.switches", &CVarValue::BoolList(vec![true, false]))
        .unwrap();
    world
        .set_cvar_reflect(
            "v.hosts",
            &CVarValue::TextList(vec!["a.example".to_owned(), "b".to_owned()]),
        )
        .unwrap();
    let mut ctx = CVarSaveContext::blank();
    ctx.save_world(&world).unwrap();
    assert_eq!(
        ctx.to_string(),
        "[v]\nflag = true\ncount = -12\nname = 'a \"b\"'\nlist = [3, -4]\n\
         switches = [true, false]\nhosts = [\"a.example\", \"b\"]\n"
    );

    // and what was written is read back as it was
    let mut fresh = World::new();
    for (path, default) in [
        ("v.flag", CVarValue::Bool(false)),
        ("v.count", CVarValue::Integer(0)),
        ("v.name", CVarValue::Text(String::new())),
        ("v.list", CVarValue::IntegerList(Vec::new())),
        ("v.switches", CVarValue::BoolList(Vec::new())),
        ("v.hosts", CVarValue::TextList(Vec::new())),
    ] {
        fresh
            .try_register_cvar(ReflectCVar::new(path, flags, default))
            .unwrap();
    }
    bevy_convars::loader::ConfigLoader::default()
        .apply_from_string(&mut fresh, &ctx.to_string(), None, true)
        .unwrap();
    for path in [
        "v.flag",
        "v.count",
        "v.name",
        "v.list",
        "v.switches",
        "v.hosts",
    ] {
        assert_eq!(
            fresh
                .management()
                .get_cvar_reflect(fresh.resources(), path)
                .unwrap(),
            world
                .management()
                .get_cvar_reflect(world.resources(), path)
                .unwrap()
        );
    }
}

#[test]
fn value_in_the_way_of_a_table_is_malformed() {
    let mut app = make_save_app();
    modify(&mut app);
    let before = "testrig = 3\n";
    let mut ctx = CVarSaveContext::from_document(DocumentMut::from_str(before).unwrap());
    let r = ctx.save_world(&app.world);
    match r {
        Err(CVarError::MalformedConfigDuringWrite(what)) => assert_eq!(what, "Expected a table."),
        other => panic!("unexpected result {:?}", other),
    }
    assert_eq!(ctx.to_string(), before);
    assert_eq!(
        CVarError::MalformedConfigDuringWrite("Expected a table.").to_string(),
        "Malformed config during write: Expected a table."
    );
}

#[test]
fn save_cvar_writes_whatever_the_flags_and_marks() {
    let meta = ReflectCVar::new(
        "deep.er.still.value",
        CVarFlags(CVarFlags::LOCAL),
        CVarValue::Integer(1),
    );
    let resource = Resource::new(CVarValue::Integer(1));
    let mut ctx = CVarSaveContext::blank();
    ctx.save_cvar(&meta, &resource).unwrap();
    assert_eq!(
        ctx.to_string(),
        "[deep]\n\n[deep.er]\n\n[deep.er.still]\nvalue = 1\n"
    );

    // a resource without a field has not the layout of a cvar
    let unit = Resource::from_fields(Vec::new());
    let mut ctx = CVarSaveContext::blank();
    assert!(matches!(
        ctx.save_cvar(&meta, &unit),
        Err(CVarError::BadCVarType)
    ));
    assert_eq!(ctx.to_string(), "");
}

#[test]
fn save_cvar_from_world_reads_by_path() {
    let app = make_save_app();
    let mut ctx = CVarSaveContext::blank();
    ctx.save_cvar_from_world(&app.world, TEST_INTEGER_PATH).unwrap();
    assert_eq!(ctx.to_string(), "[testrig]\ntest_int = -5\n");
    assert!(matches!(
        ctx.save_cvar_from_world(&app.world, "testrig.missing"),
        Err(CVarError::UnknownCVar)
    ));
    assert_eq!(ctx.to_string(), "[testrig]\ntest_int = -5\n");
}

#[test]
fn save_inner_replaces_a_table_at_the_last_segment() {
    let mut ctx =
        CVarSaveContext::from_document(DocumentMut::from_str("[a.b]\nc = 1\n").unwrap());
    ctx.save_cvar_inner("a.b", &CVarValue::Bool(true)).unwrap();
    let doc = ctx.return_document();
    assert_eq!(doc["a"]["b"].as_bool(), Some(true));
}

#[test]
fn lent_resource_ends_the_saving() {
    let mut app = make_save_app();
    modify(&mut app);
    let lent = app.world.resources_mut().lend(app.test_integer).unwrap();
    let mut ctx = CVarSaveContext::blank();
    let r = ctx.save_world(&app.world);
    assert!(matches!(r, Err(CVarError::AccessConflict)));
    // the cvar registered before it was written
    assert_eq!(ctx.to_string(), "[testrig]\ntest_bool = true\n");
    app.world
        .resources_mut()
        .restore(app.test_integer, lent)
        .unwrap();
}

#[test]
fn saving_twice_leaves_the_same_document() {
    let mut app = make_save_app();
    modify(&mut app);
    let mut ctx =
        CVarSaveContext::from_document(DocumentMut::from_str(EXISTING_CFG_1).unwrap());
    ctx.save_world(&app.world).unwrap();
    let once = ctx.to_string();
    ctx.save_world(&app.world).unwrap();
    assert_eq!(ctx.to_string(), once);
    ctx.save_cvar_inner(TEST_INTEGER_PATH, &CVarValue::Integer(42))
        .unwrap();
    assert_eq!(ctx.text(), Some(once));
}

#[test]
fn document_without_a_table_at_its_root_has_no_text() {
    let mut doc = DocumentMut::new();
    *doc.as_item_mut() = toml_edit::Item::None;
    let mut ctx = CVarSaveContext::from_document(doc);
    assert_eq!(ctx.text(), None);
    assert!(matches!(
        ctx.save_cvar_inner("a", &CVarValue::Bool(true)),
        Err(CVarError::MalformedConfigDuringWrite("Expected a table."))
    ));
    assert_eq!(ctx.text(), None);
    assert_eq!(CVarSaveContext::blank().text(), Some(String::new()));
}
