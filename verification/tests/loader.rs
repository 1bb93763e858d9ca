use bevy_convars::builtin::CVarsPlugin;
use bevy_convars::cvar_doc::{CVarDocScanner, DocumentContext, ScanVerdict};
use bevy_convars::defaults::IsDefault;
use bevy_convars::error::CVarError;
use bevy_convars::world::World;
use bevy_convars::loader::{CVarLoaderPluginBuilder, ConfigLoader};
use bevy_convars::reflect::ReflectCVar;
use bevy_convars::tree::ComponentId;
use bevy_convars::types::CVarFlags;
use bevy_convars::value::CVarValue;
use toml_edit::ImDocument;

const TEST_DOCUMENT: &str = "\
# a document as a user would write it
title = \"not a cvar\"

[testrig]
test_int = 4
test_array = [1, 2, -3]
unknown_key = \"passed over\"

[other]
test_int = 99
";

const TEST_INTEGER_PATH: &str = "testrig.test_int";
const TEST_ARRAY_PATH: &str = "testrig.test_array";
const TEST_BOOL_PATH: &str = "testrig.test_bool";

struct LoaderApp {
    world: World,
    test_integer: ComponentId,
    test_array: ComponentId,
    test_bool: ComponentId,
}

fn make_loader_app() -> LoaderApp {
    let mut world = World::new();
    CVarsPlugin.build(&mut world).unwrap();
    let test_bool = world
        .try_register_cvar(ReflectCVar::new(
            TEST_BOOL_PATH,
            CVarFlags(CVarFlags::SAVED | CVarFlags::RUNTIME),
            CVarValue::Bool(true),
        ))
        .unwrap();
    let test_integer = world
        .try_register_cvar(ReflectCVar::new(
            TEST_INTEGER_PATH,
            CVarFlags(CVarFlags::RUNTIME),
            CVarValue::Integer(-5),
        ))
        .unwrap();
    let test_array = world
        .try_register_cvar(ReflectCVar::new(
            TEST_ARRAY_PATH,
            CVarFlags(CVarFlags::SAVED),
            CVarValue::IntegerList(vec![0, 0, 0]),
        ))
        .unwrap();
    LoaderApp {
        world,
        test_integer,
        test_array,
        test_bool,
    }
}

fn document(text: &str, source: &str) -> DocumentContext {
    DocumentContext::new(
        ImDocument::parse(text.to_string()).unwrap(),
        source.to_string(),
    )
}

fn value_of(app: &LoaderApp, id: ComponentId) -> CVarValue {
    app.world.resource(id).unwrap().get().unwrap().clone()
}

#[test]
fn parse_test_document() {
    let app = make_loader_app();

    let document = document(TEST_DOCUMENT, "test_document.toml");

    let scanner = CVarDocScanner::new(document, false);

    let cvars = scanner.find_cvars(app.world.management());

    println!("{:?}", cvars);

    assert!(cvars.iter().any(|(key, _)| *key == TEST_ARRAY_PATH));
    assert!(cvars.iter().any(|(key, _)| *key == TEST_INTEGER_PATH));
    assert_eq!(cvars.len(), 2);
    let (_, item) = cvars
        .iter()
        .find(|(key, _)| *key == TEST_INTEGER_PATH)
        .unwrap();
    assert_eq!(item.as_integer(), Some(4));
}

#[test]
fn apply_test_document() {
    let mut app = make_loader_app();

    let document = document(TEST_DOCUMENT, "test_document.toml");

    let loader = ConfigLoader::default();

    loader.apply(&mut app.world, document, false).unwrap();

    assert_eq!(value_of(&app, app.test_integer), CVarValue::Integer(4));

    assert_eq!(
        value_of(&app, app.test_array),
        CVarValue::IntegerList(vec![1, 2, -3])
    );
    // what a layer sets counts as the default
    assert!(app.world.resource(app.test_integer).unwrap().is_default());
    assert!(app.world.resource(app.test_array).unwrap().is_default());
    // what the document does not name is untouched
    assert_eq!(value_of(&app, app.test_bool), CVarValue::Bool(true));
}

#[test]
fn user_config_sets_saved_cvars_only() {
    let mut app = make_loader_app();
    let loader = ConfigLoader::default();

    loader
        .apply(&mut app.world, document(TEST_DOCUMENT, "user.toml"), true)
        .unwrap();
    // test_int is not saved: a user's file cannot set it
    assert_eq!(value_of(&app, app.test_integer), CVarValue::Integer(-5));
    // test_array is saved
    assert_eq!(
        value_of(&app, app.test_array),
        CVarValue::IntegerList(vec![1, 2, -3])
    );

    let scanner = CVarDocScanner::new(document(TEST_DOCUMENT, "user.toml"), true);
    let cvars = scanner.find_cvars(app.world.management());
    assert_eq!(cvars.len(), 1);
    assert_eq!(cvars[0].0, TEST_ARRAY_PATH);

    // the same path in a document that is not the user's is applied
    loader
        .apply(&mut app.world, document(TEST_DOCUMENT, "layer.toml"), false)
        .unwrap();
    assert_eq!(value_of(&app, app.test_integer), CVarValue::Integer(4));
}

#[test]
fn later_layers_win() {
    let loader = ConfigLoader::default();

    let mut app = make_loader_app();
    loader
        .apply_from_string(&mut app.world, "testrig.test_int = 1", Some("one"), false)
        .unwrap();
    loader
        .apply_from_string(&mut app.world, "testrig.test_int = 2", Some("two"), false)
        .unwrap();
    assert_eq!(value_of(&app, app.test_integer), CVarValue::Integer(2));

    let mut app = make_loader_app();
    loader
        .apply_from_string(&mut app.world, "testrig.test_int = 2", Some("two"), false)
        .unwrap();
    loader
        .apply_from_string(&mut app.world, "testrig.test_int = 1", Some("one"), false)
        .unwrap();
    assert_eq!(value_of(&app, app.test_integer), CVarValue::Integer(1));
}

#[test]
fn value_where_a_table_is_expected_is_passed_over() {
    let mut app = make_loader_app();
    let loader = ConfigLoader::default();
    // `testrig` is a namespace of the tree, but a value in the document
    loader
        .apply_from_string(
            &mut app.world,
            "testrig = 3\n[core]\nlog_cvar_changes = true\n",
            None,
            false,
        )
        .unwrap();
    assert_eq!(value_of(&app, app.test_integer), CVarValue::Integer(-5));
    assert_eq!(
        app.world
            .management()
            .get_cvar_reflect(app.world.resources(), "core.log_cvar_changes")
            .unwrap(),
        &CVarValue::Bool(true)
    );
}

#[test]
fn inline_table_is_no_namespace() {
    let mut app = make_loader_app();
    let loader = ConfigLoader::default();
    loader
        .apply_from_string(&mut app.world, "testrig = { test_int = 7 }", None, false)
        .unwrap();
    assert_eq!(value_of(&app, app.test_integer), CVarValue::Integer(-5));
}

#[test]
fn table_where_a_value_is_expected_is_not_applied() {
    let mut app = make_loader_app();
    let scanner = CVarDocScanner::new(document("[testrig.test_int]\nx = 1\n", "t"), false);
    let cvars = scanner.find_cvars(app.world.management());
    // the item is found at the cvar's path, but it is no value
    assert_eq!(cvars.len(), 1);
    assert!(cvars[0].1.is_table());
    let loader = ConfigLoader::default();
    loader.apply_cvars(&mut app.world, &cvars).unwrap();
    assert_eq!(value_of(&app, app.test_integer), CVarValue::Integer(-5));
}

#[test]
fn failed_entry_ends_the_document_but_keeps_what_was_applied() {
    let mut app = make_loader_app();
    let loader = ConfigLoader::default();
    let good = ImDocument::parse("x = 11".to_string()).unwrap();
    let bad = ImDocument::parse("x = \"eleven\"".to_string()).unwrap();
    let cvars = vec![
        (
            TEST_INTEGER_PATH.to_string(),
            good.as_table().get("x").unwrap().clone(),
        ),
        (
            TEST_INTEGER_PATH.to_string(),
            bad.as_table().get("x").unwrap().clone(),
        ),
        (
            TEST_BOOL_PATH.to_string(),
            ImDocument::parse("x = false".to_string())
                .unwrap()
                .as_table()
                .get("x")
                .unwrap()
                .clone(),
        ),
    ];
    let r = loader.apply_cvars(&mut app.world, &cvars);
    assert!(matches!(r, Err(CVarError::FailedDeserialize(_))));
    assert_eq!(value_of(&app, app.test_integer), CVarValue::Integer(11));
    assert_eq!(value_of(&app, app.test_bool), CVarValue::Bool(true));
}

#[test]
fn text_that_is_no_document_is_a_toml_error() {
    let mut app = make_loader_app();
    let loader = ConfigLoader::default();
    let r = loader.apply_from_string(&mut app.world, "testrig.test_int = ][", None, false);
    match r {
        Err(CVarError::TomlError(e)) => {
            let text = CVarError::TomlError(e).to_string();
            assert!(text.starts_with("TOML parsing error: "), "{}", text);
        }
        other => panic!("unexpected result {:?}", other),
    }
    assert_eq!(value_of(&app, app.test_integer), CVarValue::Integer(-5));
}

#[test]
fn empty_document_sets_nothing() {
    let mut app = make_loader_app();
    let scanner = CVarDocScanner::new(document("", "empty"), false);
    assert_eq!(scanner.find_cvars(app.world.management()).len(), 0);
    ConfigLoader::default()
        .apply_from_string(&mut app.world, "", Some("empty"), true)
        .unwrap();
    assert_eq!(value_of(&app, app.test_integer), CVarValue::Integer(-5));
}

#[test]
fn document_context_keeps_its_source() {
    let context = document("a = 1", "somewhere.toml");
    assert_eq!(context.source(), "somewhere.toml");
    assert_eq!(context.duplicate().source(), "somewhere.toml");
}

#[test]
fn plugin_applies_layers_in_order_and_notes_failures() {
    let mut app = make_loader_app();
    let plugin = CVarLoaderPluginBuilder::fancy()
        .with_user_config_file("user.toml".to_string())
        .add_layer(document("testrig.test_int = 1", "first"))
        .add_layer(document("testrig.test_int = \"two\"", "second"))
        .add_layer(document("testrig.test_int = 3\ntestrig.test_bool = false", "third"))
        .build();
    assert_eq!(plugin.user_config_file(), Some("user.toml"));
    let failures = plugin.build(&mut app.world);
    assert_eq!(failures.len(), 1);
    assert_eq!(failures[0].0, "second");
    assert!(matches!(failures[0].1, CVarError::FailedDeserialize(_)));
    assert_eq!(value_of(&app, app.test_integer), CVarValue::Integer(3));
    assert_eq!(value_of(&app, app.test_bool), CVarValue::Bool(false));

    // the user's file comes last, and sets saved cvars only
    plugin
        .apply_user_config(
            &mut app.world,
            "testrig.test_int = 40\ntestrig.test_bool = true",
        )
        .unwrap();
    assert_eq!(value_of(&app, app.test_integer), CVarValue::Integer(3));
    assert_eq!(value_of(&app, app.test_bool), CVarValue::Bool(true));
}

#[test]
fn plugin_without_layers_changes_nothing() {
    let mut app = make_loader_app();
    let plugin = CVarLoaderPluginBuilder::default().build();
    assert_eq!(plugin.user_config_file(), None);
    assert_eq!(plugin.build(&mut app.world).len(), 0);
    assert_eq!(value_of(&app, app.test_integer), CVarValue::Integer(-5));
}

#[test]
fn verdicts_tell_why_a_cvar_is_not_loaded() {
    let app = make_loader_app();
    let management = app.world.management();
    let text = "\
core = 3

[testrig]
test_int = 4
test_array = { a = 1 }

[testrig.test_bool]
x = 1
";
    let user = CVarDocScanner::new(document(text, "user.toml"), true);
    assert_eq!(user.source(), "user.toml");
    assert_eq!(user.inspect(management, TEST_INTEGER_PATH), ScanVerdict::NotSaved);
    assert_eq!(user.inspect(management, TEST_ARRAY_PATH), ScanVerdict::Staged);
    assert_eq!(user.inspect(management, TEST_BOOL_PATH), ScanVerdict::NotAValue);
    assert_eq!(
        user.inspect(management, "core.log_cvar_changes"),
        ScanVerdict::ExpectedTable
    );
    assert_eq!(user.inspect(management, "testrig"), ScanVerdict::Unknown);
    assert_eq!(user.inspect(management, "testrig.none"), ScanVerdict::Unknown);

    let layer = CVarDocScanner::new(document(text, "layer.toml"), false);
    assert_eq!(layer.inspect(management, TEST_INTEGER_PATH), ScanVerdict::Staged);

    let other = CVarDocScanner::new(document("[testrig]\nother = 1\n", "o"), false);
    assert_eq!(other.inspect(management, TEST_INTEGER_PATH), ScanVerdict::Absent);
    assert_eq!(
        other.inspect(management, "core.log_cvar_changes"),
        ScanVerdict::Absent
    );
}

#[test]
fn plugin_hands_its_layers_out() {
    let plugin = CVarLoaderPluginBuilder::fancy()
        .add_layer(document("a = 1", "first"))
        .add_layer(document("a = 2", "second"))
        .build();
    assert_eq!(plugin.layer_count(), 2);
    assert_eq!(plugin.layer(1).source(), "second");
}
