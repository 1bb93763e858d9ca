use std::str::FromStr;

use bevy_convars::parse::{split_once_eq, CVarOverride, CVarOverrideParseError};

#[test]
fn override_without_equals_sign() {
    assert_eq!(
        CVarOverride::try_from("noequalsign").unwrap_err(),
        CVarOverrideParseError::DoesntLookLikeAnOverride
    );
    assert_eq!(
        CVarOverride::try_from("").unwrap_err(),
        CVarOverrideParseError::DoesntLookLikeAnOverride
    );
}

#[test]
fn override_with_invalid_toml() {
    assert_eq!(
        CVarOverride::try_from("a.b=][").unwrap_err(),
        CVarOverrideParseError::InvalidToml
    );
    assert_eq!(
        CVarOverride::try_from("a.b=").unwrap_err(),
        CVarOverrideParseError::InvalidToml
    );
    // the text is split at the first `=`
    assert_eq!(
        CVarOverride::try_from("a=b=3").unwrap_err(),
        CVarOverrideParseError::InvalidToml
    );
}

#[test]
fn override_with_path_and_value() {
    let parsed = CVarOverride::try_from("a.b=3").unwrap();
    assert_eq!(parsed.path(), "a.b");
    assert_eq!(parsed.value().as_integer(), Some(3));

    let parsed = CVarOverride::from_str("render.name=\"x=y\"").unwrap();
    assert_eq!(parsed.path(), "render.name");
    assert_eq!(parsed.value().as_str(), Some("x=y"));

    let parsed = CVarOverride::from_str("list=[1, 2, -3]").unwrap();
    assert_eq!(parsed.path(), "list");
    assert_eq!(parsed.value().as_array().unwrap().len(), 3);

    // the path is taken as it stands
    let parsed = CVarOverride::from_str("=true").unwrap();
    assert_eq!(parsed.path(), "");
    assert_eq!(parsed.value().as_bool(), Some(true));
    let parsed = CVarOverride::from_str(" not a path =true").unwrap();
    assert_eq!(parsed.path(), " not a path ");

    let copy = parsed.duplicate();
    assert_eq!(copy.path(), parsed.path());
    assert_eq!(copy.value().as_bool(), Some(true));
}

#[test]
fn split_at_the_first_equals_sign() {
    assert_eq!(split_once_eq("a=b"), Some(("a", "b")));
    assert_eq!(split_once_eq("a=b=c"), Some(("a", "b=c")));
    assert_eq!(split_once_eq("="), Some(("", "")));
    assert_eq!(split_once_eq("é=ü"), Some(("é", "ü")));
    assert_eq!(split_once_eq("abc"), None);
}

#[test]
fn override_errors_as_messages() {
    assert_eq!(
        CVarOverrideParseError::InvalidPath.to_string(),
        "Not a valid override, a CVar override must have a CVar path (a.b.c) on the left."
    );
    assert_eq!(
        CVarOverrideParseError::InvalidToml.to_string(),
        "Not a valid override, a CVar override must have TOML on the right."
    );
    assert_eq!(
        CVarOverrideParseError::DoesntLookLikeAnOverride.to_string(),
        "Not a valid override, a CVar override must be of form `left=right`"
    );
}

#[test]
fn override_from_what_the_parser_made() {
    let parsed = toml_edit::Value::from_str("37");
    let made = CVarOverride::from_parsed("a.b", parsed).unwrap();
    assert_eq!(made.path(), "a.b");
    assert_eq!(made.value().as_integer(), Some(37));

    let failed = toml_edit::Value::from_str("][");
    assert_eq!(
        CVarOverride::from_parsed("a.b", failed).unwrap_err(),
        CVarOverrideParseError::InvalidToml
    );
}
