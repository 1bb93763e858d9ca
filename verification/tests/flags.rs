use bevy_convars::types::CVarFlags;

#[test]
fn flags_contains_itself_and_the_empty_set() {
    let saved_runtime = CVarFlags(CVarFlags::SAVED) | CVarFlags(CVarFlags::RUNTIME);
    assert!(saved_runtime.contains(CVarFlags(CVarFlags::SAVED)));
    assert!(saved_runtime.contains(CVarFlags(CVarFlags::RUNTIME)));
    assert!(saved_runtime.contains(CVarFlags(CVarFlags::LOCAL)));
    assert!(!saved_runtime.contains(CVarFlags(CVarFlags::MIRRORED)));
    assert_eq!((saved_runtime & CVarFlags(CVarFlags::SAVED)).0, 1);
    assert_eq!(saved_runtime.0, 0b101);
}
