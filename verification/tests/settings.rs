use devix_core::settings::{
    OverrideValue, SettingSpec, SettingValue, SettingsOverrideError, SettingsStore,
};
use devix_core::theme_store::ThemeStore;

fn num(f: f64) -> u64 {
    f.to_bits()
}

fn get(store: &SettingsStore, key: &str) -> Option<String> {
    store.get(key).map(|v| match v {
        SettingValue::Boolean(b) => format!("bool:{b}"),
        SettingValue::String(s) => format!("string:{s}"),
        SettingValue::Number(n) => format!("number:{}", f64::from_bits(*n)),
        SettingValue::EnumString(s) => format!("enum:{s}"),
    })
}

fn some(s: &str) -> Option<String> {
    Some(s.to_string())
}

fn mode_spec() -> SettingSpec {
    SettingSpec::Enum {
        default: "auto".into(),
        values: vec!["auto".into(), "manual".into()],
    }
}

#[test]
fn register_seeds_defaults() {
    let mut store = SettingsStore::new();
    let added = store.register_from_manifest(&[
        ("p.flag".to_string(), SettingSpec::Boolean { default: true }),
        ("p.name".to_string(), SettingSpec::String { default: "alpha".into() }),
        ("p.size".to_string(), SettingSpec::Number { default: num(4.0) }),
    ]);
    assert_eq!(added, 3);
    assert_eq!(get(&store, "p.flag"), some("bool:true"));
    assert_eq!(get(&store, "p.name"), some("string:alpha"));
    assert_eq!(get(&store, "p.size"), some("number:4"));
    assert_eq!(store.len(), 3);
}

#[test]
fn enum_default_recorded_with_values() {
    let mut store = SettingsStore::new();
    store.register_from_manifest(&[(
        "p.mode".to_string(),
        SettingSpec::Enum {
            default: "auto".into(),
            values: vec!["auto".into(), "always".into(), "never".into()],
        },
    )]);
    assert_eq!(get(&store, "p.mode"), some("enum:auto"));
}

#[test]
fn first_wins_on_collision() {
    let mut store = SettingsStore::new();
    let m1 = [("shared.key".to_string(), SettingSpec::Boolean { default: true })];
    let m2 = [("shared.key".to_string(), SettingSpec::Boolean { default: false })];
    assert_eq!(store.register_from_manifest(&m1), 1);
    assert_eq!(store.register_from_manifest(&m2), 0);
    assert_eq!(get(&store, "shared.key"), some("bool:true"));
}

#[test]
fn set_mutates_value_and_publishes_setting_changed() {
    let mut store = SettingsStore::new();
    store.register_from_manifest(&[("p.flag".to_string(), SettingSpec::Boolean { default: false })]);
    assert!(store.set("p.flag", SettingValue::Boolean(true)));
    assert_eq!(get(&store, "p.flag"), some("bool:true"));
    let changes = store.take_announcements();
    assert_eq!(changes.len(), 1);
    assert_eq!(changes[0].setting, "/setting/p.flag");
    assert!(matches!(changes[0].value, SettingValue::Boolean(true)));
    assert!(store.take_announcements().is_empty());
}

#[test]
fn refused_sets_and_overrides_announce_nothing() {
    let mut store = SettingsStore::new();
    store.register_from_manifest(&[
        ("p.flag".to_string(), SettingSpec::Boolean { default: false }),
        ("p.mode".to_string(), mode_spec()),
    ]);
    assert!(!store.set("nope.key", SettingValue::Boolean(true)));
    assert!(!store.set("p.mode", SettingValue::EnumString("nope".into())));
    assert!(matches!(store.apply_overrides(&[("p.flag".to_string(), OverrideValue::Bool(true))]), Ok(1)));
    assert!(store.take_announcements().is_empty());
    assert!(store.set("p.mode", SettingValue::EnumString("manual".into())));
    let changes = store.take_announcements();
    assert_eq!(changes.len(), 1);
    assert_eq!(changes[0].setting, "/setting/p.mode");
    assert!(matches!(&changes[0].value, SettingValue::EnumString(s) if s == "manual"));
}

#[test]
fn set_rejects_unknown_key_and_type_mismatch() {
    let mut store = SettingsStore::new();
    store.register_from_manifest(&[("p.flag".to_string(), SettingSpec::Boolean { default: false })]);
    // Unknown key — not in the store.
    assert!(!store.set("nope.key", SettingValue::Boolean(true)));
    // Type mismatch — boolean key getting a string.
    assert!(!store.set("p.flag", SettingValue::String("x".into())));
    assert_eq!(get(&store, "p.flag"), some("bool:false"));
}

#[test]
fn set_enum_rejects_out_of_range_value() {
    let mut store = SettingsStore::new();
    store.register_from_manifest(&[("p.mode".to_string(), mode_spec())]);
    assert!(!store.set("p.mode", SettingValue::EnumString("nope".into())));
    assert!(store.set("p.mode", SettingValue::EnumString("manual".into())));
}

#[test]
fn overrides_apply_typed_values_and_skip_unknown_keys() {
    let mut store = SettingsStore::new();
    store.register_from_manifest(&[
        ("p.flag".to_string(), SettingSpec::Boolean { default: false }),
        ("p.name".to_string(), SettingSpec::String { default: "alpha".into() }),
        ("p.size".to_string(), SettingSpec::Number { default: num(1.0) }),
        ("p.mode".to_string(), mode_spec()),
    ]);
    let applied = store.apply_overrides(&[
        ("p.flag".to_string(), OverrideValue::Bool(true)),
        ("p.name".to_string(), OverrideValue::String("beta".into())),
        ("p.size".to_string(), OverrideValue::Number(num(7.5))),
        ("p.mode".to_string(), OverrideValue::String("manual".into())),
        ("unknown.key".to_string(), OverrideValue::String("ignored".into())),
    ]);
    assert!(matches!(applied, Ok(4)), "four known keys applied; unknown.key skipped");
    assert_eq!(get(&store, "p.flag"), some("bool:true"));
    assert_eq!(get(&store, "p.name"), some("string:beta"));
    assert_eq!(get(&store, "p.size"), some("number:7.5"));
    assert_eq!(get(&store, "p.mode"), some("enum:manual"));
    assert_eq!(get(&store, "unknown.key"), None);
}

#[test]
fn override_type_mismatch_errors() {
    let mut store = SettingsStore::new();
    store.register_from_manifest(&[("p.flag".to_string(), SettingSpec::Boolean { default: false })]);
    let err = store.apply_overrides(&[("p.flag".to_string(), OverrideValue::String("not-a-bool".into()))]);
    match err {
        Err(SettingsOverrideError::TypeMismatch { key, expected, got }) => {
            assert_eq!(key, "p.flag");
            assert_eq!(expected, "boolean");
            assert_eq!(got, "string");
        }
        _ => panic!("expected TypeMismatch"),
    }
    assert_eq!(get(&store, "p.flag"), some("bool:false"));
}

#[test]
fn override_enum_out_of_range_errors() {
    let mut store = SettingsStore::new();
    store.register_from_manifest(&[("p.mode".to_string(), mode_spec())]);
    let err = store.apply_overrides(&[("p.mode".to_string(), OverrideValue::String("nope".into()))]);
    match err {
        Err(SettingsOverrideError::EnumOutOfRange { key, got, values }) => {
            assert_eq!(key, "p.mode");
            assert_eq!(got, "nope");
            assert_eq!(values, vec!["auto".to_string(), "manual".to_string()]);
        }
        _ => panic!("expected EnumOutOfRange"),
    }
}

#[test]
fn overrides_before_an_error_stay_applied() {
    let mut store = SettingsStore::new();
    store.register_from_manifest(&[
        ("a".to_string(), SettingSpec::Boolean { default: false }),
        ("b".to_string(), SettingSpec::Number { default: num(0.0) }),
    ]);
    let r = store.apply_overrides(&[
        ("a".to_string(), OverrideValue::Bool(true)),
        ("b".to_string(), OverrideValue::Null),
        ("a".to_string(), OverrideValue::Bool(false)),
    ]);
    match r {
        Err(SettingsOverrideError::TypeMismatch { expected, got, .. }) => {
            assert_eq!(expected, "number");
            assert_eq!(got, "null");
        }
        _ => panic!("expected TypeMismatch"),
    }
    assert_eq!(get(&store, "a"), some("bool:true"));
}

#[test]
fn empty_store() {
    let store = SettingsStore::new();
    assert!(store.is_empty());
    assert_eq!(store.len(), 0);
    assert_eq!(get(&store, "x"), None);
}

#[test]
fn register_from_manifest_first_wins_on_collision() {
    let mut store: ThemeStore<&str> = ThemeStore::new();
    let first = store.register_from_manifest(vec![("shared".to_string(), "red")]);
    let second = store.register_from_manifest(vec![
        ("shared".to_string(), "green"),
        ("other".to_string(), "blue"),
    ]);
    assert_eq!(first, 1);
    assert_eq!(second, 1);
    assert_eq!(store.get("shared"), Some(&"red"));
    assert_eq!(store.ids(), vec!["shared", "other"]);
    assert_eq!(store.len(), 2);
}

#[test]
fn activate_unknown_id_returns_none() {
    let store: ThemeStore<&str> = ThemeStore::new();
    assert_eq!(store.get("nope"), None);
    assert!(store.is_empty());
}
