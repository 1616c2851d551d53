use serde_json::Value;
use shield_optimizer::device::DeviceType;
use shield_optimizer::settings::SettingsMap;
use shield_optimizer::snapshot::{
    compute_apply_plan, tracked_setting_keys, ApplyPlanInputs, Snapshot, SCHEMA_VERSION,
};
use shield_optimizer::snapshot_file::{check_version, SnapshotError};

fn map(pairs: &[(&str, &str)]) -> SettingsMap {
    let mut map = SettingsMap::new();
    for (name, value) in pairs {
        map.insert(name.to_string(), value.to_string());
    }
    map
}

fn sample_snapshot() -> Snapshot {
    Snapshot {
        schema_version: SCHEMA_VERSION,
        saved_at: "2026-05-27T12:00:00Z".to_string(),
        label: None,
        device_name: "Living Room TV".to_string(),
        device_serial: "192.168.42.71:5555".to_string(),
        device_type: DeviceType::Shield,
        android_version: "11".to_string(),
        disabled_packages: vec!["com.foo".into(), "com.bar".into(), "com.missing".into()],
        current_launcher: Some("com.spocky.projengmenu".to_string()),
        settings: map(&[("global.window_animation_scale", "0.5")]),
        absent_settings: Vec::new(),
    }
}

#[test]
fn roundtrip_json() {
    let snap = sample_snapshot();
    let json = snap.to_json().unwrap();
    let parsed = Snapshot::from_json(&json).unwrap();
    assert_eq!(parsed.device_name, snap.device_name);
    assert_eq!(parsed.disabled_packages, snap.disabled_packages);
}

#[test]
fn v1_snapshot_loads_with_no_label() {
    let payload = r#"{
            "schema_version": 1,
            "saved_at": "2026-05-27T12:00:00Z",
            "device_name": "Old Shield",
            "device_serial": "x",
            "device_type": "shield",
            "android_version": "11",
            "disabled_packages": [],
            "current_launcher": null,
            "settings": {}
        }"#;
    let snap = Snapshot::from_json(payload).unwrap();
    assert_eq!(snap.label, None);
    assert_eq!(snap.device_name, "Old Shield");
}

#[test]
fn label_roundtrips() {
    let mut snap = sample_snapshot();
    snap.label = Some("before debloat".to_string());
    let parsed = Snapshot::from_json(&snap.to_json().unwrap()).unwrap();
    assert_eq!(parsed.label.as_deref(), Some("before debloat"));
}

#[test]
fn absent_and_empty_settings_roundtrip_and_plan_separately() {
    let mut snap = sample_snapshot();
    let empty_key = "global.encoded_surround_output_enabled_formats".to_string();
    let absent_key = "global.encoded_surround_output".to_string();
    snap.settings.insert(empty_key.clone(), String::new());
    snap.absent_settings.push(absent_key.clone());
    let parsed = Snapshot::from_json(&snap.to_json().unwrap()).unwrap();
    assert_eq!(parsed.settings.get(&empty_key), Some(&String::new()));
    assert_eq!(parsed.absent_settings, std::slice::from_ref(&absent_key));
    let current = map(&[(absent_key.as_str(), "3"), ("global.unrelated", "keep")]);
    let plan = compute_apply_plan(
        &parsed,
        &ApplyPlanInputs {
            target_device_type: DeviceType::Shield,
            currently_disabled: &[],
            currently_installed: &[],
            current_settings: &current,
        },
    );
    assert_eq!(plan.settings_to_delete, [absent_key]);
    assert_eq!(plan.settings_to_write.get(&empty_key), Some(&String::new()));
    assert!(!plan.settings_to_write.contains_key("global.unrelated"));
    let absent = SettingsMap::new();
    let unchanged = compute_apply_plan(
        &parsed,
        &ApplyPlanInputs {
            target_device_type: DeviceType::Shield,
            currently_disabled: &[],
            currently_installed: &[],
            current_settings: &absent,
        },
    );
    assert!(unchanged.settings_to_delete.is_empty());
    assert!(unchanged
        .settings_already_set
        .contains(&"global.encoded_surround_output".into()));
}

#[test]
fn legacy_omissions_never_become_deletions() {
    for version in [1, 2] {
        let mut snap = sample_snapshot();
        snap.schema_version = version;
        let mut json = snap.to_value();
        json.as_object_mut().unwrap().remove("absent_settings");
        let migrated = Snapshot::from_json(&json.to_string()).unwrap();
        assert_eq!(migrated.schema_version, SCHEMA_VERSION);
        assert!(migrated.absent_settings.is_empty());
        let current = map(&[("global.encoded_surround_output", "3")]);
        let plan = compute_apply_plan(
            &migrated,
            &ApplyPlanInputs {
                target_device_type: DeviceType::Shield,
                currently_disabled: &[],
                currently_installed: &[],
                current_settings: &current,
            },
        );
        assert!(plan.settings_to_delete.is_empty());
    }
}

#[test]
fn rejects_conflicting_present_and_absent_values() {
    let mut snap = sample_snapshot();
    snap.absent_settings
        .push("global.window_animation_scale".into());
    assert!(Snapshot::from_json(&snap.to_json().unwrap()).is_err());
}

#[test]
fn rejects_zero_schema_version() {
    let payload = r#"{
            "schema_version": 0,
            "saved_at": "2026-05-27T12:00:00Z",
            "device_name": "x",
            "device_serial": "x",
            "device_type": "shield",
            "android_version": "11",
            "disabled_packages": [],
            "current_launcher": null,
            "settings": {}
        }"#;
    let err = Snapshot::from_json(payload).unwrap_err();
    assert!(matches!(
        err,
        SnapshotError::UnsupportedSchema {
            found: 0,
            supported: 3
        }
    ));
}

#[test]
fn rejects_future_schema() {
    let payload = r#"{
            "schema_version": 999,
            "saved_at": "2026-05-27T12:00:00Z",
            "device_name": "x",
            "device_serial": "x",
            "device_type": "shield",
            "android_version": "11",
            "disabled_packages": [],
            "current_launcher": null,
            "settings": {}
        }"#;
    let err = Snapshot::from_json(payload).unwrap_err();
    match err {
        SnapshotError::UnsupportedSchema {
            found: 999,
            supported: 3,
        } => {}
        other => panic!("wrong error: {other:?}"),
    }
}

#[test]
fn rejects_missing_schema_version() {
    let payload = r#"{
            "saved_at": "2026-05-27T12:00:00Z",
            "device_name": "x",
            "disabled_packages": []
        }"#;
    let err = Snapshot::from_json(payload).unwrap_err();
    assert!(matches!(err, SnapshotError::MissingField("schema_version")));
}

#[test]
fn rejects_malformed_json() {
    let err = Snapshot::from_json("not json").unwrap_err();
    assert!(matches!(err, SnapshotError::Malformed(_)));
}

#[test]
fn apply_plan_categorizes_packages() {
    let snap = sample_snapshot();
    let installed = vec!["com.foo".into(), "com.bar".into()];
    let disabled = vec!["com.bar".into()];
    let no_settings = SettingsMap::new();
    let inputs = ApplyPlanInputs {
        target_device_type: DeviceType::Shield,
        currently_disabled: &disabled,
        currently_installed: &installed,
        current_settings: &no_settings,
    };
    let plan = compute_apply_plan(&snap, &inputs);
    assert_eq!(plan.packages_to_disable, vec!["com.foo"]);
    assert_eq!(plan.packages_already_disabled, vec!["com.bar"]);
    assert_eq!(plan.packages_not_installed, vec!["com.missing"]);
    assert!(plan.cross_device_warning.is_none());
    assert_eq!(plan.settings_to_write.len(), 1);
    assert!(plan.settings_already_set.is_empty());
}

#[test]
fn apply_plan_skips_settings_already_at_target() {
    let snap = sample_snapshot();
    let installed: Vec<String> = vec![];
    let disabled: Vec<String> = vec![];
    let mk = |val: &str| map(&[("global.window_animation_scale", val)]);

    let matched = mk("0.5");
    let plan = compute_apply_plan(
        &snap,
        &ApplyPlanInputs {
            target_device_type: DeviceType::Shield,
            currently_disabled: &disabled,
            currently_installed: &installed,
            current_settings: &matched,
        },
    );
    assert!(plan.settings_to_write.is_empty());
    assert_eq!(
        plan.settings_already_set,
        vec!["global.window_animation_scale"]
    );

    let differs = mk("1.0");
    let plan = compute_apply_plan(
        &snap,
        &ApplyPlanInputs {
            target_device_type: DeviceType::Shield,
            currently_disabled: &disabled,
            currently_installed: &installed,
            current_settings: &differs,
        },
    );
    assert_eq!(plan.settings_to_write.len(), 1);
    assert!(plan.settings_already_set.is_empty());
}

#[test]
fn apply_plan_warns_on_cross_device() {
    let snap = sample_snapshot();
    let installed: Vec<String> = vec![];
    let disabled: Vec<String> = vec![];
    let no_settings = SettingsMap::new();
    let inputs = ApplyPlanInputs {
        target_device_type: DeviceType::GoogleTv,
        currently_disabled: &disabled,
        currently_installed: &installed,
        current_settings: &no_settings,
    };
    let plan = compute_apply_plan(&snap, &inputs);
    assert!(plan.cross_device_warning.is_some());
    assert!(plan.cross_device_warning.unwrap().contains("Nvidia Shield"));
}

#[test]
fn the_text_of_a_snapshot_is_this() {
    let mut snap = sample_snapshot();
    snap.label = Some("a \"b\"\n".to_string());
    snap.current_launcher = None;
    snap.disabled_packages.truncate(1);
    snap.settings.insert("a".to_string(), String::new());
    assert_eq!(
        snap.to_json().unwrap(),
        r#"{
  "schema_version": 3,
  "saved_at": "2026-05-27T12:00:00Z",
  "label": "a \"b\"\n",
  "device_name": "Living Room TV",
  "device_serial": "192.168.42.71:5555",
  "device_type": "shield",
  "android_version": "11",
  "disabled_packages": [
    "com.foo"
  ],
  "current_launcher": null,
  "settings": {
    "a": "",
    "global.window_animation_scale": "0.5"
  },
  "absent_settings": []
}"#
    );
}

#[test]
fn what_is_written_comes_back_whole() {
    for device_type in [DeviceType::Shield, DeviceType::GoogleTv, DeviceType::Unknown] {
        let mut snap = sample_snapshot();
        snap.device_type = device_type;
        snap.label = Some("\u{0}\u{1f600}\\/ \"".to_string());
        snap.absent_settings = vec!["z".to_string(), "z".to_string()];
        snap.settings.insert("é".to_string(), "ü".to_string());
        let back = Snapshot::from_json(&snap.to_json().unwrap()).unwrap();
        assert_eq!(back.schema_version, snap.schema_version);
        assert_eq!(back.saved_at, snap.saved_at);
        assert_eq!(back.label, snap.label);
        assert_eq!(back.device_name, snap.device_name);
        assert_eq!(back.device_serial, snap.device_serial);
        assert_eq!(back.device_type, snap.device_type);
        assert_eq!(back.android_version, snap.android_version);
        assert_eq!(back.disabled_packages, snap.disabled_packages);
        assert_eq!(back.current_launcher, snap.current_launcher);
        assert_eq!(back.settings, snap.settings);
        assert_eq!(back.absent_settings, snap.absent_settings);
    }
}

/// The sample as a document, with one member replaced or taken out.
fn changed(key: &str, value: Option<Value>) -> String {
    let mut json = sample_snapshot().to_value();
    let members = json.as_object_mut().unwrap();
    match value {
        Some(value) => {
            members.insert(key.to_string(), value);
        }
        None => {
            members.shift_remove(key);
        }
    }
    json.to_string()
}

fn complaint(json: &str) -> String {
    match Snapshot::from_json(json) {
        Err(SnapshotError::Malformed(message)) => message,
        other => panic!("expected a malformed snapshot, got {other:?}"),
    }
}

#[test]
fn fields_that_a_snapshot_needs_must_be_there() {
    for key in [
        "saved_at",
        "device_name",
        "device_serial",
        "device_type",
        "android_version",
        "disabled_packages",
        "settings",
    ] {
        assert_eq!(complaint(&changed(key, None)), format!("missing field `{key}`"));
    }
    for key in ["label", "current_launcher", "absent_settings", "not_a_field"] {
        assert!(Snapshot::from_json(&changed(key, None)).is_ok(), "{key}");
    }
}

#[test]
fn fields_must_hold_what_they_are_for() {
    let five = || Some(Value::from(5u64));
    assert_eq!(
        complaint(&changed("saved_at", five())),
        "invalid type: integer `5`, expected a string"
    );
    assert_eq!(
        complaint(&changed("label", Some(Value::Bool(true)))),
        "invalid type: boolean `true`, expected a string"
    );
    assert_eq!(
        complaint(&changed("android_version", Some(Value::from(1.5)))),
        "invalid type: floating point `1.5`, expected a string"
    );
    assert_eq!(
        complaint(&changed("disabled_packages", Some(Value::Null))),
        "invalid type: null, expected a sequence"
    );
    assert_eq!(
        complaint(&changed("absent_settings", Some(Value::Array(vec![Value::Null])))),
        "invalid type: null, expected a string"
    );
    assert_eq!(
        complaint(&changed("settings", Some(Value::Array(vec![])))),
        "invalid type: sequence, expected a map"
    );
    assert_eq!(
        complaint(&changed("device_type", Some(Value::from("toaster")))),
        "unknown variant `toaster`, expected one of `shield`, `google_tv`, `unknown`"
    );
    for (value, message) in [
        ("5", "invalid type: integer `5`, expected string or map"),
        ("-5", "invalid type: integer `-5`, expected string or map"),
        ("1.5", "invalid type: floating point `1.5`, expected string or map"),
        ("2.0", "invalid type: floating point `2.0`, expected string or map"),
        ("null", "invalid type: null, expected string or map"),
        ("true", "invalid type: boolean `true`, expected string or map"),
        ("[]", "invalid type: sequence, expected string or map"),
        ("{}", "invalid value: map, expected map with a single key"),
        (
            r#"{"shield":null,"unknown":null}"#,
            "invalid value: map, expected map with a single key",
        ),
        (
            r#"{"toaster":1}"#,
            "unknown variant `toaster`, expected one of `shield`, `google_tv`, `unknown`",
        ),
        (r#"{"shield":"a\"b"}"#, "invalid type: string \"a\\\"b\", expected unit"),
        (r#"{"shield":false}"#, "invalid type: boolean `false`, expected unit"),
        (r#"{"shield":{}}"#, "invalid type: map, expected unit"),
        (r#"{"shield":[null]}"#, "invalid type: sequence, expected unit"),
    ] {
        let value: Value = serde_json::from_str(value).unwrap();
        assert_eq!(complaint(&changed("device_type", Some(value))), message);
    }
    assert!(Snapshot::from_json(&changed("not_a_field", five())).is_ok());
}

#[test]
fn the_first_wrong_member_is_named_and_comes_before_a_missing_one() {
    let json = r#"{"settings": 1, "schema_version": 3, "saved_at": 2}"#;
    assert_eq!(complaint(json), "invalid type: integer `1`, expected a map");
    let json = r#"{"schema_version": 3, "saved_at": "x"}"#;
    assert_eq!(complaint(json), "missing field `device_name`");
}

#[test]
fn a_device_type_may_stand_as_the_key_of_null() {
    let json = changed("device_type", Some(serde_json::from_str(r#"{"google_tv":null}"#).unwrap()));
    assert_eq!(
        Snapshot::from_json(&json).unwrap().device_type,
        DeviceType::GoogleTv
    );
    let json = changed("device_type", Some(serde_json::from_str(r#"{"google_tv":1}"#).unwrap()));
    assert_eq!(complaint(&json), "invalid type: integer `1`, expected unit");
}

#[test]
fn versions_are_checked_before_anything_else() {
    for (json, found) in [
        (r#"{"schema_version": 4}"#, 4),
        (r#"{"schema_version": 4294967295}"#, u32::MAX),
        (r#"{"schema_version": 4294967296}"#, u32::MAX),
        (r#"{"schema_version": 18446744073709551615}"#, u32::MAX),
    ] {
        match Snapshot::from_json(json) {
            Err(SnapshotError::UnsupportedSchema { found: said, supported: 3 }) => {
                assert_eq!(said, found)
            }
            other => panic!("{json}: {other:?}"),
        }
    }
    for json in [
        r#"{"schema_version": -1}"#,
        r#"{"schema_version": 1.0}"#,
        r#"{"schema_version": "3"}"#,
        "[3]",
        "3",
        "null",
    ] {
        assert!(
            matches!(
                Snapshot::from_json(json),
                Err(SnapshotError::MissingField("schema_version"))
            ),
            "{json}"
        );
    }
    assert_eq!(check_version(Some(1)).unwrap(), 1);
    assert_eq!(check_version(Some(3)).unwrap(), 3);
    assert!(check_version(None).is_err());
}

#[test]
fn errors_read_like_this() {
    assert_eq!(
        SnapshotError::UnsupportedSchema { found: 12, supported: 3 }.message(),
        "snapshot schema version 12 is newer than this build supports (max 3)"
    );
    assert_eq!(
        SnapshotError::MissingField("schema_version").message(),
        "snapshot is missing required field: schema_version"
    );
    assert_eq!(
        Snapshot::from_json("").unwrap_err().message(),
        "snapshot JSON is malformed: EOF while parsing a value at line 1 column 0"
    );
    assert_eq!(
        Snapshot::from_json("{} x").unwrap_err().message(),
        "snapshot JSON is malformed: trailing characters at line 1 column 4"
    );
}

#[test]
fn an_old_file_names_nothing_as_absent() {
    let mut snap = sample_snapshot();
    snap.schema_version = 2;
    snap.absent_settings = vec!["global.window_animation_scale".to_string()];
    let migrated = snap.settle().unwrap();
    assert_eq!(migrated.schema_version, 3);
    assert!(migrated.absent_settings.is_empty());

    let mut snap = sample_snapshot();
    snap.absent_settings = vec!["x".to_string(), "global.window_animation_scale".to_string()];
    assert_eq!(
        snap.settle().unwrap_err().message(),
        "snapshot JSON is malformed: setting cannot be both present and absent"
    );
}

#[test]
fn the_warning_names_both_devices() {
    let plan = compute_apply_plan(
        &sample_snapshot(),
        &ApplyPlanInputs {
            target_device_type: DeviceType::Unknown,
            currently_disabled: &[],
            currently_installed: &[],
            current_settings: &SettingsMap::new(),
        },
    );
    assert_eq!(
        plan.cross_device_warning.unwrap(),
        "Snapshot was taken from a Nvidia Shield device; current device is detected as Unknown."
    );
    assert_eq!(plan.launcher_to_set.as_deref(), Some("com.spocky.projengmenu"));
}

#[test]
fn carrying_out_the_plan_restores_the_snapshot_and_leaves_nothing_to_do() {
    let mut snap = sample_snapshot();
    snap.settings = map(&[("a", "1"), ("b", "2"), ("c", "3")]);
    snap.absent_settings = vec!["x".to_string(), "y".to_string()];
    let installed: Vec<String> = vec!["com.foo".into(), "com.bar".into(), "com.other".into()];
    let mut disabled: Vec<String> = vec!["com.bar".into()];
    let current = map(&[("a", "1"), ("b", "9"), ("x", "7"), ("kept", "k")]);
    let plan = compute_apply_plan(
        &snap,
        &ApplyPlanInputs {
            target_device_type: DeviceType::Shield,
            currently_disabled: &disabled,
            currently_installed: &installed,
            current_settings: &current,
        },
    );
    assert_eq!(plan.settings_to_write, map(&[("b", "2"), ("c", "3")]));
    assert_eq!(plan.settings_to_delete, ["x"]);
    assert_eq!(plan.settings_already_set, ["a", "y"]);
    let total = plan.packages_to_disable.len()
        + plan.packages_already_disabled.len()
        + plan.packages_not_installed.len();
    assert_eq!(total, snap.disabled_packages.len());

    let mut after = SettingsMap::new();
    for i in 0..current.len() {
        if !plan.settings_to_delete.contains(&current.name_at(i).to_string()) {
            after.insert(current.name_at(i).to_string(), current.value_at(i).to_string());
        }
    }
    for i in 0..plan.settings_to_write.len() {
        after.insert(
            plan.settings_to_write.name_at(i).to_string(),
            plan.settings_to_write.value_at(i).to_string(),
        );
    }
    assert_eq!(after, map(&[("a", "1"), ("b", "2"), ("c", "3"), ("kept", "k")]));
    disabled.extend(plan.packages_to_disable);
    let again = compute_apply_plan(
        &snap,
        &ApplyPlanInputs {
            target_device_type: DeviceType::Shield,
            currently_disabled: &disabled,
            currently_installed: &installed,
            current_settings: &after,
        },
    );
    assert!(again.settings_to_write.is_empty());
    assert!(again.settings_to_delete.is_empty());
    assert!(again.packages_to_disable.is_empty());
}

#[test]
fn the_tracked_settings_are_these() {
    let keys = tracked_setting_keys();
    assert_eq!(keys.len(), 11);
    assert_eq!(keys[0], ("global", "window_animation_scale"));
    assert_eq!(keys[7], ("secure", "match_content_frame_rate"));
    assert_eq!(keys[10], ("global", "encoded_surround_output_enabled_formats"));
}

#[test]
fn settings_are_walked_by_name_and_each_once() {
    let settings = map(&[("b", "1"), ("a", "2"), ("b", "3"), ("", "4"), ("aa", "5"), ("é", "6")]);
    let names: Vec<&str> = (0..settings.len()).map(|i| settings.name_at(i)).collect();
    assert_eq!(names, ["", "a", "aa", "b", "é"]);
    assert_eq!(settings.get("b").map(String::as_str), Some("3"));
    assert_eq!(settings.get("c"), None);
    assert_eq!(settings.clone(), settings);
    assert!(SettingsMap::new().is_empty() && !settings.is_empty());
    let shuffled = map(&[("é", "6"), ("aa", "5"), ("", "4"), ("b", "3"), ("a", "2")]);
    assert_eq!(shuffled, settings);
}
