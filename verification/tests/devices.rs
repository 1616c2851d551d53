use shield_optimizer::device::{
    collapse_duplicate_transports, find_device, hardware_id, renumber, ConnectionType, Device,
    DeviceProperties, DeviceStatus, DeviceType,
};
use shield_optimizer::listing::{
    device_rows, list_devices, serials_to_profile, DeviceEntry, DeviceProfile,
};
use shield_optimizer::profile::{
    display_name, friendly_model_for, profile_failure, properties_from_sections, property_reads,
};

fn row(serial: &str, hardware_id: &str) -> Device {
    Device {
        id: 0,
        serial: serial.to_string(),
        name: "TV".into(),
        model: "TV".into(),
        device_type: DeviceType::Unknown,
        status: DeviceStatus::Device,
        connection: ConnectionType::Network,
        properties: Some(DeviceProperties {
            serial_number: hardware_id.to_string(),
            ..Default::default()
        }),
    }
}

fn unidentified(serial: &str) -> Device {
    Device {
        id: 0,
        serial: serial.to_string(),
        name: serial.to_string(),
        model: String::new(),
        device_type: DeviceType::Unknown,
        status: DeviceStatus::Unauthorized,
        connection: ConnectionType::Network,
        properties: None,
    }
}

fn sections(values: &[&str]) -> Vec<String> {
    let mut sections: Vec<String> = values.iter().map(|v| (*v).to_string()).collect();
    sections.resize(property_reads().len(), String::new());
    sections
}

fn entry(serial: &str, status: DeviceStatus) -> DeviceEntry {
    DeviceEntry {
        serial: serial.to_string(),
        status,
        connection: ConnectionType::Network,
    }
}

fn profile(properties: DeviceProperties, device_type: DeviceType) -> DeviceProfile {
    DeviceProfile {
        properties,
        device_type,
        shield_model: "Shield TV Pro".to_string(),
    }
}

#[test]
fn every_property_read_maps_to_a_field() {
    let sections: Vec<String> = (0..property_reads().len())
        .map(|i| format!("value{i}"))
        .collect();
    let props = properties_from_sections(&sections);
    assert_eq!(props.friendly_name.as_deref(), Some("value0"));
    assert_eq!(props.brand, "value1");
    assert_eq!(props.model, "value2");
    assert_eq!(props.device_codename, "value3");
    assert_eq!(props.manufacturer, "value4");
    assert_eq!(props.android_release, "value5");
    assert_eq!(props.sdk_level, "value6");
    assert_eq!(props.build_id, "value7");
    assert_eq!(props.board_platform, "value8");
    assert_eq!(props.characteristics, "value9");
    assert_eq!(props.serial_number, "value10");
}

#[test]
fn silent_device_name_read_does_not_shift_the_android_version() {
    let entries = [entry("192.168.42.71:5555", DeviceStatus::Device)];
    let properties = properties_from_sections(&sections(&[
        "",
        "NVIDIA",
        "SHIELD Android TV",
        "mdarcy",
        "NVIDIA",
        "11",
        "30",
        "PPR1",
        "tegra",
        "tv",
        "0323220012345",
    ]));
    let devices = list_devices(&entries, vec![profile(properties, DeviceType::Shield)]);
    let props = devices[0].properties.as_ref().unwrap();

    assert_eq!(props.friendly_name, None);
    assert_eq!(props.brand, "NVIDIA");
    assert_eq!(props.android_release, "11");
    assert_eq!(props.sdk_level, "30");
    assert_eq!(props.serial_number, "0323220012345");
}

#[test]
fn multiline_settings_exception_stays_inside_its_own_section() {
    let entries = [entry("192.168.42.71:5555", DeviceStatus::Device)];
    let properties = properties_from_sections(&sections(&[
        "Exception occurred while executing:\n  java.lang.SecurityException\n  at android.os.Parcel",
        "TCL",
        "QM7L Pro",
        "",
        "TCL",
        "14",
        "34",
    ]));
    let devices = list_devices(&entries, vec![profile(properties, DeviceType::GoogleTv)]);
    let props = devices[0].properties.as_ref().unwrap();

    assert_eq!(props.friendly_name, None);
    assert_eq!(props.brand, "TCL");
    assert_eq!(props.model, "QM7L Pro");
    assert_eq!(props.android_release, "14");
    assert_eq!(props.sdk_level, "34");
    assert_eq!(props.build_id, "");
    assert_eq!(props.serial_number, "");
}

#[test]
fn one_device_reached_two_ways_collapses_to_the_usable_address() {
    let devices = vec![
        row(
            "adb-58040DLCH005YV-jBeCEe._adb-tls-connect._tcp",
            "58040DLCH005YV",
        ),
        row("192.168.42.211:34083", "58040DLCH005YV"),
    ];

    let collapsed = renumber(collapse_duplicate_transports(devices));

    assert_eq!(collapsed.len(), 1);
    assert_eq!(collapsed[0].serial, "192.168.42.211:34083");
    assert_eq!(collapsed[0].id, 1);
}

#[test]
fn the_service_name_survives_when_it_is_the_only_transport() {
    let devices = vec![row(
        "adb-58040DLCH005YV-jBeCEe._adb-tls-connect._tcp",
        "58040DLCH005YV",
    )];

    let collapsed = collapse_duplicate_transports(devices);

    assert_eq!(collapsed.len(), 1);
    assert_eq!(
        collapsed[0].serial,
        "adb-58040DLCH005YV-jBeCEe._adb-tls-connect._tcp"
    );
}

#[test]
fn different_hardware_ids_stay_separate_however_alike_the_addresses_look() {
    let devices = vec![
        row("192.168.42.211:34083", "AAAAAAA"),
        row("192.168.42.211:5555", "BBBBBBB"),
    ];

    let collapsed = collapse_duplicate_transports(devices);

    assert_eq!(collapsed.len(), 2, "two TVs at one address are two TVs");
}

#[test]
fn devices_without_an_id_are_never_merged_into_each_other() {
    let devices = vec![
        unidentified("192.168.42.143:5555"),
        unidentified("adb-mystery._adb-tls-connect._tcp"),
    ];

    let collapsed = collapse_duplicate_transports(devices);

    assert_eq!(collapsed.len(), 2);
}

#[test]
fn an_identified_device_never_absorbs_an_unidentified_one() {
    let devices = vec![
        row("192.168.42.211:34083", "58040DLCH005YV"),
        unidentified("adb-58040DLCH005YV-jBeCEe._adb-tls-connect._tcp"),
    ];

    let collapsed = collapse_duplicate_transports(devices);

    assert_eq!(
        collapsed.len(),
        2,
        "an unauthorized row has no verified id, so it cannot be merged"
    );
}

#[test]
fn placeholder_hardware_ids_are_not_identities() {
    let devices = vec![
        row("192.168.42.1:5555", "unknown"),
        row("192.168.42.2:5555", "Unknown"),
        row("192.168.42.3:5555", "   "),
    ];

    let collapsed = collapse_duplicate_transports(devices);

    assert_eq!(collapsed.len(), 3);
    assert!(collapsed.iter().all(|d| hardware_id(d).is_none()));
}

#[test]
fn a_disconnected_twin_does_not_merge_with_a_live_one() {
    let mut offline = row("192.168.42.211:5555", "58040DLCH005YV");
    offline.status = DeviceStatus::Offline;
    let devices = vec![row("192.168.42.211:34083", "58040DLCH005YV"), offline];

    let collapsed = collapse_duplicate_transports(devices);

    assert_eq!(collapsed.len(), 2);
}

#[test]
fn list_devices_impl_parses_authorized_and_unauthorized() {
    let entries = [
        entry("192.168.42.71:5555", DeviceStatus::Device),
        entry("192.168.42.143:5555", DeviceStatus::Unauthorized),
    ];
    assert_eq!(serials_to_profile(&entries), ["192.168.42.71:5555"]);
    let properties = properties_from_sections(&sections(&["Living Room", "NVIDIA"]));
    let devices = list_devices(&entries, vec![profile(properties, DeviceType::Unknown)]);
    assert_eq!(devices.len(), 2);
    assert_eq!(devices[0].serial, "192.168.42.71:5555");
    assert_eq!(devices[0].status, DeviceStatus::Device);
    assert_eq!(devices[1].status, DeviceStatus::Unauthorized);
    assert!(devices[1].properties.is_none());
}

#[test]
fn a_row_shows_what_was_read_of_the_device() {
    let entries = [
        entry("offline-one", DeviceStatus::Offline),
        entry("10.0.0.1:5555", DeviceStatus::Device),
        entry("10.0.0.2:5555", DeviceStatus::Device),
    ];
    let first = properties_from_sections(&sections(&["Den", "NVIDIA", "X", "mdarcy"]));
    let second = properties_from_sections(&sections(&["null", "TCL", "QM7L"]));
    let rows = device_rows(
        &entries,
        vec![
            profile(first, DeviceType::Shield),
            profile(second, DeviceType::GoogleTv),
        ],
    );
    assert_eq!(rows.len(), 3);
    assert_eq!(
        (rows[0].id, rows[0].name.as_str(), rows[0].model.as_str()),
        (1, "offline-one", "")
    );
    assert_eq!(rows[0].device_type, DeviceType::Unknown);
    assert_eq!(
        (rows[1].id, rows[1].name.as_str(), rows[1].model.as_str()),
        (2, "Den", "Shield TV Pro")
    );
    assert_eq!(
        (rows[2].id, rows[2].name.as_str(), rows[2].model.as_str()),
        (3, "TCL Device", "QM7L")
    );
}

#[test]
fn names_and_models_fall_back_in_turn() {
    let mut props = DeviceProperties::default();
    assert_eq!(display_name(&props), "Android TV");
    props.brand = "Sony".to_string();
    assert_eq!(display_name(&props), "Sony Device");
    props.friendly_name = Some("  ".to_string());
    assert_eq!(display_name(&props), "Sony Device");
    props.friendly_name = Some(" Attic ".to_string());
    assert_eq!(display_name(&props), " Attic ");
    assert_eq!(
        friendly_model_for(DeviceType::GoogleTv, &props, "unused"),
        "Google TV Device"
    );
    assert_eq!(
        friendly_model_for(DeviceType::Unknown, &props, "unused"),
        "Unknown Device"
    );
    props.model = "Bravia".to_string();
    assert_eq!(friendly_model_for(DeviceType::Unknown, &props, "unused"), "Bravia");
    assert_eq!(
        friendly_model_for(DeviceType::Shield, &props, "Shield TV (2019)"),
        "Shield TV (2019)"
    );
}

#[test]
fn a_blank_or_failed_read_is_no_profile() {
    assert_eq!(
        profile_failure(" \n", Some(0), " boom \n").unwrap(),
        "device profile unavailable: boom"
    );
    assert_eq!(
        profile_failure("text", Some(1), "text").unwrap(),
        "device profile unavailable: text"
    );
    assert_eq!(profile_failure("text", Some(0), "text"), None);
    assert_eq!(profile_failure("text", None, "text"), None);
}

#[test]
fn a_profile_is_found_by_its_serial() {
    let devices = || vec![row("10.0.0.1:5555", "A"), row("10.0.0.2:5555", "B")];
    assert_eq!(
        hardware_id(&find_device(devices(), "10.0.0.2:5555").unwrap()),
        Some("B")
    );
    assert_eq!(
        find_device(devices(), "10.0.0.3:5555").unwrap_err(),
        "device 10.0.0.3:5555 not found"
    );
}

#[test]
fn collapsing_again_changes_nothing_and_numbers_stay_contiguous() {
    let devices = vec![
        row("adb-a._adb._tcp", "A"),
        row("adb-b._adb._tcp", "B"),
        row("10.0.0.1:5555", " A "),
        unidentified("x"),
        row("10.0.0.9:5555", "A"),
        unidentified("x"),
    ];
    let once = collapse_duplicate_transports(devices);
    let serials: Vec<&str> = once.iter().map(|d| d.serial.as_str()).collect();
    assert_eq!(serials, ["10.0.0.1:5555", "adb-b._adb._tcp", "x", "x"]);
    let twice = collapse_duplicate_transports(once.clone());
    assert_eq!(twice, once);
    let ids: Vec<u32> = renumber(once).iter().map(|d| d.id).collect();
    assert_eq!(ids, [1, 2, 3, 4]);
}

#[test]
fn one_reply_changes_one_property() {
    let mut values = vec!["n", "b", "m", "c", "f", "11", "30", "id", "p", "tv", "s"];
    let before = properties_from_sections(&sections(&values));
    values[5] = "line one\nline two\nline three";
    let after = properties_from_sections(&sections(&values));
    assert_eq!(after.android_release, "line one\nline two\nline three");
    assert_eq!(after.sdk_level, before.sdk_level);
    assert_eq!(after.manufacturer, before.manufacturer);
    assert_eq!(after.friendly_name, before.friendly_name);
    assert_eq!(after.serial_number, before.serial_number);
}
