use shield_optimizer::adb::{AdbError, AdbOutput};
use shield_optimizer::connect::{classify_connect_output, ConnectOutcome};
use shield_optimizer::scan::{
    attempt_outcome, begin_connecting, continue_scan, merge_scan_targets, start_scan,
    summary_message, MdnsService, ScanAction, ScanStart, MDNS_SERVICE_CONNECT,
    MDNS_SERVICE_LEGACY, MDNS_SERVICE_PAIRING,
};

fn service(instance: &str, kind: &str, host: &str, port: u16) -> MdnsService {
    MdnsService {
        instance: instance.into(),
        service: kind.into(),
        host: host.into(),
        port,
    }
}

#[test]
fn an_advertised_port_is_used_instead_of_guessing_5555() {
    let services = vec![service(
        "adb-58040DLCH005YV-jBeCEe",
        MDNS_SERVICE_CONNECT,
        "192.168.42.211",
        41541,
    )];

    let targets = merge_scan_targets(&[], &services);

    assert_eq!(targets.connect, vec!["192.168.42.211:41541"]);
    assert!(targets.needs_pairing.is_empty());
}

#[test]
fn an_advertised_host_is_not_also_probed_on_5555() {
    let services = vec![service(
        "adb-tv",
        MDNS_SERVICE_CONNECT,
        "192.168.42.211",
        41541,
    )];
    let swept = vec!["192.168.42.211".to_string(), "192.168.42.71".to_string()];

    let targets = merge_scan_targets(&swept, &services);

    assert_eq!(
        targets.connect,
        vec!["192.168.42.211:41541", "192.168.42.71:5555"]
    );
    assert!(!targets.connect.iter().any(|t| t == "192.168.42.211:5555"));
}

#[test]
fn legacy_devices_still_reach_5555_when_nothing_is_advertised() {
    let targets = merge_scan_targets(&["192.168.42.71".to_string()], &[]);

    assert_eq!(targets.connect, vec!["192.168.42.71:5555"]);
    assert!(targets.needs_pairing.is_empty());
}

#[test]
fn a_pairing_only_device_is_reported_rather_than_connected_to() {
    let services = vec![service(
        "adb-tcl",
        MDNS_SERVICE_PAIRING,
        "192.168.42.211",
        37199,
    )];

    let targets = merge_scan_targets(&[], &services);

    assert!(targets.connect.is_empty());
    assert_eq!(targets.needs_pairing, vec!["192.168.42.211:37199"]);
}

#[test]
fn an_already_paired_device_is_not_asked_to_pair_again() {
    let services = vec![
        service(
            "adb-tcl-pair",
            MDNS_SERVICE_PAIRING,
            "192.168.42.211",
            37199,
        ),
        service(
            "adb-tcl-connect",
            MDNS_SERVICE_CONNECT,
            "192.168.42.211",
            41541,
        ),
    ];

    let targets = merge_scan_targets(&[], &services);

    assert_eq!(targets.connect, vec!["192.168.42.211:41541"]);
    assert!(targets.needs_pairing.is_empty());
}

#[test]
fn repeated_advertisements_produce_one_target_each() {
    let services = vec![
        service("a", MDNS_SERVICE_LEGACY, "192.168.42.71", 5555),
        service("a", MDNS_SERVICE_LEGACY, "192.168.42.71", 5555),
    ];

    let targets = merge_scan_targets(&["192.168.42.71".to_string()], &services);

    assert_eq!(targets.connect, vec!["192.168.42.71:5555"]);
}

#[test]
fn summary_tells_the_user_how_to_pair_a_waiting_device() {
    let message = summary_message(
        "192.168.42",
        1,
        &[],
        &[],
        &["192.168.42.211:37199".to_string()],
    );

    assert!(message.contains("1 waiting to be paired"));
    assert!(message.contains("192.168.42.211:37199"));
    assert!(message.contains("Pair PIN"));
}

#[test]
fn summary_says_nothing_about_pairing_when_nothing_is_waiting() {
    let message = summary_message(
        "192.168.42",
        1,
        &["192.168.42.71:5555".to_string()],
        &[],
        &[],
    );

    assert!(!message.contains("paired"));
}

#[test]
fn classifies_fresh_and_already_connected() {
    assert_eq!(
        classify_connect_output("connected to 192.168.42.71:5555"),
        ConnectOutcome::Connected
    );
    assert_eq!(
        classify_connect_output("already connected to 192.168.42.71:5555"),
        ConnectOutcome::Connected
    );
}

#[test]
fn classifies_connected_despite_daemon_startup_noise() {
    let out = "* daemon not running; starting now at tcp:5037\n\
                   * daemon started successfully\nconnected to 192.168.42.71:5555";
    assert_eq!(classify_connect_output(out), ConnectOutcome::Connected);
}

#[test]
fn classifies_unauthorized() {
    assert_eq!(
        classify_connect_output("failed to authenticate to 192.168.42.143:5555"),
        ConnectOutcome::Unauthorized
    );
}

#[test]
fn classifies_failures() {
    assert_eq!(
        classify_connect_output("failed to connect to '192.168.42.9:5555': Connection refused"),
        ConnectOutcome::Failed
    );
    assert_eq!(
        classify_connect_output("cannot connect to 192.168.42.9:5555: timeout"),
        ConnectOutcome::Failed
    );
    assert_eq!(classify_connect_output(""), ConnectOutcome::Failed);
}

#[test]
fn summary_mentions_unauthorized_devices() {
    let msg = summary_message(
        "192.168.42",
        4,
        &[],
        &["192.168.42.143".into(), "192.168.42.25".into()],
        &[],
    );
    assert_eq!(
        msg,
        "Scanned 192.168.42.x — found 4 devices, connected 0. 2 need authorization — \
             accept the \"Allow USB debugging?\" prompt on the TV, then Refresh."
    );
}

#[test]
fn summary_plain_when_all_connected() {
    let msg = summary_message("10.0.0", 1, &["10.0.0.5".into()], &[], &[]);
    assert_eq!(msg, "Scanned 10.0.0.x — found 1 device, connected 1.");
}

#[test]
fn summary_has_all_its_parts() {
    assert_eq!(
        summary_message("10.0.0", 0, &[], &[], &["ignored".into()]),
        "No devices on 10.0.0.x answered on the ADB port. Make sure Network Debugging is enabled \
         on your TV, or use Connect IP for newer Google TVs that need PIN pairing first."
    );
    assert_eq!(
        summary_message(
            "10.0.0",
            12,
            &["a".into(), "b".into()],
            &["c".into()],
            &["d:1".into(), "e:2".into()]
        ),
        "Scanned 10.0.0.x — found 12 devices, connected 2. 1 needs authorization — accept the \
         \"Allow USB debugging?\" prompt on the TV, then Refresh. 2 waiting to be paired — on the \
         TV open Wireless debugging → Pair device with pairing code, then use Pair PIN with d:1, \
         e:2."
    );
}

#[test]
fn case_does_not_matter_in_what_adb_prints() {
    assert_eq!(
        classify_connect_output("CONNECTED TO 10.0.0.1:5555"),
        ConnectOutcome::Connected
    );
    assert_eq!(
        classify_connect_output("Failed To Authenticate"),
        ConnectOutcome::Unauthorized
    );
    assert_eq!(
        classify_connect_output("Connected to x, but CANNOT stay"),
        ConnectOutcome::Failed
    );
}

#[test]
fn an_error_counts_as_a_failed_attempt() {
    let said = |stdout: &str, stderr: &str| {
        Ok(AdbOutput {
            stdout: stdout.to_string(),
            stderr: stderr.to_string(),
            exit_code: Some(0),
        })
    };
    assert_eq!(attempt_outcome(&said("connected to x", "")), ConnectOutcome::Connected);
    assert_eq!(
        attempt_outcome(&said("connected to x", "failed")),
        ConnectOutcome::Failed
    );
    assert_eq!(
        attempt_outcome(&said("", "failed to authenticate")),
        ConnectOutcome::Unauthorized
    );
    assert_eq!(
        attempt_outcome(&Err(AdbError::Timeout { seconds: 30 })),
        ConnectOutcome::Failed
    );
}

#[test]
fn a_scan_needs_a_network() {
    match start_scan(None) {
        ScanStart::Finished(result) => {
            assert_eq!(result.subnet, None);
            assert!(result.found.is_empty());
            assert_eq!(
                result.message,
                "Could not detect default gateway. Set SHIELD_OPTIMIZER_SUBNET=\"a.b.c\" to \
                 override, or use Connect IP."
            );
        }
        other => panic!("{other:?}"),
    }
    match start_scan(Some([192, 168, 0])) {
        ScanStart::Sweep(subnet) => assert_eq!(subnet, "192.168.0"),
        other => panic!("{other:?}"),
    }
}

#[test]
fn a_failure_is_tried_again_once_and_nothing_else_is() {
    let swept: Vec<String> = ["10.0.0.1", "10.0.0.2", "10.0.0.3", "10.0.0.4"]
        .map(String::from)
        .to_vec();
    let services = [service("p", MDNS_SERVICE_PAIRING, "10.0.0.9", 37000)];
    let replies = [
        ("10.0.0.1:5555", 0, ConnectOutcome::Connected),
        ("10.0.0.2:5555", 0, ConnectOutcome::Failed),
        ("10.0.0.2:5555", 400, ConnectOutcome::Connected),
        ("10.0.0.3:5555", 0, ConnectOutcome::Failed),
        ("10.0.0.3:5555", 400, ConnectOutcome::Failed),
        ("10.0.0.4:5555", 0, ConnectOutcome::Unauthorized),
    ];
    let mut action = begin_connecting("10.0.0".to_string(), &swept, &services);
    for (address, delay, outcome) in replies {
        let ScanAction::Connect(run) = action else {
            panic!("the scan ended early");
        };
        assert_eq!(run.target(), address);
        assert_eq!(run.delay_ms(), delay);
        action = continue_scan(run, outcome);
    }
    let ScanAction::Finished(result) = action else {
        panic!("the scan goes on");
    };
    assert_eq!(result.subnet.as_deref(), Some("10.0.0"));
    assert_eq!(
        result.found,
        [
            "10.0.0.1:5555",
            "10.0.0.2:5555",
            "10.0.0.3:5555",
            "10.0.0.4:5555",
            "10.0.0.9:37000"
        ]
    );
    assert_eq!(result.connected, ["10.0.0.1:5555", "10.0.0.2:5555"]);
    assert_eq!(result.unauthorized, ["10.0.0.4:5555"]);
    assert_eq!(result.failed, ["10.0.0.3:5555"]);
    assert_eq!(result.needs_pairing, ["10.0.0.9:37000"]);
    assert_eq!(
        result.message,
        "Scanned 10.0.0.x — found 5 devices, connected 2. 1 needs authorization — accept the \
         \"Allow USB debugging?\" prompt on the TV, then Refresh. 1 waiting to be paired — on the \
         TV open Wireless debugging → Pair device with pairing code, then use Pair PIN with \
         10.0.0.9:37000."
    );
    assert_eq!(
        result.found.len(),
        result.connected.len()
            + result.unauthorized.len()
            + result.failed.len()
            + result.needs_pairing.len()
    );
}

#[test]
fn a_scan_without_targets_is_over_at_once() {
    let ScanAction::Finished(result) = begin_connecting("10.0.0".to_string(), &[], &[]) else {
        panic!("there is nothing to connect to");
    };
    assert!(result.found.is_empty());
    assert!(result.message.starts_with("No devices on 10.0.0.x"));
}

#[test]
fn the_classic_port_is_tried_where_it_is_advertised() {
    let services = [
        service("a", MDNS_SERVICE_LEGACY, "10.0.0.1", 5555),
        service("a", MDNS_SERVICE_CONNECT, "10.0.0.1", 40000),
        service("a", "_other._tcp", "10.0.0.2", 1),
        service("b", MDNS_SERVICE_PAIRING, "10.0.0.1", 37000),
        service("b", MDNS_SERVICE_PAIRING, "10.0.0.3", 37000),
        service("b", MDNS_SERVICE_PAIRING, "10.0.0.3", 37000),
    ];
    let swept: Vec<String> = ["10.0.0.1", "10.0.0.2", "10.0.0.2"].map(String::from).to_vec();
    let targets = merge_scan_targets(&swept, &services);
    assert_eq!(
        targets.connect,
        ["10.0.0.1:5555", "10.0.0.1:40000", "10.0.0.2:5555"]
    );
    assert_eq!(targets.needs_pairing, ["10.0.0.3:37000"]);
}
