use shield_optimizer::address::{
    is_bracketed_ipv6, is_ip_port, is_ipv4, is_mdns_instance, normalize_connect_address,
    normalize_pairing_address,
};

#[test]
fn normalize_accepts_an_mdns_service_name_from_discovery() {
    let instance = "adb-58040DLCH005YV-jBeCEe._adb-tls-connect._tcp";
    assert_eq!(
        normalize_connect_address(&format!("{instance}:41541")).unwrap(),
        format!("{instance}:41541")
    );
    assert_eq!(
        normalize_connect_address(instance).unwrap(),
        format!("{instance}:5555")
    );
}

#[test]
fn normalize_keeps_a_bracketed_ipv6_host_whole() {
    assert_eq!(
        normalize_connect_address("[fe80::1c2d:3e4f]:41541").unwrap(),
        "[fe80::1c2d:3e4f]:41541"
    );
    assert_eq!(normalize_connect_address("[::1]").unwrap(), "[::1]:5555");
}

#[test]
fn normalize_still_rejects_things_that_are_not_endpoints() {
    for bad in [
        "not-a-host:5555",
        "192.168.1:5555",
        "192.168.1.300:5555",
        "[fe80::zz]:5555",
        "[fe80::1",
        "[fe80::1]5555",
        ":5555",
        "192.168.1.5:0",
        "192.168.1.5:port",
    ] {
        assert!(
            normalize_connect_address(bad).is_err(),
            "{bad} should not be accepted"
        );
    }
}

#[test]
fn normalize_accepts_bare_ip() {
    assert_eq!(
        normalize_connect_address("192.168.42.71").unwrap(),
        "192.168.42.71:5555"
    );
}

#[test]
fn normalize_accepts_ip_and_port() {
    assert_eq!(
        normalize_connect_address("10.0.0.1:5556").unwrap(),
        "10.0.0.1:5556"
    );
}

#[test]
fn pairing_address_requires_the_tv_supplied_port() {
    assert_eq!(
        normalize_pairing_address("192.168.42.71").unwrap_err(),
        "pairing address must include the port shown on the TV"
    );
    assert_eq!(
        normalize_pairing_address("192.168.42.71:43219").unwrap(),
        "192.168.42.71:43219"
    );
}

#[test]
fn normalize_trims_whitespace() {
    assert_eq!(
        normalize_connect_address("  192.168.1.1  ").unwrap(),
        "192.168.1.1:5555"
    );
}

#[test]
fn normalize_rejects_empty() {
    assert!(normalize_connect_address("").is_err());
    assert!(normalize_connect_address("   ").is_err());
}

#[test]
fn normalize_rejects_non_ipv4() {
    assert!(normalize_connect_address("foo.bar.baz").is_err());
    assert!(normalize_connect_address("192.168.1").is_err());
    assert!(normalize_connect_address("192.168.1.1.1").is_err());
    assert!(normalize_connect_address("999.999.999.999").is_err());
}

#[test]
fn normalize_rejects_bad_port() {
    assert!(normalize_connect_address("192.168.1.1:0").is_err());
    assert!(normalize_connect_address("192.168.1.1:abc").is_err());
    assert!(normalize_connect_address("192.168.1.1:99999").is_err());
}

#[test]
fn a_usb_serial_is_never_displaced_by_an_address() {
    assert!(!is_ip_port("0323220012345"));
    assert!(!is_ip_port(
        "adb-58040DLCH005YV-jBeCEe._adb-tls-connect._tcp"
    ));
    assert!(is_ip_port("192.168.42.211:34083"));
    assert!(!is_ip_port("192.168.42.211"));
    assert!(!is_ip_port("192.168.42:5555"));
}

#[test]
fn each_refusal_says_what_is_wrong() {
    let refused = |address: &str| normalize_connect_address(address).unwrap_err();
    assert_eq!(refused("\t \n"), "address is empty");
    assert_eq!(refused("[::1]5555"), "expected [IPv6]:port, got [::1]5555");
    assert_eq!(refused("[::1"), "unterminated IPv6 address: [::1");
    assert_eq!(refused(":5555"), "address is missing a host");
    assert_eq!(
        refused("tv.local:5555"),
        "not an IP address or mDNS service name: tv.local. Enter the IP and port shown on the TV's Wireless debugging screen."
    );
    assert_eq!(refused("10.0.0.1:0"), "port must be 1-65535, got 0");
    assert_eq!(refused("10.0.0.1:65536"), "invalid port: 65536");
    assert_eq!(refused("10.0.0.1:"), "invalid port: ");
}

#[test]
fn the_port_is_kept_as_it_was_typed() {
    assert_eq!(
        normalize_connect_address("10.0.0.1:+0080").unwrap(),
        "10.0.0.1:+0080"
    );
    assert_eq!(
        normalize_connect_address("+10.00.0.1:65535").unwrap(),
        "+10.00.0.1:65535"
    );
}

#[test]
fn a_normalized_address_is_accepted_as_it_is() {
    for address in [
        " 10.0.0.1 ",
        "[::1]",
        "[fe80::1]:4242",
        "adb-X-Y._adb-tls-connect._tcp",
        "10.0.0.1:+7",
    ] {
        let once = normalize_connect_address(address).unwrap();
        assert_eq!(normalize_connect_address(&once).unwrap(), once);
        assert_eq!(normalize_pairing_address(&once).unwrap(), once);
    }
}

#[test]
fn a_pairing_address_has_a_port_of_its_own() {
    assert_eq!(
        normalize_pairing_address(" 10.0.0.1:37199 ").unwrap(),
        "10.0.0.1:37199"
    );
    assert_eq!(
        normalize_pairing_address(" [fe80::1]:37199").unwrap(),
        "[fe80::1]:37199"
    );
    for address in ["10.0.0.1", "[fe80::1]", " [::1] ", "adb-x._adb._tcp", "[x]", "[", ""] {
        assert_eq!(
            normalize_pairing_address(address).unwrap_err(),
            "pairing address must include the port shown on the TV"
        );
    }
    assert_eq!(
        normalize_pairing_address("[fe80::1").unwrap_err(),
        "unterminated IPv6 address: [fe80::1"
    );
    assert_eq!(
        normalize_pairing_address("[fe80::1]37199").unwrap_err(),
        "expected [IPv6]:port, got [fe80::1]37199"
    );
    assert_eq!(
        normalize_pairing_address("[fe80::1]:").unwrap_err(),
        "invalid port: "
    );
}

#[test]
fn hosts_are_told_apart() {
    assert!(is_ipv4("0.0.0.0") && is_ipv4("255.255.255.255") && is_ipv4("+1.002.3.4"));
    assert!(!is_ipv4("256.1.1.1") && !is_ipv4("1.1.1") && !is_ipv4("1.1.1.1.") && !is_ipv4(""));
    assert!(is_mdns_instance("adb-x._adb._tcp"));
    assert!(!is_mdns_instance("x._adb._tcp") && !is_mdns_instance("adb-x"));
}

#[test]
fn bracketed_ipv6_literals_are_read_whole() {
    for good in [
        "::",
        "::1",
        "1::",
        "fe80::1c2d:3e4f",
        "1:2:3:4:5:6:7:8",
        "1:2:3:4:5:6:7::",
        "::2:3:4:5:6:7:8",
        "1::8",
        "::ffff:192.168.1.1",
        "1:2:3:4:5:6:1.2.3.4",
        "::1.2.3.4",
        "1::1.2.3.4",
        "ABCD:ef01::",
        "0000::0001",
    ] {
        assert!(is_bracketed_ipv6(&format!("[{good}]")), "{good}");
    }
    for bad in [
        "",
        ":",
        ":::",
        "1",
        "1:2:3:4:5:6:7",
        "1:2:3:4:5:6:7:8:9",
        "1::2::3",
        "12345::",
        "g::",
        "1:2:3:4:5:6:7:1.2.3.4",
        "::1.2.3",
        "::1.2.3.256",
        "::01.2.3.4",
        "::1.2.3.4:5",
        "1.2.3.4::",
        "fe80::1%eth0",
        " ::1",
        "::1 ",
        "1:2:3:4:5:6:7:8::",
        "::1:2:3:4:5:6:7:8",
        "+1::",
    ] {
        assert!(!is_bracketed_ipv6(&format!("[{bad}]")), "{bad}");
    }
    assert!(!is_bracketed_ipv6("::1"));
    assert!(!is_bracketed_ipv6("[::1"));
    assert!(!is_bracketed_ipv6("::1]"));
}
