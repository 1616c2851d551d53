use shield_optimizer::adb::{
    binary_reply, text_reply, AdbError, AdbOutput, BinaryProcessEnd, ProcessEnd,
};
use shield_optimizer::connect::{
    connect_request, connect_result_from, disconnect_result, pair_result_from, pairing_request,
    validate_pairing_pin, PairingStep,
};
use shield_optimizer::rename::{
    continue_rename, quote_device_name, start_rename, ActionResult, RenameAction, RenameStage,
    ShellReply,
};
use shield_optimizer::shell::{
    guard_shell, shell_result, start_shell, BoundedShellOutput, ProtectedHit, ShellStep,
    ShellTermination,
};

fn output(stdout: &str, stderr: &str, exit_code: Option<i32>) -> AdbOutput {
    AdbOutput {
        stdout: stdout.to_string(),
        stderr: stderr.to_string(),
        exit_code,
    }
}

#[test]
fn output_success_check() {
    let ok = AdbOutput {
        stdout: String::new(),
        stderr: String::new(),
        exit_code: Some(0),
    };
    assert!(ok.success());

    let fail = AdbOutput {
        stdout: String::new(),
        stderr: "boom".into(),
        exit_code: Some(1),
    };
    assert!(!fail.success());
}

#[test]
fn missing_binary_returns_typed_error() {
    let result = text_reply(ProcessEnd::BinaryMissing {
        path: "/nonexistent/adb".to_string(),
    });
    match result {
        Err(AdbError::BinaryMissing { path }) => {
            assert!(path.contains("nonexistent"));
        }
        other => panic!("expected BinaryMissing, got {other:?}"),
    }
}

#[test]
fn a_failed_process_is_an_error_and_silence_is_not() {
    let exited = |stdout: &str, stderr: &str, exit_code, success| {
        text_reply(ProcessEnd::Exited {
            stdout: stdout.to_string(),
            stderr: stderr.to_string(),
            exit_code,
            success,
        })
    };
    assert_eq!(exited("", "", Some(0), true), Ok(output("", "", Some(0))));
    assert_eq!(
        exited("out", "err", Some(2), false),
        Err(AdbError::NonZeroExit { code: Some(2), stderr: "err".to_string() })
    );
    assert_eq!(
        exited("out", "", None, false),
        Err(AdbError::NonZeroExit { code: None, stderr: "out".to_string() })
    );
    assert_eq!(
        text_reply(ProcessEnd::TimedOut { seconds: 30 }),
        Err(AdbError::Timeout { seconds: 30 })
    );
    assert_eq!(
        binary_reply(BinaryProcessEnd::Exited {
            stdout: vec![1, 2],
            stderr: String::new(),
            exit_code: Some(0),
            success: true,
        }),
        Ok(vec![1, 2])
    );
    assert_eq!(
        binary_reply(BinaryProcessEnd::Exited {
            stdout: vec![1, 2],
            stderr: String::new(),
            exit_code: Some(1),
            success: false,
        }),
        Err(AdbError::NonZeroExit { code: Some(1), stderr: String::new() })
    );
    assert_eq!(
        binary_reply(BinaryProcessEnd::TimedOut { seconds: 5 }),
        Err(AdbError::Timeout { seconds: 5 })
    );
    assert_eq!(
        binary_reply(BinaryProcessEnd::BinaryMissing { path: "p".to_string() }),
        Err(AdbError::BinaryMissing { path: "p".to_string() })
    );
}

#[test]
fn successful_pair_establishes_trust_without_connecting_to_5555() {
    let sent = pairing_request("192.168.42.71:43219", "123456").unwrap();
    assert_eq!(
        sent,
        PairingStep::Send(vec![
            "pair".to_string(),
            "192.168.42.71:43219".to_string(),
            "123456".to_string()
        ])
    );
    let result = pair_result_from("Successfully paired to 192.168.42.71:43219\n");
    assert!(result.ok);
    assert_eq!(
        result.message,
        "Paired successfully. Pairing established trust; to connect, enter the separate IP:port shown on the TV's main Wireless debugging screen in Connect IP."
    );
}

#[test]
fn failed_pair_remains_a_failure_and_does_not_connect() {
    let result = pair_result_from("Failed: Wrong password\n");
    assert!(!result.ok);
    assert_eq!(result.message, "Failed: Wrong password");
}

#[test]
fn invalid_pairing_pin_fails_before_adb() {
    match pairing_request("192.168.42.71:43219", "12345a").unwrap() {
        PairingStep::Refuse(result) => {
            assert!(!result.ok);
            assert_eq!(result.message, "PIN must be exactly 6 digits.");
        }
        other => panic!("{other:?}"),
    }
}

#[test]
fn explicit_connection_port_is_used_instead_of_the_pairing_port() {
    assert_eq!(
        connect_request("192.168.42.71:37123").unwrap(),
        ["connect", "192.168.42.71:37123"]
    );
    let result = connect_result_from(&output("connected to 192.168.42.71:37123\n", "", Some(0)));
    assert!(result.ok);
    assert_eq!(result.message, "connected to 192.168.42.71:37123");
}

#[test]
fn an_unauthorized_device_is_connected_and_waits_for_the_user() {
    let result = connect_result_from(&output("", "FAILED to authenticate to x\n", Some(0)));
    assert!(result.ok);
    assert_eq!(
        result.message,
        "FAILED to authenticate to x — approve this computer on the TV, then refresh."
    );
    let result = connect_result_from(&output("failed to connect", "refused", Some(0)));
    assert!(!result.ok);
    assert_eq!(result.message, "failed to connect\nrefused");
    assert_eq!(connect_request("tv").unwrap_err().split(':').count(), 2);
}

#[test]
fn a_disconnect_shows_what_adb_printed() {
    let result = disconnect_result(output("disconnected x", "noise", Some(0)));
    assert!(result.ok);
    assert_eq!(result.message, "disconnected x");
    let result = disconnect_result(output("", "no such device", Some(1)));
    assert!(!result.ok);
    assert_eq!(result.message, "no such device");
}

#[test]
fn pins_are_six_digits() {
    assert!(validate_pairing_pin("000000").is_ok());
    for pin in ["", "12345", "1234567", "12345 ", "12345a", "١٢٣", "-12345"] {
        assert_eq!(
            validate_pairing_pin(pin).unwrap_err(),
            "PIN must be exactly 6 digits."
        );
    }
    assert!(pairing_request("192.168.42.71", "123456").is_err());
}

#[test]
fn device_name_quoting_and_validation() {
    assert_eq!(
        quote_device_name("Living Room Shield").unwrap(),
        "'Living Room Shield'"
    );
    assert_eq!(quote_device_name("Bryan's TV").unwrap(), r"'Bryan'\''s TV'");
    assert_eq!(quote_device_name("  Den  ").unwrap(), "'Den'");
    assert!(quote_device_name("").is_err());
    assert!(quote_device_name("   ").is_err());
    assert!(quote_device_name("naïve name").is_err());
    assert!(quote_device_name(&"x".repeat(65)).is_err());
}

#[test]
fn a_bad_device_name_is_refused_with_a_reason() {
    assert_eq!(quote_device_name(" ").unwrap_err(), "Device name is empty.");
    assert_eq!(
        quote_device_name(&"x".repeat(65)).unwrap_err(),
        "Device name too long (65 > 64 chars)."
    );
    assert_eq!(
        quote_device_name(&"é".repeat(33)).unwrap_err(),
        "Device name too long (66 > 64 chars)."
    );
    assert_eq!(
        quote_device_name("naïve name").unwrap_err(),
        "Unsupported character 'ï' — device names are limited to plain ASCII here."
    );
    assert_eq!(
        quote_device_name("a\tb").unwrap_err(),
        "Unsupported character '\\t' — device names are limited to plain ASCII here."
    );
    assert_eq!(
        quote_device_name(&"x".repeat(64)).unwrap(),
        format!("'{}'", "x".repeat(64))
    );
}

/// What a shell makes of one word of single quotes and backslashes.
fn shell_word(text: &str) -> String {
    let mut word = String::new();
    let mut quoted = false;
    let mut chars = text.chars();
    while let Some(c) = chars.next() {
        match c {
            '\'' => quoted = !quoted,
            '\\' if !quoted => word.extend(chars.next()),
            _ => word.push(c),
        }
    }
    assert!(!quoted);
    word
}

#[test]
fn a_quoted_name_is_one_word_to_the_shell() {
    for name in ["Den", "it's", "''", "a'b'c", "$HOME `x` \"y\" \\ ;", "\\'"] {
        assert_eq!(shell_word(&quote_device_name(name).unwrap()), name);
    }
}

fn reply(stdout: &str, combined: &str, failed: bool) -> ShellReply {
    ShellReply {
        stdout: stdout.to_string(),
        combined: combined.to_string(),
        failed,
    }
}

#[test]
fn a_rename_is_written_and_read_back() {
    assert_eq!(
        start_rename(" Bryan's TV "),
        RenameAction::Shell(
            RenameStage::Writing,
            r"settings put global device_name 'Bryan'\''s TV'".to_string()
        )
    );
    assert_eq!(
        start_rename("\u{7f}"),
        RenameAction::Finish(ActionResult {
            ok: false,
            message: "Unsupported character '\\u{7f}' — device names are limited to plain ASCII here."
                .to_string(),
        })
    );
    assert_eq!(
        continue_rename("Den", RenameStage::Writing, &reply("", "", false)),
        RenameAction::Shell(
            RenameStage::ReadingBack,
            "settings get global device_name".to_string()
        )
    );
    assert_eq!(
        continue_rename("Den", RenameStage::Writing, &reply("", " denied \n", true)),
        RenameAction::Finish(ActionResult { ok: false, message: "denied".to_string() })
    );
    assert_eq!(
        continue_rename(" Den", RenameStage::ReadingBack, &reply("Den\n", "Den\n", false)),
        RenameAction::Finish(ActionResult {
            ok: true,
            message: "Renamed to \"Den\". Cast / Google Home may take a while (or a reboot) to show the new name."
                .to_string(),
        })
    );
    assert_eq!(
        continue_rename("Den", RenameStage::ReadingBack, &reply("\"Old\"\n", "", false)),
        RenameAction::Finish(ActionResult {
            ok: false,
            message: "Device still reports device_name = \"\\\"Old\\\"\" after the write.".to_string(),
        })
    );
}

fn ran(stdout: &str) -> BoundedShellOutput {
    BoundedShellOutput {
        stdout: stdout.to_string(),
        stderr: String::new(),
        exit_code: Some(0),
        termination: ShellTermination::Completed,
    }
}

#[test]
fn runs_a_plain_command_and_returns_both_streams() {
    let text = start_shell("getprop ro.product.model").unwrap();
    assert_eq!(
        guard_shell(text, None),
        ShellStep::Send("getprop ro.product.model".to_string())
    );
    let r = shell_result(ran("SHIELD Android TV\n"));
    assert!(!r.blocked);
    assert_eq!(r.stdout.trim(), "SHIELD Android TV");
}

#[test]
fn a_blocked_command_never_reaches_the_device() {
    let text = start_shell("pm disable-user --user 0 com.android.systemui").unwrap();
    let hit = ProtectedHit {
        package: "com.android.systemui".to_string(),
        reason: "It draws the screen.".to_string(),
    };
    match guard_shell(text, Some(hit)) {
        ShellStep::Refuse(r) => {
            assert!(r.blocked);
            assert!(r
                .blocked_reason
                .as_ref()
                .unwrap()
                .contains("com.android.systemui"));
            assert!(r
                .blocked_reason
                .as_ref()
                .unwrap()
                .contains("do-not-disable"));
            assert_eq!(
                r.blocked_reason.unwrap(),
                "Refused: this command could damage com.android.systemui, which is on the do-not-disable list. It draws the screen."
            );
            assert_eq!(r.exit_code, None);
            assert!(r.stdout.is_empty() && r.stderr.is_empty());
        }
        ShellStep::Send(_) => panic!("a refused command must not be sent to the device"),
    }
}

#[test]
fn disabling_an_unprotected_package_is_allowed_through() {
    let text = start_shell("pm disable-user --user 0 com.facebook.katana").unwrap();
    assert_eq!(
        guard_shell(text, None),
        ShellStep::Send("pm disable-user --user 0 com.facebook.katana".to_string())
    );
    let r = shell_result(ran("Package ... new state: disabled-user\n"));
    assert!(!r.blocked);
    assert!(r.stdout.contains("disabled-user"));
}

#[test]
fn an_empty_command_is_rejected_before_the_driver() {
    assert!(start_shell("   ").is_err());
    assert_eq!(start_shell("").unwrap_err(), "Enter a command to run.");
    assert_eq!(start_shell(" id \n").unwrap(), "id");
}

#[test]
fn a_command_that_was_stopped_says_so() {
    let mut out = ran("partial");
    out.exit_code = None;
    out.stderr = "err".to_string();
    out.termination = ShellTermination::Stopped("too long".to_string());
    let r = shell_result(out);
    assert_eq!(r.termination, ShellTermination::Stopped("too long".to_string()));
    assert_eq!((r.exit_code, r.stderr.as_str()), (None, "err"));
    assert_eq!(r.blocked_reason, None);
}
