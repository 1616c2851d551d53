//! Connecting to a device, pairing with it, and disconnecting from it.

use vstd::prelude::*;

use crate::adb::AdbOutput;
use crate::address::{
    connect_address, normalize_connect_address, normalize_pairing_address, pairing_address,
};
use crate::text::{
    a_text_stands_where_its_characters_do, all_ascii, all_digits, ascii_lowered, chars_of, concat2,
    concat3, contains_text, holds_text, is_digit, lowered, stands_at, texts, to_lower, trim, trimmed,
};

verus! {

/// What the UI shows of a connect, a pairing or a disconnect.
#[derive(Debug, Clone, PartialEq, Eq)]
pub struct ConnectResult {
    pub ok: bool,
    pub message: String,
}

/// What `adb connect` achieved.
#[derive(Debug, Clone, Copy, PartialEq, Eq, Structural)]
pub enum ConnectOutcome {
    Connected,
    /// The device is reachable but has not approved the key of this host. It is in
    /// `adb devices` as `unauthorized`, so this is waiting for the user, not a failure, and
    /// trying again does not help.
    Unauthorized,
    Failed,
}

// ---------------------------------------------------------------------------
// Connecting.
// ---------------------------------------------------------------------------

/// What the output of `adb connect`, in lower case, says of the outcome.
pub open spec fn outcome_of(lower: Seq<char>) -> ConnectOutcome {
    if holds_text(lower, "failed to authenticate"@) {
        ConnectOutcome::Unauthorized
    } else if holds_text(lower, "connected to"@) && !holds_text(lower, "failed"@) && !holds_text(
        lower,
        "cannot"@,
    ) {
        ConnectOutcome::Connected
    } else {
        ConnectOutcome::Failed
    }
}

/// Classifies the output of `adb connect` that is in lower case already.
pub fn classify_lowered(lower: &str) -> (r: ConnectOutcome)
    ensures
        r == outcome_of(lower@),
{
    if contains_text(lower, "failed to authenticate") {
        ConnectOutcome::Unauthorized
    } else if contains_text(lower, "connected to") && !contains_text(lower, "failed")
        && !contains_text(lower, "cannot") {
        ConnectOutcome::Connected
    } else {
        ConnectOutcome::Failed
    }
}

/// Classifies the output of `adb connect`. The text decides rather than the exit code:
/// adb exits with 0 even where it failed to authenticate or to connect.
pub fn classify_connect_output(combined: &str) -> (r: ConnectOutcome)
    ensures
        r == outcome_of(lowered(combined@)),
        all_ascii(combined@) ==> r == outcome_of(ascii_lowered(combined@)),
{
    let lower = to_lower(combined);
    classify_lowered(lower.as_str())
}

/// Both streams of the output, one after the other.
pub open spec fn both_streams(out: AdbOutput) -> Seq<char> {
    out.stdout@ + "\n"@ + out.stderr@
}

/// What the UI shows of a connect whose trimmed output is `combined`.
pub open spec fn connect_message(combined: Seq<char>, outcome: ConnectOutcome) -> Seq<char> {
    if outcome == ConnectOutcome::Unauthorized {
        combined + " — approve this computer on the TV, then refresh."@
    } else {
        combined
    }
}

/// The result of a connect, of its trimmed output and its outcome. Unauthorized counts as
/// success: the device is connected and waits for the user to approve this computer.
pub fn connect_result_for(combined: &str, outcome: ConnectOutcome) -> (r: ConnectResult)
    ensures
        r.ok == (outcome != ConnectOutcome::Failed),
        r.message@ == connect_message(combined@, outcome),
{
    ConnectResult {
        ok: outcome != ConnectOutcome::Failed,
        message: if outcome == ConnectOutcome::Unauthorized {
            concat2(combined, " — approve this computer on the TV, then refresh.")
        } else {
            combined.to_owned()
        },
    }
}

/// The result of a connect, of what adb printed.
pub fn connect_result_from(out: &AdbOutput) -> (r: ConnectResult)
    ensures
        ({
            let combined = trimmed(both_streams(*out));
            let outcome = outcome_of(lowered(combined));
            &&& r.ok == (outcome != ConnectOutcome::Failed)
            &&& r.message@ == connect_message(combined, outcome)
            &&& all_ascii(combined) ==> outcome == outcome_of(ascii_lowered(combined))
        }),
{
    let both = concat3(out.stdout.as_str(), "\n", out.stderr.as_str());
    let combined = trim(both.as_str());
    let outcome = classify_connect_output(combined);
    connect_result_for(combined, outcome)
}

/// The arguments of adb that connect to an address, or what is wrong with the address.
pub fn connect_request(address: &str) -> (r: Result<Vec<String>, String>)
    ensures
        match (r, connect_address(address@)) {
            (Ok(args), Ok(target)) => texts(args@) == seq!["connect"@, target],
            (Err(message), Err(expected)) => message@ == expected,
            _ => false,
        },
{
    match normalize_connect_address(address) {
        Ok(target) => {
            let mut args: Vec<String> = Vec::new();
            args.push("connect".to_owned());
            args.push(target);
            proof {
                assert(texts(args@) =~= seq!["connect"@, target@]);
            }
            Ok(args)
        },
        Err(message) => Err(message),
    }
}

/// The result of a disconnect.
pub fn disconnect_result(out: AdbOutput) -> (r: ConnectResult)
    ensures
        r.ok == out.succeeded(),
        r.message == (if out.stdout@.len() == 0 {
            out.stderr
        } else {
            out.stdout
        }),
{
    let ok = out.success();
    ConnectResult {
        ok,
        message: if out.stdout.as_str().is_empty() {
            out.stderr
        } else {
            out.stdout
        },
    }
}

// ---------------------------------------------------------------------------
// Pairing.
// ---------------------------------------------------------------------------

/// A pairing PIN is six ASCII digits.
pub open spec fn valid_pin(pin: Seq<char>) -> bool {
    pin.len() == 6 && all_digits(pin)
}

/// Validates a wireless-debugging pairing PIN. The message is shown to the user as it is.
pub fn validate_pairing_pin(pin: &str) -> (r: Result<(), String>)
    ensures
        r is Ok <==> valid_pin(pin@),
        r matches Err(message) ==> message@ == "PIN must be exactly 6 digits."@,
{
    let chars = chars_of(pin);
    let mut valid: bool = chars.len() == 6;
    let mut i: usize = 0;
    while i < chars.len()
        invariant
            chars@ == pin@,
            i <= chars@.len(),
            valid == (chars@.len() == 6 && forall|j: int|
                0 <= j < i ==> is_digit(#[trigger] pin@[j])),
        decreases chars@.len() - i,
    {
        let c: char = chars[i];
        if !('0' <= c && c <= '9') {
            proof {
                assert(!is_digit(pin@[i as int]));
            }
            valid = false;
        }
        i = i + 1;
    }
    if valid {
        Ok(())
    } else {
        Err("PIN must be exactly 6 digits.".to_owned())
    }
}

/// What is to be done about a pairing.
#[derive(Debug, Clone, PartialEq, Eq)]
pub enum PairingStep {
    /// Nothing is sent; this is the result.
    Refuse(ConnectResult),
    /// adb is called with these arguments.
    Send(Vec<String>),
}

/// What is to be done about a pairing that the user asked for. A bad PIN is a result, a bad
/// address an error; neither reaches adb. Pairing never connects: that is a separate step
/// with the port of the main wireless-debugging screen.
pub fn pairing_request(pair_address: &str, pin: &str) -> (r: Result<PairingStep, String>)
    ensures
        !valid_pin(pin@) ==> (r matches Ok(PairingStep::Refuse(result)) && !result.ok
            && result.message@ == "PIN must be exactly 6 digits."@),
        valid_pin(pin@) ==> match pairing_address(pair_address@) {
            Ok(target) => r matches Ok(PairingStep::Send(args)) && texts(args@) == seq![
                "pair"@,
                target,
                pin@,
            ],
            Err(expected) => r matches Err(message) && message@ == expected,
        },
{
    match validate_pairing_pin(pin) {
        Err(message) => Ok(PairingStep::Refuse(ConnectResult { ok: false, message })),
        Ok(()) => match normalize_pairing_address(pair_address) {
            Err(message) => Err(message),
            Ok(target) => {
                let mut args: Vec<String> = Vec::new();
                args.push("pair".to_owned());
                args.push(target);
                args.push(pin.to_owned());
                proof {
                    assert(texts(args@) =~= seq!["pair"@, target@, pin@]);
                }
                Ok(PairingStep::Send(args))
            },
        },
    }
}

/// Whether the output of `adb pair`, in lower case, tells of success.
pub open spec fn paired(lower: Seq<char>) -> bool {
    holds_text(lower, "successfully paired"@)
}

/// The result of a pairing whose trimmed output is `combined`.
pub fn pair_result_for(combined: &str, success: bool) -> (r: ConnectResult)
    ensures
        r.ok == success,
        r.message@ == (if success {
            "Paired successfully. Pairing established trust; to connect, enter the separate IP:port shown on the TV's main Wireless debugging screen in Connect IP."@
        } else {
            combined@
        }),
{
    ConnectResult {
        ok: success,
        message: if success {
            "Paired successfully. Pairing established trust; to connect, enter the separate IP:port shown on the TV's main Wireless debugging screen in Connect IP.".to_owned()
        } else {
            combined.to_owned()
        },
    }
}

/// The result of a pairing, of what adb printed on both streams.
pub fn pair_result_from(combined: &str) -> (r: ConnectResult)
    ensures
        r.ok == paired(lowered(trimmed(combined@))),
        all_ascii(trimmed(combined@)) ==> r.ok == paired(ascii_lowered(trimmed(combined@))),
        r.message@ == (if r.ok {
            "Paired successfully. Pairing established trust; to connect, enter the separate IP:port shown on the TV's main Wireless debugging screen in Connect IP."@
        } else {
            trimmed(combined@)
        }),
{
    let combined = trim(combined);
    let lower = to_lower(combined);
    pair_result_for(combined, contains_text(lower.as_str(), "successfully paired"))
}

// ---------------------------------------------------------------------------
// Laws.
// ---------------------------------------------------------------------------

/// The text that adb printed decides what a connect achieved. That the device does not trust
/// this computer outweighs everything; a connection counts only where nothing failed beside it;
/// and what is neither is a failure.
pub proof fn the_text_tells_the_outcome(lower: Seq<char>)
    ensures
        outcome_of(lower) == ConnectOutcome::Unauthorized <==> holds_text(
            lower,
            "failed to authenticate"@,
        ),
        outcome_of(lower) == ConnectOutcome::Connected <==> holds_text(lower, "connected to"@)
            && !holds_text(lower, "failed"@) && !holds_text(lower, "cannot"@),
{
    reveal_strlit("failed to authenticate");
    reveal_strlit("failed");
    if holds_text(lower, "failed to authenticate"@) {
        let i = choose|i: int| stands_at(lower, "failed to authenticate"@, i);
        let long = "failed to authenticate"@;
        assert(lower.subrange(i, i + long.len()) == long);
        assert(long.take(6) =~= "failed"@);
        assert(lower.subrange(i, i + 6) =~= lower.subrange(i, i + long.len()).take(6));
        assert(stands_at(lower, "failed"@, i));
    }
}

/// A user reads what adb printed on both streams; only where the device has to approve this
/// computer is something added, which says so.
pub proof fn what_a_user_reads_of_a_connect(
    out: AdbOutput,
    combined: Seq<char>,
    outcome: ConnectOutcome,
)
    ensures
        both_streams(out) == out.stdout@.push('\n') + out.stderr@,
        outcome == ConnectOutcome::Unauthorized ==> connect_message(combined, outcome) == combined
            + " — approve this computer on the TV, then refresh."@,
        outcome != ConnectOutcome::Unauthorized ==> connect_message(combined, outcome) == combined,
{
    reveal_strlit("\n");
    assert(both_streams(out) =~= out.stdout@.push('\n') + out.stderr@);
}

/// A code for pairing is of six digits, no more and no less, and of nothing else.
pub proof fn a_code_is_six_digits(pin: Seq<char>)
    ensures
        valid_pin(pin) <==> pin.len() == 6 && forall|i: int|
            0 <= i < 6 ==> 48 <= (#[trigger] pin[i]) as int <= 57,
{
    if valid_pin(pin) {
        assert forall|i: int| 0 <= i < 6 implies 48 <= (#[trigger] pin[i]) as int <= 57 by {
            assert(is_digit(pin[i]));
        }
    }
}

/// A pairing succeeded if and only if adb says so in these words.
pub proof fn a_pairing_is_told_by_its_words(lower: Seq<char>)
    ensures
        paired(lower) <==> exists|front: Seq<char>, back: Seq<char>|
            lower == #[trigger] (front + "successfully paired"@ + back),
{
    a_text_stands_where_its_characters_do(lower, "successfully paired"@, 0);
}

} // verus!
