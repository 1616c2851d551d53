//! The free-form shell runner, and the guard in front of it.
//!
//! Every command passes the guard before it reaches the device. What the guard knows of a
//! command comes from the list of protected packages; it catches accidents, and is no
//! boundary against someone who wants to get around it.

use vstd::prelude::*;
use vstd::string::StringExecFns;

use crate::text::{opt_text, trim, trimmed};

verus! {

/// How a shell command came to its end.
#[derive(Debug, Clone, PartialEq, Eq)]
pub enum ShellTermination {
    Completed,
    /// The driver stopped it, for the reason that it gives.
    Stopped(String),
}

/// The result of one shell command. Both streams are there, because the tools on the
/// device split their output across them inconsistently.
#[derive(Debug, Clone, PartialEq, Eq)]
pub struct ShellRunResult {
    pub stdout: String,
    pub stderr: String,
    pub exit_code: Option<i32>,
    pub termination: ShellTermination,
    /// The guard refused to run this. Nothing was sent to the device.
    pub blocked: bool,
    /// Why it was refused, where it was.
    pub blocked_reason: Option<String>,
}

/// What the driver gives back of a command that it ran.
#[derive(Debug, Clone, PartialEq, Eq)]
pub struct BoundedShellOutput {
    pub stdout: String,
    pub stderr: String,
    pub exit_code: Option<i32>,
    pub termination: ShellTermination,
}

/// A protected package that a command could damage, and why it is protected.
#[derive(Debug, Clone, PartialEq, Eq)]
pub struct ProtectedHit {
    pub package: String,
    pub reason: String,
}

/// What is to be done about a command.
#[derive(Debug, Clone, PartialEq, Eq)]
pub enum ShellStep {
    /// Nothing is sent; this is the result.
    Refuse(ShellRunResult),
    /// This text goes to the shell of the device.
    Send(String),
}

/// Why a command is refused.
pub open spec fn refusal(hit: ProtectedHit) -> Seq<char> {
    "Refused: this command could damage "@ + hit.package@
        + ", which is on the do-not-disable list. "@ + hit.reason@
}

/// The result of a command that was refused.
pub open spec fn is_refusal(result: ShellRunResult, hit: ProtectedHit) -> bool {
    &&& result.blocked
    &&& opt_text(result.blocked_reason) == Some(refusal(hit))
    &&& result.stdout@.len() == 0
    &&& result.stderr@.len() == 0
    &&& result.exit_code is None
    &&& result.termination is Completed
}

/// The text of a command that goes to the guard, without the white space around it. A blank
/// command is an error.
pub fn start_shell(command: &str) -> (r: Result<String, String>)
    ensures
        match r {
            Ok(text) => trimmed(command@).len() > 0 && text@ == trimmed(command@),
            Err(message) => trimmed(command@).len() == 0 && message@
                == "Enter a command to run."@,
        },
{
    let text = trim(command);
    if text.is_empty() {
        Err("Enter a command to run.".to_owned())
    } else {
        Ok(text.to_owned())
    }
}

/// The guard: a command that could damage a protected package is refused whole, and any
/// other goes to the device as it is.
pub fn guard_shell(text: String, protected: Option<ProtectedHit>) -> (r: ShellStep)
    ensures
        match protected {
            Some(hit) => r matches ShellStep::Refuse(result) && is_refusal(result, hit),
            None => r == ShellStep::Send(text),
        },
{
    match protected {
        Some(hit) => {
            let mut reason = "Refused: this command could damage ".to_owned();
            reason.append(hit.package.as_str());
            reason.append(", which is on the do-not-disable list. ");
            reason.append(hit.reason.as_str());
            ShellStep::Refuse(
                ShellRunResult {
                    stdout: String::new(),
                    stderr: String::new(),
                    exit_code: None,
                    termination: ShellTermination::Completed,
                    blocked: true,
                    blocked_reason: Some(reason),
                },
            )
        },
        None => ShellStep::Send(text),
    }
}

/// The result of a command that was sent.
pub fn shell_result(out: BoundedShellOutput) -> (r: ShellRunResult)
    ensures
        r == (ShellRunResult {
            stdout: out.stdout,
            stderr: out.stderr,
            exit_code: out.exit_code,
            termination: out.termination,
            blocked: false,
            blocked_reason: None,
        }),
{
    ShellRunResult {
        stdout: out.stdout,
        stderr: out.stderr,
        exit_code: out.exit_code,
        termination: out.termination,
        blocked: false,
        blocked_reason: None,
    }
}

/// A refused command is told with the package and the reason, reached nothing, and gave
/// nothing; that it was refused is said in two ways.
pub proof fn a_refused_command_gives_nothing(result: ShellRunResult, hit: ProtectedHit)
    requires
        is_refusal(result, hit),
    ensures
        result.blocked,
        result.blocked_reason is Some,
        result.blocked_reason->Some_0@ == "Refused: this command could damage "@ + hit.package@
            + ", which is on the do-not-disable list. "@ + hit.reason@,
        result.stdout@ == Seq::<char>::empty(),
        result.stderr@ == Seq::<char>::empty(),
        result.exit_code is None,
        result.termination is Completed,
{
}

} // verus!
