//! What a finished adb process said, and which of it is an error.

use vstd::prelude::*;

verus! {

/// The output of an adb process that ended.
#[derive(Debug, Clone, PartialEq, Eq)]
pub struct AdbOutput {
    pub stdout: String,
    pub stderr: String,
    pub exit_code: Option<i32>,
}

impl AdbOutput {
    /// Whether the process exited with code 0.
    pub open spec fn succeeded(self) -> bool {
        self.exit_code == Some(0i32)
    }

    /// Whether the process exited with code 0.
    pub fn success(&self) -> (r: bool)
        ensures
            r == self.succeeded(),
    {
        match self.exit_code {
            Some(code) => code == 0,
            None => false,
        }
    }
}

/// Why a call of adb gave no output.
#[derive(Debug, Clone, PartialEq, Eq)]
pub enum AdbError {
    /// There is no adb binary at the path.
    BinaryMissing { path: String },
    /// The process did not end in time and was killed.
    Timeout { seconds: u64 },
    /// The process reported a failure.
    NonZeroExit { code: Option<i32>, stderr: String },
}

/// What became of one run of the adb binary.
#[derive(Debug, Clone, PartialEq, Eq)]
pub enum ProcessEnd {
    BinaryMissing { path: String },
    TimedOut { seconds: u64 },
    Exited { stdout: String, stderr: String, exit_code: Option<i32>, success: bool },
}

/// What is shown of a failed process: its error stream, or its output where that is empty.
pub open spec fn failure_text(stdout: Seq<char>, stderr: Seq<char>) -> Seq<char> {
    if stderr.len() == 0 {
        stdout
    } else {
        stderr
    }
}

/// The outcome of a text call of adb. A process that failed is an error rather than an
/// empty reply: no output with exit code 0 is a legitimate answer to many queries.
pub fn text_reply(end: ProcessEnd) -> (r: Result<AdbOutput, AdbError>)
    ensures
        match end {
            ProcessEnd::BinaryMissing { path } => r == Err::<AdbOutput, AdbError>(
                AdbError::BinaryMissing { path },
            ),
            ProcessEnd::TimedOut { seconds } => r == Err::<AdbOutput, AdbError>(
                AdbError::Timeout { seconds },
            ),
            ProcessEnd::Exited { stdout, stderr, exit_code, success } => if success {
                r == Ok::<AdbOutput, AdbError>(AdbOutput { stdout, stderr, exit_code })
            } else {
                r matches Err(AdbError::NonZeroExit { code, stderr: shown }) && code == exit_code
                    && shown@ == failure_text(stdout@, stderr@)
            },
        },
{
    match end {
        ProcessEnd::BinaryMissing { path } => Err(AdbError::BinaryMissing { path }),
        ProcessEnd::TimedOut { seconds } => Err(AdbError::Timeout { seconds }),
        ProcessEnd::Exited { stdout, stderr, exit_code, success } => {
            if success {
                Ok(AdbOutput { stdout, stderr, exit_code })
            } else if stderr.as_str().is_empty() {
                Err(AdbError::NonZeroExit { code: exit_code, stderr: stdout })
            } else {
                Err(AdbError::NonZeroExit { code: exit_code, stderr })
            }
        },
    }
}

/// What became of one run of the adb binary whose output is binary data.
#[derive(Debug, Clone, PartialEq, Eq)]
pub enum BinaryProcessEnd {
    BinaryMissing { path: String },
    TimedOut { seconds: u64 },
    Exited { stdout: Vec<u8>, stderr: String, exit_code: Option<i32>, success: bool },
}

/// The outcome of a call of adb whose output is binary data.
pub fn binary_reply(end: BinaryProcessEnd) -> (r: Result<Vec<u8>, AdbError>)
    ensures
        match end {
            BinaryProcessEnd::BinaryMissing { path } => r == Err::<Vec<u8>, AdbError>(
                AdbError::BinaryMissing { path },
            ),
            BinaryProcessEnd::TimedOut { seconds } => r == Err::<Vec<u8>, AdbError>(
                AdbError::Timeout { seconds },
            ),
            BinaryProcessEnd::Exited { stdout, stderr, exit_code, success } => if success {
                r == Ok::<Vec<u8>, AdbError>(stdout)
            } else {
                r == Err::<Vec<u8>, AdbError>(AdbError::NonZeroExit { code: exit_code, stderr })
            },
        },
{
    match end {
        BinaryProcessEnd::BinaryMissing { path } => Err(AdbError::BinaryMissing { path }),
        BinaryProcessEnd::TimedOut { seconds } => Err(AdbError::Timeout { seconds }),
        BinaryProcessEnd::Exited { stdout, stderr, exit_code, success } => {
            if success {
                Ok(stdout)
            } else {
                Err(AdbError::NonZeroExit { code: exit_code, stderr })
            }
        },
    }
}

/// A process succeeded if and only if it exited with code 0, and one that ended without a code
/// did not. What is shown of a failed one is its error stream, and its output only where that
/// is empty.
pub proof fn a_process_is_judged_by_its_exit_code(
    out: AdbOutput,
    stdout: Seq<char>,
    stderr: Seq<char>,
)
    ensures
        out.succeeded() <==> out.exit_code is Some && out.exit_code->Some_0 == 0,
        stderr.len() > 0 ==> failure_text(stdout, stderr) == stderr,
        stderr.len() == 0 ==> failure_text(stdout, stderr) == stdout,
{
}

} // verus!
