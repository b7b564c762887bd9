//! Assembly of execution results. Writing the transient script, spawning
//! the interpreter and capturing its streams happen outside the library;
//! the outcome of that attempt comes back here as a plain value, and this
//! module decides what the caller is told.

use vstd::prelude::*;
use vstd::string::StringExecFns;

verus! {

/// What happened when generated source was handed to the interpreter:
/// the script file could not be written, the interpreter could not be
/// spawned, or the interpreter ran to completion with an exit status and
/// captured streams (decoded leniently, so always available as text).
pub enum RunOutcome {
    WriteFailed(String),
    SpawnFailed(String),
    Finished { exit_ok: bool, stdout: String, stderr: String },
}

/// The outcome envelope returned to the caller of compile-and-run.
/// On success, `output` is the program's stdout and `error` is absent;
/// on any failure, `output` carries the generated source for diagnostics
/// and `error` says what went wrong.
pub struct ExecutionResult {
    pub success: bool,
    pub output: String,
    pub error: Option<String>,
}

/// The envelope's invariant: a successful result carries no error.
pub open spec fn result_wf(r: ExecutionResult) -> bool {
    r.success ==> r.error is None
}

/// Folds a run outcome into the result envelope. A script that ran and
/// failed is not an operation error: it becomes a result with
/// `success == false`, the interpreter's stderr as the error and the
/// generated source as the output. Infrastructure failures (write,
/// spawn) surface through the same channel under distinct messages.
pub fn execution_result(code: String, outcome: RunOutcome) -> (r: ExecutionResult)
    ensures
        result_wf(r),
        match outcome {
            RunOutcome::Finished { exit_ok, stdout, stderr } => if exit_ok {
                r.success && r.output@ == stdout@ && r.error is None
            } else {
                !r.success && r.output@ == code@ && (r.error matches Some(e) && e@ == stderr@)
            },
            RunOutcome::WriteFailed(m) => !r.success && r.output@ == code@ && (r.error matches Some(
                e,
            ) && e@ == "Failed to write Python file: "@ + m@),
            RunOutcome::SpawnFailed(m) => !r.success && r.output@ == code@ && (r.error matches Some(
                e,
            ) && e@ == "Failed to execute Python: "@ + m@),
        },
{
    match outcome {
        RunOutcome::Finished { exit_ok, stdout, stderr } => {
            if exit_ok {
                ExecutionResult { success: true, output: stdout, error: None }
            } else {
                ExecutionResult { success: false, output: code, error: Some(stderr) }
            }
        },
        RunOutcome::WriteFailed(m) => {
            let mut msg = String::from_str("Failed to write Python file: ");
            msg.append(m.as_str());
            ExecutionResult { success: false, output: code, error: Some(msg) }
        },
        RunOutcome::SpawnFailed(m) => {
            let mut msg = String::from_str("Failed to execute Python: ");
            msg.append(m.as_str());
            ExecutionResult { success: false, output: code, error: Some(msg) }
        },
    }
}

} // verus!
