//! The bash tool that runs its commands itself.

use std::path::PathBuf;

use vstd::prelude::*;
use vstd::string::*;
use vstd::utf8::*;

use crate::path::path_bytes;
use crate::pty::{
    combine_output, combined_output, decoded_output, login_shell, shell_command, timed_out,
    timeout_message, RunOutcome, ShellCommand,
};
use crate::text::{decimal, utf8_lossy};
use crate::tool::{
    bash_definition, command_of, define_bash, json_of, requested_command, requested_timeout,
    timeout_of, ToolCall, ToolDefinition, ToolResult, ToolResultView,
};

verus! {

/// The time that a command gets where the call does not say, in seconds.
pub const DEFAULT_TIMEOUT_SECS: u64 = 30;

/// Executes shell commands inside the workspace.
pub struct BashTool {
    workspace_root: PathBuf,
}

/// The answer to a call once its command ended one way or another.
pub open spec fn bash_result(
    call_id: Seq<char>,
    timeout_secs: u64,
    outcome: RunOutcome,
) -> ToolResultView {
    match outcome {
        RunOutcome::TimedOut => ToolResultView {
            call_id,
            success: false,
            output: Seq::empty(),
            error: Some(timed_out(timeout_secs)),
        },
        RunOutcome::Failed(why) => ToolResultView {
            call_id,
            success: false,
            output: Seq::empty(),
            error: Some("Failed to execute bash command: "@ + why@),
        },
        RunOutcome::Exited { stdout, stderr, code } => ToolResultView {
            call_id,
            success: code == Some(0i32),
            output: combined_output(stdout@, stderr@),
            error: None,
        },
    }
}

impl BashTool {
    /// The workspace that commands run in.
    pub closed spec fn root(self) -> Seq<u8> {
        path_bytes(self.workspace_root)
    }

    pub fn new(workspace_root: PathBuf) -> (r: BashTool)
        ensures
            r.root() == path_bytes(workspace_root),
    {
        BashTool { workspace_root }
    }

    /// What the tool says of itself.
    pub fn definition(&self) -> (r: ToolDefinition)
        ensures
            r@ == bash_definition(
                "The shell command to execute"@,
                "Timeout in seconds (default: 30)"@,
            ),
    {
        define_bash(
            "The shell command to execute",
            "Timeout in seconds (default: 30)".to_owned(),
        )
    }

    /// The process that a call asks for.
    pub fn prepare(&self, call: &ToolCall) -> (r: ShellCommand)
        ensures
            r@ == login_shell(
                self.root(),
                requested_command(json_of(call.input)),
                requested_timeout(json_of(call.input), DEFAULT_TIMEOUT_SECS),
            ),
    {
        let command = command_of(call);
        let timeout_secs: u64 = timeout_of(call, DEFAULT_TIMEOUT_SECS);
        shell_command(&self.workspace_root, command.as_str(), timeout_secs)
    }

    /// The answer to a call once its process ended one way or another.
    pub fn execute(&self, call: &ToolCall, outcome: RunOutcome) -> (r: ToolResult)
        ensures
            r@ == bash_result(
                call.id@,
                requested_timeout(json_of(call.input), DEFAULT_TIMEOUT_SECS),
                outcome,
            ),
            outcome matches RunOutcome::Exited { stdout, stderr, .. } ==> valid_utf8(stdout@)
                && valid_utf8(stderr@) ==> r.output@ == decoded_output(stdout@, stderr@),
            r.success <==> outcome is Exited && outcome->code == Some(0i32),
            outcome matches RunOutcome::Exited { stdout, stderr, .. } ==> (r.output@.len() == 0
                <==> stdout@.len() == 0 && stderr@.len() == 0),
    {
        match outcome {
            RunOutcome::TimedOut => ToolResult {
                call_id: call.id.clone(),
                success: false,
                output: String::new(),
                error: Some(timeout_message(timeout_of(call, DEFAULT_TIMEOUT_SECS))),
            },
            RunOutcome::Failed(why) => ToolResult {
                call_id: call.id.clone(),
                success: false,
                output: String::new(),
                error: Some("Failed to execute bash command: ".to_owned().concat(why.as_str())),
            },
            RunOutcome::Exited { stdout, stderr, code } => {
                let success = match code {
                    Some(c) => c == 0,
                    None => false,
                };
                ToolResult {
                    call_id: call.id.clone(),
                    success,
                    output: combine_output(stdout.as_slice(), stderr.as_slice()),
                    error: None,
                }
            },
        }
    }
}

/// A call that fails to run its command has an error and no output; one that
/// runs it has no error.
pub proof fn errors_have_no_output(call_id: Seq<char>, timeout_secs: u64, outcome: RunOutcome)
    ensures
        ({
            let r = bash_result(call_id, timeout_secs, outcome);
            &&& r.error is None <==> outcome is Exited
            &&& r.error is Some ==> !r.success && r.output.len() == 0
            &&& r.call_id == call_id
        }),
{
}

/// A call is a success just where its command ended by itself with status zero.
pub proof fn success_is_status_zero(call_id: Seq<char>, timeout_secs: u64, outcome: RunOutcome)
    ensures
        bash_result(call_id, timeout_secs, outcome).success <==> outcome is Exited && outcome->code
            == Some(0i32),
{
}

/// A command that ended is answered with what it wrote; one that took too long,
/// with the time it was given; one that could not be run, with why.
pub proof fn answers_say_what_came(call_id: Seq<char>, timeout_secs: u64, outcome: RunOutcome)
    ensures
        ({
            let r = bash_result(call_id, timeout_secs, outcome);
            match outcome {
                RunOutcome::TimedOut => r.error == Some(
                    "Command timed out after "@ + decimal(timeout_secs as nat) + "s"@,
                ),
                RunOutcome::Failed(why) => r.error == Some(
                    "Failed to execute bash command: "@ + why@,
                ),
                RunOutcome::Exited { stdout, stderr, .. } => {
                    &&& stderr@.len() == 0 ==> r.output == utf8_lossy(stdout@)
                    &&& stdout@.len() == 0 && stderr@.len() > 0 ==> r.output == utf8_lossy(stderr@)
                    &&& stdout@.len() > 0 && stderr@.len() > 0 ==> r.output == utf8_lossy(stdout@)
                        + seq!['\n'] + utf8_lossy(stderr@)
                },
            }
        }),
{
    if let RunOutcome::Exited { stdout, stderr, .. } = outcome {
        assert(utf8_lossy(stdout@).push('\n') =~= utf8_lossy(stdout@) + seq!['\n']);
    }
}

} // verus!
