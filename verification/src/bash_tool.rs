//! The bash tool that runs its commands through a [`PtyManager`].

use std::sync::Arc;

use vstd::prelude::*;
use vstd::string::*;

use crate::pty::{login_shell, PtyError, PtyManager, PtyOutput, ShellCommand};
use crate::text::{decimal, push_decimal, push_signed_decimal, signed_decimal};
use crate::tool::{
    bash_definition, command_of, define_bash, json_of, requested_command, requested_timeout,
    timeout_of, Json, ToolCall, ToolDefinition, ToolResult, ToolResultView,
};

verus! {

/// Bash tool that executes shell commands through a [`PtyManager`].
pub struct RuntimeBashTool {
    pty: Arc<PtyManager>,
    /// The time that a command gets where the call does not say, in seconds.
    default_timeout_secs: u64,
}

/// The answer to a call once its command gave output, or did not.
pub open spec fn runtime_result(
    call_id: Seq<char>,
    outcome: Result<PtyOutput, PtyError>,
) -> ToolResultView {
    match outcome {
        Ok(out) => ToolResultView {
            call_id,
            success: out.exit_code == 0,
            output: if out.stdout@.len() == 0 {
                "Command exited with status "@ + signed_decimal(out.exit_code as int)
            } else {
                out.stdout@
            },
            error: None,
        },
        Err(err) => ToolResultView {
            call_id,
            success: false,
            output: Seq::empty(),
            error: Some(err.words()),
        },
    }
}

impl RuntimeBashTool {
    /// The workspace that commands run in.
    pub closed spec fn root(self) -> Seq<u8> {
        (*self.pty).root()
    }

    /// The time that a command gets where the call does not say.
    pub closed spec fn default_timeout(self) -> u64 {
        self.default_timeout_secs
    }

    pub fn new(pty: Arc<PtyManager>, default_timeout_secs: u64) -> (r: RuntimeBashTool)
        ensures
            r.root() == (*pty).root(),
            r.default_timeout() == default_timeout_secs,
    {
        RuntimeBashTool { pty, default_timeout_secs }
    }

    /// What the tool says of itself.
    pub fn definition(&self) -> (r: ToolDefinition)
        ensures
            r@ == bash_definition(
                "Shell command to execute"@,
                "Command timeout in seconds (default: "@ + decimal(self.default_timeout() as nat)
                    + ")"@,
            ),
    {
        let mut help = "Command timeout in seconds (default: ".to_owned();
        push_decimal(&mut help, self.default_timeout_secs as u128);
        define_bash("Shell command to execute", help.concat(")"))
    }

    /// The process that a call asks for.
    pub fn prepare(&self, call: &ToolCall) -> (r: ShellCommand)
        ensures
            r@ == login_shell(
                self.root(),
                requested_command(json_of(call.input)),
                requested_timeout(json_of(call.input), self.default_timeout()),
            ),
    {
        let command = command_of(call);
        let timeout_secs: u64 = timeout_of(call, self.default_timeout_secs);
        self.pty.prepare(command.as_str(), timeout_secs)
    }

    /// The answer to a call once its command gave output, or did not.
    pub fn execute(&self, call: &ToolCall, outcome: Result<PtyOutput, PtyError>) -> (r: ToolResult)
        ensures
            r@ == runtime_result(call.id@, outcome),
            r.success <==> outcome is Ok && outcome->Ok_0.exit_code == 0,
            outcome matches Ok(out) ==> out.stdout@.len() > 0 ==> r.output@ == out.stdout@,
            r.error is Some <==> outcome is Err,
    {
        match outcome {
            Ok(out) => {
                let output = if out.stdout.as_str().is_empty() {
                    let mut text = "Command exited with status ".to_owned();
                    push_signed_decimal(&mut text, out.exit_code);
                    text
                } else {
                    out.stdout
                };
                ToolResult {
                    call_id: call.id.clone(),
                    success: out.exit_code == 0,
                    output,
                    error: None,
                }
            },
            Err(err) => ToolResult {
                call_id: call.id.clone(),
                success: false,
                output: String::new(),
                error: Some(err.message()),
            },
        }
    }
}

/// A call that fails to run its command has an error and no output; one that
/// runs it has no error, and says something.
pub proof fn answers_are_never_blank(call_id: Seq<char>, outcome: Result<PtyOutput, PtyError>)
    ensures
        ({
            let r = runtime_result(call_id, outcome);
            &&& r.error is None <==> outcome is Ok
            &&& r.error is None ==> r.output.len() > 0
            &&& r.error matches Some(words) ==> !r.success && r.output.len() == 0 && words.len()
                > 0
            &&& r.call_id == call_id
        }),
{
    reveal_strlit("Command exited with status ");
    reveal_strlit("Command timed out after ");
    reveal_strlit("Spawn failed: ");
}

/// A call is a success just where its command ran and its status is zero.
pub proof fn success_is_status_zero(call_id: Seq<char>, outcome: Result<PtyOutput, PtyError>)
    ensures
        runtime_result(call_id, outcome).success <==> outcome is Ok && outcome->Ok_0.exit_code
            == 0,
{
}

/// What a command wrote is the answer, to the last character; one that wrote
/// nothing is answered with its status; one that could not be run, with why.
pub proof fn answers_say_what_came(call_id: Seq<char>, outcome: Result<PtyOutput, PtyError>)
    ensures
        ({
            let r = runtime_result(call_id, outcome);
            match outcome {
                Ok(out) => {
                    &&& out.stdout@.len() > 0 ==> r.output == out.stdout@
                    &&& out.stdout@.len() == 0 ==> r.output == "Command exited with status "@
                        + signed_decimal(out.exit_code as int)
                },
                Err(PtyError::Timeout(secs)) => r.error == Some(
                    "Command timed out after "@ + decimal(secs as nat) + "s"@,
                ),
                Err(PtyError::SpawnFailed(why)) => r.error == Some("Spawn failed: "@ + why@),
            }
        }),
{
}

/// The process of a call runs the command of its input for the time of its
/// input, or for the tool's own where the input gives none.
pub proof fn call_runs_its_command(root: Seq<u8>, input: Json, default_secs: u64)
    ensures
        ({
            let run = login_shell(
                root,
                requested_command(input),
                requested_timeout(input, default_secs),
            );
            &&& run.args.len() == 2
            &&& run.current_dir == root
            &&& (input matches Json::Object(members) && members.contains_key("command"@)
                && members["command"@] is Text) ==> run.args[1]
                == input->Object_0["command"@]->Text_0
            &&& (input matches Json::Object(members) && members.contains_key("timeout_secs"@)
                && members["timeout_secs"@] is Unsigned) ==> run.timeout_secs
                == input->Object_0["timeout_secs"@]->Unsigned_0
            &&& (input matches Json::Object(members) ==> !members.contains_key("timeout_secs"@))
                ==> run.timeout_secs == default_secs
        }),
{
}

} // verus!
