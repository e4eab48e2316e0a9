//! Running shell commands in the workspace: what is run, and what is made of
//! how it ended.

use std::path::PathBuf;

use vstd::prelude::*;
use vstd::string::*;
use vstd::utf8::*;

use crate::path::{copy_path, path_bytes};
use crate::text::{decimal, decode_lossy, push_decimal, utf8_lossy};

verus! {

/// A process to be run: its output and its errors are captured, and it is
/// killed when it takes longer than it is given.
#[derive(Debug)]
pub struct ShellCommand {
    pub program: String,
    pub args: Vec<String>,
    pub current_dir: PathBuf,
    pub timeout_secs: u64,
    pub kill_on_drop: bool,
}

/// How a process ended.
#[derive(Debug)]
pub enum RunOutcome {
    /// It took longer than it was given.
    TimedOut,
    /// It could not be run, and why.
    Failed(String),
    /// It ended; there is no code where a signal ended it.
    Exited { stdout: Vec<u8>, stderr: Vec<u8>, code: Option<i32> },
}

/// The output of a command.
#[derive(Debug)]
pub struct PtyOutput {
    pub stdout: String,
    pub exit_code: i32,
}

/// Why a command has no output.
#[derive(Debug)]
pub enum PtyError {
    Timeout(u64),
    SpawnFailed(String),
}

/// Manages sessions for command execution in a workspace.
pub struct PtyManager {
    workspace_root: PathBuf,
}

/// What a [`ShellCommand`] runs.
pub struct ShellCommandView {
    pub program: Seq<char>,
    pub args: Seq<Seq<char>>,
    pub current_dir: Seq<u8>,
    pub timeout_secs: u64,
    pub kill_on_drop: bool,
}

impl View for ShellCommand {
    type V = ShellCommandView;

    open spec fn view(&self) -> ShellCommandView {
        ShellCommandView {
            program: self.program@,
            args: self.args@.map_values(|a: String| a@),
            current_dir: path_bytes(self.current_dir),
            timeout_secs: self.timeout_secs,
            kill_on_drop: self.kill_on_drop,
        }
    }
}

/// A command runs in a login shell, in the workspace, and does not outlive the
/// time it is given.
pub open spec fn login_shell(
    workspace_root: Seq<u8>,
    command: Seq<char>,
    timeout_secs: u64,
) -> ShellCommandView {
    ShellCommandView {
        program: "sh"@,
        args: seq!["-lc"@, command],
        current_dir: workspace_root,
        timeout_secs,
        kill_on_drop: true,
    }
}

/// The text of a command's output, and behind it, on a new line, that of its
/// errors; the errors alone where there is no output.
pub open spec fn joined(out: Seq<char>, errors: Seq<char>) -> Seq<char> {
    if out.len() == 0 {
        errors
    } else {
        out.push('\n') + errors
    }
}

/// The text of what a command wrote to its output and to its errors: that of
/// either alone where it wrote nothing to the other, else that of both with a
/// newline between them.
pub open spec fn combined_output(stdout: Seq<u8>, stderr: Seq<u8>) -> Seq<char> {
    if stderr.len() == 0 {
        utf8_lossy(stdout)
    } else if stdout.len() == 0 {
        utf8_lossy(stderr)
    } else {
        utf8_lossy(stdout).push('\n') + utf8_lossy(stderr)
    }
}

/// The text of what a command wrote where all of it is valid UTF-8.
pub open spec fn decoded_output(stdout: Seq<u8>, stderr: Seq<u8>) -> Seq<char> {
    if stderr.len() == 0 {
        decode_utf8(stdout)
    } else if stdout.len() == 0 {
        decode_utf8(stderr)
    } else {
        decode_utf8(stdout).push('\n') + decode_utf8(stderr)
    }
}

/// The status that is reported of an exit code.
pub open spec fn reported_status(code: Option<i32>) -> i32 {
    match code {
        Some(c) => c,
        None => -1i32,
    }
}

/// Prepares a command for a login shell in a workspace.
pub fn shell_command(workspace_root: &PathBuf, command: &str, timeout_secs: u64) -> (r:
    ShellCommand)
    ensures
        r@ == login_shell(path_bytes(*workspace_root), command@, timeout_secs),
{
    let mut args: Vec<String> = Vec::new();
    args.push("-lc".to_owned());
    args.push(command.to_owned());
    let r = ShellCommand {
        program: "sh".to_owned(),
        args,
        current_dir: copy_path(workspace_root),
        timeout_secs,
        kill_on_drop: true,
    };
    assert(r@.args =~= seq!["-lc"@, command@]);
    r
}

/// Joins the text of a command's output and that of its errors, where it has
/// errors.
pub fn join_output(out: String, errors: Option<String>) -> (r: String)
    ensures
        r@ == match errors {
            Some(errors) => joined(out@, errors@),
            None => out@,
        },
{
    let mut text = out;
    match errors {
        Some(errors) => {
            if !text.as_str().is_empty() {
                text.push('\n');
            }
            let r = text.concat(errors.as_str());
            assert(r@ =~= joined(out@, errors@));
            r
        },
        None => text,
    }
}

/// Joins what a command wrote to its output and to its errors; what is valid
/// UTF-8 is decoded as it stands.
pub fn combine_output(stdout: &[u8], stderr: &[u8]) -> (r: String)
    ensures
        r@ == combined_output(stdout@, stderr@),
        valid_utf8(stdout@) && valid_utf8(stderr@) ==> r@ == decoded_output(stdout@, stderr@),
        r@.len() == 0 <==> stdout@.len() == 0 && stderr@.len() == 0,
{
    let out = decode_lossy(stdout);
    let errors = if stderr.len() > 0 {
        Some(decode_lossy(stderr))
    } else {
        None
    };
    join_output(out, errors)
}

impl PtyManager {
    /// The workspace that commands run in.
    pub closed spec fn root(self) -> Seq<u8> {
        path_bytes(self.workspace_root)
    }

    pub fn new(workspace_root: PathBuf) -> (r: PtyManager)
        ensures
            r.root() == path_bytes(workspace_root),
    {
        PtyManager { workspace_root }
    }

    /// The process that runs a command.
    pub fn prepare(&self, command: &str, timeout_secs: u64) -> (r: ShellCommand)
        ensures
            r@ == login_shell(self.root(), command@, timeout_secs),
    {
        shell_command(&self.workspace_root, command, timeout_secs)
    }

    /// What a command gave, once it ended one way or another.
    pub fn exec(&self, timeout_secs: u64, outcome: RunOutcome) -> (r: Result<PtyOutput, PtyError>)
        ensures
            match outcome {
                RunOutcome::TimedOut => r == Err::<PtyOutput, PtyError>(
                    PtyError::Timeout(timeout_secs),
                ),
                RunOutcome::Failed(why) => r == Err::<PtyOutput, PtyError>(
                    PtyError::SpawnFailed(why),
                ),
                RunOutcome::Exited { stdout, stderr, code } => {
                    &&& r is Ok
                    &&& r->Ok_0.stdout@ == combined_output(stdout@, stderr@)
                    &&& valid_utf8(stdout@) && valid_utf8(stderr@) ==> r->Ok_0.stdout@
                        == decoded_output(stdout@, stderr@)
                    &&& r->Ok_0.stdout@.len() == 0 <==> stdout@.len() == 0 && stderr@.len() == 0
                    &&& r->Ok_0.exit_code == reported_status(code)
                    &&& r->Ok_0.exit_code == match code {
                        Some(c) => c,
                        None => -1i32,
                    }
                },
            },
            r is Ok <==> outcome is Exited,
            outcome is TimedOut ==> r->Err_0.words() == timed_out(timeout_secs),
            outcome matches RunOutcome::Failed(why) ==> r->Err_0.words() == "Spawn failed: "@
                + why@,
    {
        match outcome {
            RunOutcome::TimedOut => Err(PtyError::Timeout(timeout_secs)),
            RunOutcome::Failed(why) => Err(PtyError::SpawnFailed(why)),
            RunOutcome::Exited { stdout, stderr, code } => {
                let text = combine_output(stdout.as_slice(), stderr.as_slice());
                let exit_code: i32 = match code {
                    Some(c) => c,
                    None => -1,
                };
                Ok(PtyOutput { stdout: text, exit_code })
            },
        }
    }
}

impl PtyError {
    /// The error in words.
    pub open spec fn words(self) -> Seq<char> {
        match self {
            PtyError::Timeout(secs) => timed_out(secs),
            PtyError::SpawnFailed(why) => "Spawn failed: "@ + why@,
        }
    }

    /// The error in words.
    pub fn message(&self) -> (r: String)
        ensures
            r@ == self.words(),
    {
        match self {
            PtyError::Timeout(secs) => timeout_message(*secs),
            PtyError::SpawnFailed(why) => "Spawn failed: ".to_owned().concat(why.as_str()),
        }
    }
}

/// That a command took longer than it was given.
pub open spec fn timed_out(secs: u64) -> Seq<char> {
    "Command timed out after "@ + decimal(secs as nat) + "s"@
}

/// Says that a command took longer than it was given.
pub fn timeout_message(secs: u64) -> (r: String)
    ensures
        r@ == timed_out(secs),
{
    let mut text = "Command timed out after ".to_owned();
    push_decimal(&mut text, secs as u128);
    text.concat("s")
}

// ---------------------------------------------------------------------------
// Laws
// ---------------------------------------------------------------------------

/// A code is reported as it is; where there is none, as minus one.
pub proof fn code_is_reported(code: Option<i32>)
    ensures
        code matches Some(c) ==> reported_status(code) == c,
        code is None ==> reported_status(code) == -1,
{
}

/// The output comes first and the errors last, both whole; a newline stands
/// between them just where there are both.
pub proof fn output_comes_before_errors(stdout: Seq<u8>, stderr: Seq<u8>)
    ensures
        ({
            let text = combined_output(stdout, stderr);
            let out = utf8_lossy(stdout);
            let errors = utf8_lossy(stderr);
            &&& stderr.len() == 0 ==> text == out
            &&& stdout.len() == 0 && stderr.len() > 0 ==> text == errors
            &&& stdout.len() > 0 && stderr.len() > 0 ==> {
                &&& text.len() == out.len() + 1 + errors.len()
                &&& text.take(out.len() as int) == out
                &&& text[out.len() as int] == '\n'
                &&& text.skip((out.len() + 1) as int) == errors
            }
        }),
{
    let text = combined_output(stdout, stderr);
    let out = utf8_lossy(stdout);
    if stdout.len() > 0 && stderr.len() > 0 {
        assert(text.take(out.len() as int) =~= out);
        assert(text.skip((out.len() + 1) as int) =~= utf8_lossy(stderr));
    }
}

/// Joined texts: the errors end them, and the output begins them on a line of
/// its own.
pub proof fn joined_texts_stay_whole(out: Seq<char>, errors: Seq<char>)
    ensures
        out.len() == 0 ==> joined(out, errors) == errors,
        out.len() > 0 ==> joined(out, errors) == out + seq!['\n'] + errors,
{
    assert(out.push('\n') =~= out + seq!['\n']);
}

/// A command goes to a login shell as one argument, in the workspace, and is
/// killed with its time.
pub proof fn command_is_one_argument(root: Seq<u8>, command: Seq<char>, secs: u64)
    ensures
        ({
            let run = login_shell(root, command, secs);
            &&& run.program == "sh"@
            &&& run.args.len() == 2
            &&& run.args[0] == "-lc"@
            &&& run.args[1] == command
            &&& run.current_dir == root
            &&& run.timeout_secs == secs
            &&& run.kill_on_drop
        }),
{
}

/// An error in words says the seconds, or the whole cause.
pub proof fn errors_say_why(err: PtyError)
    ensures
        match err {
            PtyError::Timeout(secs) => err.words() == "Command timed out after "@ + decimal(
                secs as nat,
            ) + "s"@,
            PtyError::SpawnFailed(why) => err.words() == "Spawn failed: "@ + why@,
        },
{
}

/// A process is seen with all that it is given.
pub proof fn processes_are_seen_whole(run: ShellCommand)
    ensures
        run@.program == run.program@,
        run@.args.len() == run.args@.len(),
        forall|i: int| 0 <= i < run.args@.len() ==> #[trigger] run@.args[i] == run.args@[i]@,
        run@.current_dir == path_bytes(run.current_dir),
        run@.timeout_secs == run.timeout_secs,
        run@.kill_on_drop == run.kill_on_drop,
{
}

} // verus!
