use std::path::PathBuf;
use std::sync::Arc;

use nca::bash::BashTool;
use nca::bash_tool::RuntimeBashTool;
use nca::pty::{
    combine_output, join_output, shell_command, timeout_message, PtyError, PtyManager, PtyOutput,
    RunOutcome,
};
use nca::tool::{command_of, command_or_empty, timeout_of, timeout_or, ToolCall};

fn call(input: &str) -> ToolCall {
    ToolCall { id: "c1".to_string(), input: serde_json::from_str(input).unwrap() }
}

fn schema(command_help: &str, timeout_help: &str) -> serde_json::Value {
    let text = format!(
        r#"{{
            "type": "object",
            "properties": {{
                "command": {{ "type": "string", "description": "{command_help}" }},
                "timeout_secs": {{ "type": "integer", "description": "{timeout_help}" }}
            }},
            "required": ["command"]
        }}"#
    );
    serde_json::from_str(&text).unwrap()
}

fn exited(stdout: &[u8], stderr: &[u8], code: Option<i32>) -> RunOutcome {
    RunOutcome::Exited { stdout: stdout.to_vec(), stderr: stderr.to_vec(), code }
}

#[test]
fn the_input_says_what_to_run_and_how_long() {
    let full = call("{\"command\": \"ls -l\", \"timeout_secs\": 5}");
    assert_eq!(command_of(&full), "ls -l");
    assert_eq!(timeout_of(&full, 30), 5);
    let empty = call("{}");
    assert_eq!(command_of(&empty), "");
    assert_eq!(timeout_of(&empty, 30), 30);
    let wrong = call("{\"command\": 7, \"timeout_secs\": \"5\"}");
    assert_eq!(command_of(&wrong), "");
    assert_eq!(timeout_of(&wrong, 30), 30);
    let negative = call("{\"timeout_secs\": -1}");
    assert_eq!(timeout_of(&negative, 30), 30);
    let largest = call("{\"timeout_secs\": 18446744073709551615}");
    assert_eq!(timeout_of(&largest, 30), u64::MAX);
    let fraction = call("{\"timeout_secs\": 5.5}");
    assert_eq!(timeout_of(&fraction, 30), 30);
    let list = call("[\"command\"]");
    assert_eq!(command_of(&list), "");
}

#[test]
fn missing_input_has_its_defaults() {
    assert_eq!(command_or_empty(Some("ls")), "ls");
    assert_eq!(command_or_empty(None), "");
    assert_eq!(timeout_or(Some(0), 30), 0);
    assert_eq!(timeout_or(None, 30), 30);
}

#[test]
fn commands_run_in_a_login_shell_of_the_workspace() {
    let command = shell_command(&PathBuf::from("/w"), "echo hi", 9);
    assert_eq!(command.program, "sh");
    assert_eq!(command.args, vec!["-lc".to_string(), "echo hi".to_string()]);
    assert_eq!(command.current_dir, PathBuf::from("/w"));
    assert_eq!(command.timeout_secs, 9);
    assert!(command.kill_on_drop);
    let prepared = PtyManager::new(PathBuf::from("/w")).prepare("x", 1);
    assert_eq!(prepared.args, vec!["-lc".to_string(), "x".to_string()]);
    assert_eq!(prepared.current_dir, PathBuf::from("/w"));
}

#[test]
fn errors_stand_behind_the_output() {
    assert_eq!(combine_output(b"out", b""), "out");
    assert_eq!(combine_output(b"out", b"err"), "out\nerr");
    assert_eq!(combine_output(b"", b"err"), "err");
    assert_eq!(combine_output(b"", b""), "");
    assert_eq!(combine_output(b"a\xffb", b""), "a\u{fffd}b");
    assert_eq!(combine_output(b"\xff", b"\xfe"), "\u{fffd}\n\u{fffd}");
    assert_eq!(combine_output(b"", b"\xfe"), "\u{fffd}");
    assert_eq!(join_output("a".to_string(), Some(String::new())), "a\n");
    assert_eq!(join_output(String::new(), None), "");
}

#[test]
fn a_pty_reports_how_its_command_ended() {
    let pty = PtyManager::new(PathBuf::from("/w"));
    let out = pty.exec(4, exited(b"x", b"y", Some(3))).unwrap();
    assert_eq!(out.stdout, "x\ny");
    assert_eq!(out.exit_code, 3);
    assert_eq!(pty.exec(4, exited(b"", b"", None)).unwrap().exit_code, -1);
    let late = pty.exec(4, RunOutcome::TimedOut).unwrap_err();
    assert!(matches!(late, PtyError::Timeout(4)));
    assert_eq!(late.message(), "Command timed out after 4s");
    let lost = pty.exec(4, RunOutcome::Failed("no shell".to_string())).unwrap_err();
    assert_eq!(lost.message(), "Spawn failed: no shell");
    assert_eq!(timeout_message(u64::MAX), "Command timed out after 18446744073709551615s");
}

#[test]
fn the_bash_tool_says_what_it_takes() {
    let definition = BashTool::new(PathBuf::from("/w")).definition();
    assert_eq!(definition.name, "execute_bash");
    assert_eq!(definition.description, "Execute a shell command in the workspace");
    assert_eq!(
        definition.parameters,
        schema("The shell command to execute", "Timeout in seconds (default: 30)")
    );
}

#[test]
fn the_bash_tool_runs_what_it_is_asked() {
    let tool = BashTool::new(PathBuf::from("/w"));
    let command = tool.prepare(&call("{\"command\": \"ls\"}"));
    assert_eq!(command.args[1], "ls");
    assert_eq!(command.timeout_secs, 30);
    assert_eq!(command.current_dir, PathBuf::from("/w"));
}

#[test]
fn the_bash_tool_answers() {
    let tool = BashTool::new(PathBuf::from("/w"));
    let asked = call("{\"command\": \"ls\", \"timeout_secs\": 2}");
    let good = tool.execute(&asked, exited(b"out", b"err", Some(0)));
    assert_eq!(good.call_id, "c1");
    assert!(good.success);
    assert_eq!(good.output, "out\nerr");
    assert_eq!(good.error, None);
    let bad = tool.execute(&asked, exited(b"", b"", Some(1)));
    assert!(!bad.success);
    assert_eq!(bad.output, "");
    assert_eq!(bad.error, None);
    assert!(!tool.execute(&asked, exited(b"", b"", None)).success);
    let late = tool.execute(&asked, RunOutcome::TimedOut);
    assert!(!late.success);
    assert_eq!(late.output, "");
    assert_eq!(late.error.as_deref(), Some("Command timed out after 2s"));
    let lost = tool.execute(&asked, RunOutcome::Failed("no shell".to_string()));
    assert!(!lost.success);
    assert_eq!(lost.error.as_deref(), Some("Failed to execute bash command: no shell"));
}

#[test]
fn the_runtime_bash_tool_says_its_default() {
    let tool = RuntimeBashTool::new(Arc::new(PtyManager::new(PathBuf::from("/w"))), 120);
    let definition = tool.definition();
    assert_eq!(definition.name, "execute_bash");
    assert_eq!(definition.description, "Execute a shell command in the workspace");
    assert_eq!(
        definition.parameters,
        schema("Shell command to execute", "Command timeout in seconds (default: 120)")
    );
    let command = tool.prepare(&call("{\"command\": \"ls\"}"));
    assert_eq!(command.timeout_secs, 120);
    assert_eq!(command.current_dir, PathBuf::from("/w"));
}

#[test]
fn the_runtime_bash_tool_is_never_silent() {
    let tool = RuntimeBashTool::new(Arc::new(PtyManager::new(PathBuf::from("/w"))), 120);
    let asked = call("{}");
    let output = |stdout: &str, exit_code: i32| PtyOutput { stdout: stdout.to_string(), exit_code };
    let good = tool.execute(&asked, Ok(output("text", 0)));
    assert!(good.success);
    assert_eq!(good.output, "text");
    assert_eq!(good.call_id, "c1");
    let silent = tool.execute(&asked, Ok(output("", -1)));
    assert!(!silent.success);
    assert_eq!(silent.output, "Command exited with status -1");
    assert_eq!(silent.error, None);
    let late = tool.execute(&asked, Err(PtyError::Timeout(120)));
    assert!(!late.success);
    assert_eq!(late.output, "");
    assert_eq!(late.error.as_deref(), Some("Command timed out after 120s"));
}

#[test]
fn a_status_is_written_with_its_sign() {
    let tool = RuntimeBashTool::new(Arc::new(PtyManager::new(PathBuf::from("/w"))), 120);
    let silent = PtyOutput { stdout: String::new(), exit_code: i32::MIN };
    assert_eq!(
        tool.execute(&call("{}"), Ok(silent)).output,
        "Command exited with status -2147483648"
    );
}
