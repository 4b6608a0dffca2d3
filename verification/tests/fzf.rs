use piquelcli::backend::{CommandInput, CommandOutput, ExitStatus};
use piquelcli::fzf::{select_request, selection, FzfError};

fn output(code: i32, stdout: &str) -> CommandOutput {
    CommandOutput {
        status: ExitStatus { code: Some(code), description: format!("exit status: {code}") },
        stdout: stdout.as_bytes().to_vec(),
        stderr: vec![],
    }
}

#[test]
fn fzf_receives_items_one_per_line() {
    let request = select_request(&["one".to_owned(), "two".to_owned()], "piquel> ");
    assert_eq!(request.program(), "fzf");
    assert_eq!(request.args_os(), ["--prompt", "piquel> "]);
    assert_eq!(request.stdin_config(), &CommandInput::Bytes(b"one\ntwo\n".to_vec()));
}

#[test]
fn cancelled_selection_returns_none() {
    assert_eq!(selection(&output(130, "")), Ok(None));
}

#[test]
fn successful_selection_returns_trimmed_item() {
    assert_eq!(selection(&output(0, "two\n")), Ok(Some("two".to_owned())));
}

#[test]
fn successful_empty_selection_returns_none() {
    assert_eq!(selection(&output(0, "\n")), Ok(None));
}

#[test]
fn failed_selection_with_stdout_returns_command_error() {
    let err = selection(&output(2, "partial\n")).expect_err("fzf failure should be returned");
    assert!(matches!(err, FzfError::Command(_)));
    assert!(err.message().contains("fzf exited with status"));
}

#[test]
fn fzf_error_messages() {
    assert_eq!(FzfError::MissingBinary.message(), "fzf is not installed or not available in PATH");
    assert_eq!(FzfError::Cancelled.message(), "fzf selection was cancelled");
    assert_eq!(FzfError::Io("broken".to_owned()).message(), "IO error: broken");
}
