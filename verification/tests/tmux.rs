use piquelcli::backend::{CommandOutput, ExitStatus, InputSpec};
use piquelcli::tmux::{
    attach_request, err_in_tmux, new_session_request, new_window_request, parse_list_sessions_output,
    sanitize_session_name, send_keys_requests, successful_output, successful_status, successful_statuses,
    validated_session_name, TmuxError,
};
use piquelcli::WindowConfig;

fn status(code: i32) -> ExitStatus {
    ExitStatus { code: Some(code), description: format!("exit status: {code}") }
}

fn output(code: i32, stdout: &str, stderr: &str) -> CommandOutput {
    CommandOutput { status: status(code), stdout: stdout.as_bytes().to_vec(), stderr: stderr.as_bytes().to_vec() }
}

#[test]
fn sanitizes_tmux_session_names() {
    assert_eq!(sanitize_session_name("project:branch"), "project_branch");
    assert_eq!(sanitize_session_name("feature/foo"), "feature_foo");
    assert_eq!(sanitize_session_name("feature///foo"), "feature_foo");
    assert!(!sanitize_session_name("project:branch").contains(':'));
}

#[test]
fn invalid_tmux_session_names_fail_validation() {
    assert!(validated_session_name("").is_err());
    assert!(validated_session_name("   ").is_err());
    assert!(validated_session_name("///").is_err());
}

#[test]
fn sanitizing_twice_changes_nothing() {
    for name in ["alpha--feature/foo", "  a b  c ", "x__y", "ok-name_1"] {
        let once = sanitize_session_name(name);
        assert_eq!(sanitize_session_name(&once), once);
    }
    assert_eq!(sanitize_session_name("  a b  c "), "a_b_c");
}

#[test]
fn validated_session_name_trims_and_sanitizes() {
    assert_eq!(validated_session_name("  alpha--feature/foo ").expect("valid"), "alpha--feature_foo");
    assert_eq!(
        validated_session_name("///").expect_err("invalid").message(),
        "\"///\" is not a valid tmux session name"
    );
}

#[test]
fn list_sessions_output_is_split_into_names() {
    assert_eq!(
        parse_list_sessions_output(&output(0, "alpha\nbeta\n", "")).expect("parses"),
        vec!["alpha", "beta"]
    );
    assert!(parse_list_sessions_output(&output(0, "\n", "")).expect("parses").is_empty());
}

#[test]
fn no_running_server_means_no_sessions() {
    assert!(parse_list_sessions_output(&output(1, "", "no server running on /tmp/tmux-1000/default\n"))
        .expect("no server is fine")
        .is_empty());
    assert!(parse_list_sessions_output(&output(1, "", "error connecting to /tmp/tmux\n"))
        .expect("no socket is fine")
        .is_empty());
    assert_eq!(
        parse_list_sessions_output(&output(1, "", "boom")).expect_err("other failures are errors"),
        TmuxError::Command("Failed to list sessions with error: boom".to_owned())
    );
}

#[test]
fn tmux_requests_name_their_arguments() {
    let attach = attach_request("alpha");
    assert_eq!(attach.program(), "tmux");
    assert_eq!(attach.args_os(), ["attach", "-t", "alpha"]);
    assert!(matches!(attach.stdin_config(), piquelcli::backend::CommandInput::Inherit));

    let new_session = new_session_request("alpha", "/p");
    assert_eq!(new_session.args_os(), ["new-session", "-d", "-c", "/p", "-s", "alpha"]);

    let named = WindowConfig { name: Some("editor".to_owned()), commands: vec![] };
    assert_eq!(
        new_window_request("alpha", "/p", &named).args_os(),
        ["new-window", "-P", "-F", "#{window_id}", "-n", "editor", "-t", "alpha", "-c", "/p"]
    );
}

#[test]
fn send_keys_follow_window_commands() {
    let window = WindowConfig { name: None, commands: vec!["vim .".to_owned(), "cargo test".to_owned()] };
    let requests = send_keys_requests("@1", &window).into_vec();
    assert_eq!(requests.len(), 2);
    assert_eq!(requests[0].args_os(), ["send-keys", "-t", "@1", "vim .", "Enter"]);
    assert_eq!(requests[1].args_os(), ["send-keys", "-t", "@1", "cargo test", "Enter"]);
}

#[test]
fn statuses_report_the_first_failure() {
    assert!(successful_status(&status(0)).is_ok());
    assert_eq!(
        successful_statuses(&vec![status(0), status(2), status(3)]),
        Err(TmuxError::Command("tmux exited with status exit status: 2".to_owned()))
    );
    assert_eq!(successful_output(&output(0, "a", "b")), Ok("ab".to_owned()));
    assert_eq!(successful_output(&output(1, "a", "b")), Err(TmuxError::Command("ab".to_owned())));
}

#[test]
fn inside_tmux_is_refused() {
    assert_eq!(err_in_tmux(true), Err(TmuxError::InTmux));
    assert_eq!(err_in_tmux(true).unwrap_err().message(), "Please do not use this command in tmux");
    assert!(err_in_tmux(false).is_ok());
    let _ = InputSpec::Closed;
}
