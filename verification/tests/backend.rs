use piquelcli::backend::{
    combined_output, program_available, remote_dir_created, shell_quote, shell_request, successful_output_path,
    BackendError, CommandInput, CommandOutput, CommandRequest, CommandRequests, ExitStatus, SshBackend,
};

fn status(code: i32) -> ExitStatus {
    ExitStatus { code: Some(code), description: format!("exit status: {code}") }
}

#[test]
fn command_requests_close_stdin_by_default() {
    assert_eq!(CommandRequest::new("program").stdin_config(), &CommandInput::Closed);
}

#[test]
fn command_request_builder_preserves_program_args_and_stdin() {
    let request = CommandRequest::new("program")
        .arg("one")
        .args(&["two", "three"])
        .stdin(CommandInput::Bytes(b"input".to_vec()));

    assert_eq!(request.program(), "program");
    assert_eq!(request.args_os(), ["one", "two", "three"]);
    assert_eq!(request.stdin_config(), &CommandInput::Bytes(b"input".to_vec()));
}

#[test]
fn command_requests_preserve_push_and_extend_order() {
    let mut requests = CommandRequests::one(CommandRequest::new("first"));
    requests.push(CommandRequest::new("second"));
    requests.extend(vec![CommandRequest::new("third"), CommandRequest::new("fourth")]);

    let programs = requests
        .into_vec()
        .into_iter()
        .map(|request| request.program().to_owned())
        .collect::<Vec<_>>();

    assert_eq!(programs, vec!["first", "second", "third", "fourth"]);
}

#[test]
fn combined_output_is_stdout_then_stderr() {
    let output = CommandOutput { status: status(0), stdout: b"out".to_vec(), stderr: b"err".to_vec() };
    assert_eq!(combined_output(&output), "outerr");
    let lossy = CommandOutput { status: status(0), stdout: vec![0x66, 0xff, 0x6f], stderr: vec![] };
    assert_eq!(combined_output(&lossy), "f\u{fffd}o");
}

#[test]
fn exit_code_zero_is_success() {
    assert!(status(0).success());
    assert!(!status(7).success());
    assert!(!ExitStatus { code: None, description: "signal: 9 (SIGKILL)".to_owned() }.success());
}

#[test]
fn shell_quote_escapes_single_quotes() {
    assert_eq!(shell_quote("plain"), "'plain'");
    assert_eq!(shell_quote("it's"), "'it'\\''s'");
    assert_eq!(shell_quote("a b; $x `y` \"z\""), "'a b; $x `y` \"z\"'");
    assert_eq!(shell_quote(""), "''");
}

#[test]
fn ssh_backend_wraps_commands() {
    let ssh = SshBackend::new("me", "host");
    assert_eq!(ssh.target(), "me@host");
    let request = CommandRequest::new("tmux").args(&["attach", "-t", "a b"]).stdin(CommandInput::Inherit);
    let status_request = ssh.status_request(&request);
    assert_eq!(status_request.program(), "ssh");
    assert_eq!(status_request.args_os(), ["-t", "--", "me@host", "'tmux' 'attach' '-t' 'a b'"]);
    let output_request = ssh.output_request(&request);
    assert_eq!(output_request.args_os(), ["-T", "--", "me@host", "'tmux' 'attach' '-t' 'a b'"]);
    assert_eq!(
        ssh.path_exists_request("/p q").args_os(),
        ["-T", "--", "me@host", "'sh' '-lc' 'test -e '\\''/p q'\\'''"]
    );
    assert_eq!(shell_request("pwd -P").args_os(), ["-lc", "pwd -P"]);
}

#[test]
fn ssh_program_checks_depend_on_paths() {
    let ssh = SshBackend::new("me", "host");
    assert_eq!(
        ssh.program_request("git").args_os()[3],
        "'sh' '-lc' 'command -v '\\''git'\\'' >/dev/null 2>&1'"
    );
    assert_eq!(ssh.program_request("/bin/git").args_os()[3], "'sh' '-lc' 'test -x '\\''/bin/git'\\'''");
}

#[test]
fn remote_paths_come_from_stdout() {
    let ok = CommandOutput { status: status(0), stdout: b"/home/me\n".to_vec(), stderr: vec![] };
    assert_eq!(successful_output_path(&ok), Ok("/home/me".to_owned()));
    let failed = CommandOutput { status: status(1), stdout: vec![], stderr: vec![] };
    assert_eq!(
        successful_output_path(&failed),
        Err(BackendError::Io("ssh command exited with status exit status: 1".to_owned()))
    );
    assert_eq!(
        remote_dir_created(&status(2)),
        Err(BackendError::Io("ssh mkdir exited with status exit status: 2".to_owned()))
    );
    assert!(remote_dir_created(&status(0)).is_ok());
}

#[test]
fn missing_programs_are_named() {
    assert!(program_available("git", true).is_ok());
    let err = program_available("git", false).unwrap_err();
    assert_eq!(err, BackendError::MissingProgram("git".to_owned()));
    assert_eq!(err.message(), "git is not installed or not available in PATH");
}
