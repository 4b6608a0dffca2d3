use piquelcli::backend::{BackendError, Call, CommandOutput, ExitStatus};
use piquelcli::opener::{open_session, OpenerStep};
use piquelcli::tmux::TmuxError;
use piquelcli::workflow::{load_project, open_project_interactive, pick, session, FlowStep, Need, Outcome};
use piquelcli::{Config, ProjectConfig, SessionConfig, SessionTemplates, WindowConfig};

fn ok(text: &str) -> Result<CommandOutput, BackendError> {
    Ok(CommandOutput {
        status: ExitStatus { code: Some(0), description: "exit status: 0".to_owned() },
        stdout: text.as_bytes().to_vec(),
        stderr: vec![],
    })
}

fn failed(code: i32, text: &str) -> Result<CommandOutput, BackendError> {
    Ok(CommandOutput {
        status: ExitStatus { code: Some(code), description: format!("exit status: {code}") },
        stdout: vec![],
        stderr: text.as_bytes().to_vec(),
    })
}

fn line(call: &Call) -> String {
    let request = match call {
        Call::Output(r) | Call::Status(r) => r,
    };
    let mut words = vec![request.program().to_owned()];
    words.extend(request.args_os().iter().cloned());
    words.join(" ")
}

fn template(commands: &[&str]) -> SessionConfig {
    SessionConfig {
        windows: vec![WindowConfig { name: None, commands: commands.iter().map(|c| (*c).to_owned()).collect() }],
    }
}

/// Answers tmux as the fake used by the command-line tests does.
fn fake_tmux(call: &Call, running: &str) -> Result<CommandOutput, BackendError> {
    let l = line(call);
    if l.starts_with("tmux list-sessions") {
        ok(running)
    } else if l.starts_with("tmux list-windows") {
        ok("bootstrap-window\n")
    } else if l.starts_with("tmux new-window") {
        ok("window-id\n")
    } else {
        ok("")
    }
}

fn drive_opener_with(
    mut step: OpenerStep,
    reply: impl Fn(&Call) -> Result<CommandOutput, BackendError>,
) -> (Vec<String>, Result<(), TmuxError>) {
    let mut log = Vec::new();
    loop {
        match step {
            OpenerStep::Run(opener, call) => {
                log.push(line(&call));
                let r = reply(&call);
                step = opener.step(r);
            }
            OpenerStep::Done(r) => return (log, r),
        }
    }
}

fn drive_opener(step: OpenerStep, running: &str) -> (Vec<String>, Result<(), TmuxError>) {
    drive_opener_with(step, |call| fake_tmux(call, running))
}

fn drive(mut step: FlowStep, mut answer: impl FnMut(&Need) -> Option<Outcome>) -> (Vec<String>, Result<(), String>) {
    let mut log = Vec::new();
    loop {
        match step {
            FlowStep::Run(flow, need) => {
                let entry = match &need {
                    Need::Run(call) => line(call),
                    Need::PathExists(p) => format!("exists {p}"),
                    Need::PathIsDir(p) => format!("is-dir {p}"),
                    Need::CreateDir(p) => format!("mkdir {p}"),
                    Need::Canonicalize(p) => format!("canonical {p}"),
                    Need::CurrentDir => "cwd".to_owned(),
                    Need::Ask(q) => format!("ask {q}"),
                    Need::Pick { items, prompt } => format!("pick {prompt}{}", items.join(",")),
                };
                log.push(entry);
                let outcome = match answer(&need) {
                    Some(o) => o,
                    None => match &need {
                        Need::Run(call) => Outcome::Output(fake_tmux(call, "")),
                        Need::PathExists(_) | Need::PathIsDir(_) => Outcome::Flag(Ok(true)),
                        Need::CreateDir(_) => Outcome::Created(Ok(())),
                        Need::Canonicalize(p) => Outcome::Path(Ok(p.clone())),
                        Need::CurrentDir => Outcome::Path(Ok("/work/here".to_owned())),
                        Need::Ask(_) => Outcome::Line(Ok("\n".to_owned())),
                        Need::Pick { .. } => Outcome::Picked(Ok(None)),
                    },
                };
                step = flow.step(outcome);
            }
            FlowStep::Done(r) => return (log, r),
        }
    }
}

fn config_with(projects: Vec<ProjectConfig>) -> Config {
    let mut sessions = SessionTemplates::new();
    sessions.insert("default".to_owned(), template(&["default cmd"]));
    sessions.insert("rust".to_owned(), template(&["cargo check"]));
    let mut config = Config {
        projects_dir: "/tmp/projects".to_owned(),
        worktrees_dir: "/wt".to_owned(),
        default_session: "default".to_owned(),
        sessions,
        projects,
    };
    config.validate_and_normalize(&Ok("/home/me".to_owned())).expect("test config should validate");
    config
}

fn alpha_config() -> Config {
    config_with(vec![ProjectConfig {
        repository: "https://github.com/owner/alpha.git".to_owned(),
        name: None,
        path: Some("/p/alpha".to_owned()),
        default_session: None,
    }])
}

fn picker_config() -> Config {
    config_with(vec![
        ProjectConfig {
            repository: "git@github.com:owner/zeta.git".to_owned(),
            name: None,
            path: None,
            default_session: None,
        },
        ProjectConfig {
            repository: "https://github.com/owner/alpha.git".to_owned(),
            name: None,
            path: None,
            default_session: Some(piquelcli::ProjectSessionConfig::Template("rust".to_owned())),
        },
    ])
}

#[test]
fn opening_a_new_session_follows_the_template() {
    let t = SessionConfig {
        windows: vec![
            WindowConfig { name: None, commands: vec!["vim .".to_owned()] },
            WindowConfig { name: None, commands: vec!["cargo test".to_owned()] },
        ],
    };
    let (log, result) = drive_opener(open_session("alpha", "/p/alpha", &t), "");

    assert_eq!(result, Ok(()));
    assert_eq!(
        log,
        vec![
            "tmux list-sessions -F #{session_name}",
            "tmux new-session -d -c /p/alpha -s alpha",
            "tmux list-windows -t alpha -F #{window_id}",
            "tmux new-window -P -F #{window_id} -t alpha -c /p/alpha",
            "tmux send-keys -t window-id vim . Enter",
            "tmux new-window -P -F #{window_id} -t alpha -c /p/alpha",
            "tmux send-keys -t window-id cargo test Enter",
            "tmux kill-window -t bootstrap-window",
            "tmux select-window -t window-id",
            "tmux attach -t alpha",
        ]
    );
}

#[test]
fn opening_a_running_session_only_attaches() {
    let (log, result) = drive_opener(open_session("alpha", "/p", &template(&["x"])), "alpha\nbeta\n");

    assert_eq!(result, Ok(()));
    assert_eq!(log, vec!["tmux list-sessions -F #{session_name}", "tmux attach -t alpha"]);
}

#[test]
fn opening_with_an_invalid_name_runs_nothing() {
    let (log, result) = drive_opener(open_session("///", "/p", &template(&[])), "");

    assert!(log.is_empty());
    assert_eq!(result, Err(TmuxError::InvalidSessionName("///".to_owned())));
}

#[test]
fn failed_window_commands_name_the_window_and_command() {
    let (_, result) = drive_opener_with(open_session("alpha", "/p", &template(&["make"])), |call| {
        if line(call).starts_with("tmux send-keys") {
            failed(1, "bad key")
        } else {
            fake_tmux(call, "")
        }
    });
    assert_eq!(
        result,
        Err(TmuxError::Command(
            "Failed to create window 1 with error: Failed to execute command \"make\" with error: bad key".to_owned()
        ))
    );
}

#[test]
fn failed_session_creation_is_reported() {
    let (_, result) = drive_opener_with(open_session("alpha", "/p", &template(&[])), |call| {
        if line(call).starts_with("tmux new-session") {
            failed(1, "")
        } else {
            fake_tmux(call, "")
        }
    });
    assert_eq!(result, Err(TmuxError::Command("Failed to create session with name alpha".to_owned())));
}

#[test]
fn pick_routes_fzf_tmux_selection_to_attach() {
    let (log, result) = drive(pick(picker_config(), false, None, None), |need| match need {
        Need::Run(call) if line(call).starts_with("tmux list-sessions") => Some(Outcome::Output(ok("beta\n"))),
        Need::Pick { .. } => Some(Outcome::Picked(Ok(Some("beta".to_owned())))),
        _ => None,
    });

    assert_eq!(result, Ok(()));
    assert_eq!(
        log,
        vec!["tmux list-sessions -F #{session_name}", "pick piquel> alpha,beta,zeta", "tmux attach -t beta"]
    );
}

#[test]
fn pick_with_session_still_attaches_selected_tmux_session_unchanged() {
    let (log, result) = drive(pick(picker_config(), false, None, Some("rust".to_owned())), |need| match need {
        Need::Run(call) if line(call).starts_with("tmux list-sessions") => Some(Outcome::Output(ok("beta\n"))),
        Need::Pick { .. } => Some(Outcome::Picked(Ok(Some("beta".to_owned())))),
        _ => None,
    });

    assert_eq!(result, Ok(()));
    assert!(log.contains(&"tmux attach -t beta".to_owned()));
    assert!(!log.iter().any(|l| l.contains("cargo check")));
}

#[test]
fn pick_inside_tmux_refuses_to_attach() {
    let (_, result) = drive(pick(picker_config(), true, None, None), |need| match need {
        Need::Run(call) if line(call).starts_with("tmux list-sessions") => Some(Outcome::Output(ok("beta\n"))),
        Need::Pick { .. } => Some(Outcome::Picked(Ok(Some("beta".to_owned())))),
        _ => None,
    });

    assert_eq!(result, Err("Please do not use this command in tmux".to_owned()));
}

#[test]
fn project_load_creates_tmux_session_from_configured_template() {
    let (log, result) = drive(load_project(alpha_config(), false, "alpha", None, None), |_| None);

    assert_eq!(result, Ok(()));
    assert_eq!(
        log,
        vec![
            "exists /p/alpha",
            "is-dir /p/alpha",
            "tmux list-sessions -F #{session_name}",
            "tmux new-session -d -c /p/alpha -s alpha",
            "tmux list-windows -t alpha -F #{window_id}",
            "tmux new-window -P -F #{window_id} -t alpha -c /p/alpha",
            "tmux send-keys -t window-id default cmd Enter",
            "tmux kill-window -t bootstrap-window",
            "tmux select-window -t window-id",
            "tmux attach -t alpha",
        ]
    );
}

#[test]
fn project_load_rejects_missing_project_path_before_opening_tmux_session() {
    let (log, result) = drive(load_project(alpha_config(), false, "alpha", None, None), |need| match need {
        Need::PathExists(_) => Some(Outcome::Flag(Ok(false))),
        _ => None,
    });

    assert_eq!(
        result,
        Err("Project \"alpha\" path /p/alpha does not exist; clone cancelled".to_owned())
    );
    assert!(!log.iter().any(|l| l.starts_with("tmux")));
    assert_eq!(
        log[1],
        "ask Project \"alpha\" path /p/alpha does not exist. Clone https://github.com/owner/alpha.git there? [y/N] "
    );
}

#[test]
fn confirmed_clone_runs_git_clone_then_opens() {
    let mut asked = false;
    let (log, result) = drive(load_project(alpha_config(), false, "alpha", None, None), |need| match need {
        Need::PathExists(p) if p == "/p/alpha" && !asked => {
            asked = true;
            Some(Outcome::Flag(Ok(false)))
        }
        Need::Ask(_) => Some(Outcome::Line(Ok(" YES\n".to_owned()))),
        _ => None,
    });

    assert_eq!(result, Ok(()));
    assert_eq!(log[2], "mkdir /p");
    assert_eq!(log[3], "git clone https://github.com/owner/alpha.git /p/alpha");
    assert!(log.contains(&"tmux attach -t alpha".to_owned()));
}

#[test]
fn unknown_project_and_template_are_reported() {
    let (_, result) = drive(load_project(alpha_config(), false, "beta", None, None), |_| None);
    assert_eq!(result, Err("Project \"beta\" is not configured".to_owned()));

    let (_, result) = drive(load_project(alpha_config(), false, "alpha", Some("nope".to_owned()), None), |_| None);
    assert_eq!(result, Err("Session template \"nope\" is not configured".to_owned()));
}

#[test]
fn project_load_inside_tmux_is_refused() {
    let (log, result) = drive(load_project(alpha_config(), true, "alpha", None, None), |_| None);
    assert!(log.is_empty());
    assert_eq!(result, Err("Please do not use this command in tmux".to_owned()));
}

fn worktree_listing(project: &str, feature: Option<&str>) -> String {
    let mut text = format!("worktree {project}\nHEAD 1111\nbranch refs/heads/main\n\n");
    if let Some(path) = feature {
        text.push_str(&format!("worktree {path}\nHEAD 2222\nbranch refs/heads/feature/foo\n\n"));
    }
    text
}

#[test]
fn project_load_worktree_opens_requested_branch_worktree() {
    let (log, result) = drive(
        load_project(alpha_config(), false, "alpha", None, Some("feature/foo".to_owned())),
        |need| match need {
            Need::Run(call) if line(call).contains("for-each-ref") => Some(Outcome::Output(ok("main\nfeature/foo\n"))),
            Need::Run(call) if line(call).contains("worktree list") => {
                Some(Outcome::Output(ok(&worktree_listing("/p/alpha", Some("/w/alpha-feature")))))
            }
            _ => None,
        },
    );

    assert_eq!(result, Ok(()));
    assert!(log.contains(&"tmux new-session -d -c /w/alpha-feature -s alpha--feature_foo".to_owned()));
    assert!(log.contains(&"tmux attach -t alpha--feature_foo".to_owned()));
}

#[test]
fn project_load_worktree_creates_missing_managed_worktree() {
    let (log, result) = drive(
        load_project(alpha_config(), false, "alpha", None, Some("feature/foo".to_owned())),
        |need| match need {
            Need::Run(call) if line(call).contains("for-each-ref") => Some(Outcome::Output(ok("main\nfeature/foo\n"))),
            Need::Run(call) if line(call).contains("worktree list") => {
                Some(Outcome::Output(ok(&worktree_listing("/p/alpha", None))))
            }
            Need::PathExists(p) if p == "/wt/alpha/feature_foo" => Some(Outcome::Flag(Ok(false))),
            _ => None,
        },
    );

    assert_eq!(result, Ok(()));
    assert!(log.contains(&"mkdir /wt/alpha".to_owned()));
    assert!(log.contains(&"git -C /p/alpha worktree add /wt/alpha/feature_foo feature/foo".to_owned()));
    assert!(log.contains(&"tmux new-session -d -c /wt/alpha/feature_foo -s alpha--feature_foo".to_owned()));
}

#[test]
fn existing_unregistered_managed_path_is_refused() {
    let (_, result) = drive(
        load_project(alpha_config(), false, "alpha", None, Some("feature/foo".to_owned())),
        |need| match need {
            Need::Run(call) if line(call).contains("for-each-ref") => Some(Outcome::Output(ok("main\nfeature/foo\n"))),
            Need::Run(call) if line(call).contains("worktree list") => {
                Some(Outcome::Output(ok(&worktree_listing("/p/alpha", None))))
            }
            _ => None,
        },
    );

    assert_eq!(
        result,
        Err("Managed worktree path /wt/alpha/feature_foo already exists but is not registered for branch \"feature/foo\"".to_owned())
    );
}

#[test]
fn unknown_branch_is_refused() {
    let (_, result) = drive(
        load_project(alpha_config(), false, "alpha", None, Some("nope".to_owned())),
        |need| match need {
            Need::Run(call) if line(call).contains("for-each-ref") => Some(Outcome::Output(ok("main\n"))),
            _ => None,
        },
    );

    assert_eq!(result, Err("Branch \"nope\" is not a local branch for project \"alpha\"".to_owned()));
}

#[test]
fn pick_project_argument_skips_first_picker_and_shows_branch_picker() {
    let (log, result) = drive(pick(alpha_config(), false, Some("alpha".to_owned()), None), |need| match need {
        Need::Run(call) if line(call).contains("for-each-ref") => Some(Outcome::Output(ok("main\nfeature/foo\n"))),
        Need::Run(call) if line(call).contains("worktree list") => {
            Some(Outcome::Output(ok(&worktree_listing("/p/alpha", Some("/w/alpha-feature")))))
        }
        Need::Pick { .. } => Some(Outcome::Picked(Ok(Some("feature/foo".to_owned())))),
        _ => None,
    });

    assert_eq!(result, Ok(()));
    assert!(log.contains(&"pick branch> feature/foo,main".to_owned()));
    assert!(!log.iter().any(|l| l.starts_with("pick piquel> ")));
    assert!(log.contains(&"tmux new-session -d -c /w/alpha-feature -s alpha--feature_foo".to_owned()));
}

#[test]
fn pick_project_branch_checked_out_at_project_path_uses_branch_session_name() {
    let (log, result) = drive(open_project_interactive(alpha_config(), false, "alpha", None), |need| match need {
        Need::Run(call) if line(call).contains("for-each-ref") => Some(Outcome::Output(ok("main\n"))),
        Need::Run(call) if line(call).contains("worktree list") => {
            Some(Outcome::Output(ok(&worktree_listing("/p/alpha", None))))
        }
        Need::Pick { .. } => Some(Outcome::Picked(Ok(Some("main".to_owned())))),
        _ => None,
    });

    assert_eq!(result, Ok(()));
    assert!(log.contains(&"tmux new-session -d -c /p/alpha -s alpha--main".to_owned()));
}

#[test]
fn pick_project_with_no_local_branches_opens_project_session() {
    let (log, result) = drive(pick(alpha_config(), false, Some("alpha".to_owned()), None), |need| match need {
        Need::Run(call) if line(call).contains("for-each-ref") => Some(Outcome::Output(ok(""))),
        _ => None,
    });

    assert_eq!(result, Ok(()));
    assert!(log.contains(&"tmux new-session -d -c /p/alpha -s alpha".to_owned()));
}

#[test]
fn pick_session_override_applies_to_project_created_session() {
    let (log, result) = drive(pick(alpha_config(), false, Some("alpha".to_owned()), Some("rust".to_owned())), |need| {
        match need {
            Need::Run(call) if line(call).contains("for-each-ref") => Some(Outcome::Output(ok(""))),
            _ => None,
        }
    });

    assert_eq!(result, Ok(()));
    assert!(log.contains(&"tmux send-keys -t window-id cargo check Enter".to_owned()));
    assert!(!log.contains(&"tmux send-keys -t window-id default cmd Enter".to_owned()));
}

#[test]
fn pick_session_override_applies_after_selecting_project_from_first_picker() {
    let (log, result) = drive(pick(alpha_config(), false, None, Some("rust".to_owned())), |need| match need {
        Need::Run(call) if line(call).contains("for-each-ref") => Some(Outcome::Output(ok(""))),
        Need::Pick { .. } => Some(Outcome::Picked(Ok(Some("alpha".to_owned())))),
        _ => None,
    });

    assert_eq!(result, Ok(()));
    assert!(log.contains(&"pick piquel> alpha".to_owned()));
    assert!(log.contains(&"tmux send-keys -t window-id cargo check Enter".to_owned()));
}

#[test]
fn cancelled_picker_does_nothing() {
    let (log, result) = drive(pick(picker_config(), false, None, None), |_| None);
    assert_eq!(result, Ok(()));
    assert_eq!(log, vec!["tmux list-sessions -F #{session_name}", "pick piquel> alpha,zeta"]);
}

#[test]
fn session_in_working_directory_is_named_after_it() {
    let (log, result) = drive(session(alpha_config(), false, &Ok("/home/me".to_owned()), None, None, None), |_| None);

    assert_eq!(result, Ok(()));
    assert_eq!(log[0], "cwd");
    assert!(log.contains(&"tmux new-session -d -c /work/here -s here".to_owned()));
}

#[test]
fn session_path_and_name_are_used() {
    let (log, result) = drive(
        session(
            alpha_config(),
            false,
            &Ok("/home/me".to_owned()),
            Some("~/code".to_owned()),
            Some("rust".to_owned()),
            Some("dev".to_owned()),
        ),
        |_| None,
    );

    assert_eq!(result, Ok(()));
    assert_eq!(log[0], "exists /home/me/code");
    assert!(log.contains(&"tmux new-session -d -c /home/me/code -s dev".to_owned()));
    assert!(log.contains(&"tmux send-keys -t window-id cargo check Enter".to_owned()));
}

#[test]
fn session_path_must_be_a_directory() {
    let (_, result) = drive(
        session(alpha_config(), false, &Ok("/home/me".to_owned()), Some("/nope".to_owned()), None, None),
        |need| match need {
            Need::PathExists(_) => Some(Outcome::Flag(Ok(false))),
            _ => None,
        },
    );
    assert_eq!(result, Err("Session path \"/nope\" does not exist".to_owned()));

    let (_, result) = drive(
        session(alpha_config(), false, &Ok("/home/me".to_owned()), Some("/file".to_owned()), None, None),
        |need| match need {
            Need::PathIsDir(_) => Some(Outcome::Flag(Ok(false))),
            _ => None,
        },
    );
    assert_eq!(result, Err("Session path \"/file\" is not a directory".to_owned()));
}

#[test]
fn mismatched_outcome_is_an_error() {
    let (_, result) = drive(load_project(alpha_config(), false, "alpha", None, None), |_| {
        Some(Outcome::Created(Ok(())))
    });
    assert_eq!(result, Err("the reply does not answer the request".to_owned()));
}

#[test]
fn session_without_home_keeps_the_tilde_path() {
    let (log, result) = drive(
        session(alpha_config(), false, &Err(BackendError::HomeDirNotFound), Some("~/code".to_owned()), None, None),
        |need| match need {
            Need::PathExists(_) => Some(Outcome::Flag(Ok(false))),
            _ => None,
        },
    );
    assert_eq!(log[0], "exists ~/code");
    assert_eq!(result, Err("Session path \"~/code\" does not exist".to_owned()));
}

#[test]
fn session_path_messages_escape_the_path() {
    let (_, result) = drive(
        session(alpha_config(), false, &Ok("/home/me".to_owned()), Some("/a \"q\"\\b".to_owned()), None, None),
        |need| match need {
            Need::PathExists(_) => Some(Outcome::Flag(Ok(false))),
            _ => None,
        },
    );
    assert_eq!(result, Err("Session path \"/a \\\"q\\\"\\\\b\" does not exist".to_owned()));
}

#[test]
fn session_name_is_the_last_component() {
    let (log, result) = drive(
        session(alpha_config(), false, &Ok("/home/me".to_owned()), Some("/a/b/".to_owned()), None, None),
        |_| None,
    );
    assert_eq!(result, Ok(()));
    assert!(log.contains(&"tmux new-session -d -c /a/b/ -s b".to_owned()));

    let (_, result) = drive(session(alpha_config(), false, &Ok("/home/me".to_owned()), Some("/".to_owned()), None, None), |_| None);
    assert_eq!(result, Err("Could not derive session name from path \"/\"".to_owned()));
}
