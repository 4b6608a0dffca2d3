use piquelcli::backend::{CommandOutput, ExitStatus};
use piquelcli::cli::{branch_session_name, clone_prompt, config_path, confirms_clone, sorted_session_names};

#[test]
fn config_path_prefers_flag_then_environment_then_home() {
    assert_eq!(
        config_path(Some("/a.json".to_owned()), Some("/b.json".to_owned()), Some("/home/me".to_owned())),
        Ok("/a.json".to_owned())
    );
    assert_eq!(
        config_path(None, Some("/b.json".to_owned()), Some("/home/me".to_owned())),
        Ok("/b.json".to_owned())
    );
    assert_eq!(
        config_path(None, None, Some("/home/me".to_owned())),
        Ok("/home/me/.config/piquel/config.json".to_owned())
    );
    assert_eq!(config_path(None, None, None), Err("home directory not found".to_owned()));
}

#[test]
fn clone_answers_are_yes_in_any_case() {
    for yes in ["y", "Y", "yes", "YES", " Yes \n"] {
        assert!(confirms_clone(yes), "{yes:?} agrees");
    }
    for no in ["", "\n", "n", "no", "yeah", "ye", "y e s"] {
        assert!(!confirms_clone(no), "{no:?} does not agree");
    }
}

#[test]
fn clone_prompt_names_project_path_and_repository() {
    assert_eq!(
        clone_prompt("alpha", "/p/alpha", "git@x:alpha.git"),
        "Project \"alpha\" path /p/alpha does not exist. Clone git@x:alpha.git there? [y/N] "
    );
}

#[test]
fn branch_sessions_join_project_and_branch() {
    assert_eq!(branch_session_name("alpha", "feature/foo"), "alpha--feature/foo");
}

#[test]
fn list_prints_sorted_deduplicated_tmux_sessions() {
    let output = CommandOutput {
        status: ExitStatus { code: Some(0), description: "exit status: 0".to_owned() },
        stdout: b"zeta\nalpha\nzeta\n".to_vec(),
        stderr: vec![],
    };
    assert_eq!(sorted_session_names(&output).expect("listing parses"), vec!["alpha", "zeta"]);
}
