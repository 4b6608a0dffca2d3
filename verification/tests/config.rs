use piquelcli::backend::BackendError;
use piquelcli::config::ConfigError;
use piquelcli::{Config, ProjectConfig, ProjectSessionConfig, SessionConfig, SessionTemplates, WindowConfig};

fn window() -> WindowConfig {
    WindowConfig {
        name: None,
        commands: vec![],
    }
}

fn session() -> SessionConfig {
    SessionConfig {
        windows: vec![window()],
    }
}

fn templates(entries: Vec<(&str, SessionConfig)>) -> SessionTemplates {
    let mut t = SessionTemplates::new();
    for (name, s) in entries {
        t.insert(name.to_owned(), s);
    }
    t
}

fn config_with_default() -> Config {
    Config {
        projects_dir: "~/Projects".to_owned(),
        worktrees_dir: "~/.piquel/worktrees".to_owned(),
        default_session: "default".to_owned(),
        sessions: templates(vec![("default", session())]),
        projects: vec![],
    }
}

fn home() -> Result<String, BackendError> {
    Ok("/home/tester".to_owned())
}

#[test]
fn expands_projects_dir_worktrees_dir_and_project_path() {
    let mut config = config_with_default();
    config.projects.push(ProjectConfig {
        repository: "git@github.com:owner/repo.git".to_owned(),
        name: None,
        path: Some("~/src/repo".to_owned()),
        default_session: None,
    });

    config.validate_and_normalize(&home()).expect("config should validate");

    assert_eq!(config.projects_dir, "/home/tester/Projects");
    assert_eq!(config.worktrees_dir, "/home/tester/.piquel/worktrees");
    assert_eq!(config.projects[0].path, Some("/home/tester/src/repo".to_owned()));
}

#[test]
fn missing_home_fails_expansion() {
    let mut config = config_with_default();
    let err = config
        .validate_and_normalize(&Err(BackendError::HomeDirNotFound))
        .expect_err("~ needs a home directory");

    assert_eq!(err, ConfigError::Backend(BackendError::HomeDirNotFound));
    assert_eq!(err.message(), "home directory not found");
}

#[test]
fn derives_project_name_from_repository_basename() {
    for (repository, expected) in [
        ("git@github.com:owner/repo.git", "repo"),
        ("https://github.com/owner/repo.git", "repo"),
        ("https://github.com/owner/repo", "repo"),
        ("ssh://git@example.com/owner/repo.git/", "repo"),
        ("  https://github.com/owner/repo.git///  ", "repo"),
    ] {
        let project = ProjectConfig {
            repository: repository.to_owned(),
            name: None,
            path: None,
            default_session: None,
        };

        assert_eq!(project.resolved_name().expect("project name should resolve"), expected);
    }
}

#[test]
fn invalid_repository_basename_fails_project_name_resolution() {
    for repository in ["", "   ", "git@example.com:owner/.."] {
        let project = ProjectConfig {
            repository: repository.to_owned(),
            name: None,
            path: None,
            default_session: None,
        };

        assert!(
            project.resolved_name().is_err(),
            "{repository:?} should not resolve to a safe project name"
        );
    }
}

#[test]
fn project_names_must_be_safe_path_segments() {
    for name in ["", "   ", ".", "..", "owner/repo", r"owner\repo", "repo:name"] {
        let project = ProjectConfig {
            repository: "https://github.com/owner/repo.git".to_owned(),
            name: Some(name.to_owned()),
            path: None,
            default_session: None,
        };

        assert!(project.resolved_name().is_err(), "{name:?} should be rejected");
    }
}

#[test]
fn unsafe_project_name_message() {
    let project = ProjectConfig {
        repository: "https://github.com/owner/alpha.git".to_owned(),
        name: Some("../alpha".to_owned()),
        path: None,
        default_session: None,
    };

    let err = project.resolved_name().expect_err("../alpha is unsafe");
    assert_eq!(err.message(), "\"../alpha\" is not a valid project name");
}

#[test]
fn missing_global_default_session_fails_validation() {
    let mut config = Config {
        projects_dir: "~/Projects".to_owned(),
        worktrees_dir: "~/.piquel/worktrees".to_owned(),
        default_session: "missing".to_owned(),
        sessions: templates(vec![("default", session())]),
        projects: vec![],
    };

    assert!(config.validate_and_normalize(&home()).is_err());
}

#[test]
fn invalid_session_template_names_fail_validation() {
    for name in ["", "   ", "project:branch"] {
        let mut config = Config {
            projects_dir: "~/Projects".to_owned(),
            worktrees_dir: "~/.piquel/worktrees".to_owned(),
            default_session: name.to_owned(),
            sessions: templates(vec![(name, session())]),
            projects: vec![],
        };

        assert!(
            config.validate_and_normalize(&home()).is_err(),
            "{name:?} should be rejected as a template name"
        );
    }
}

#[test]
fn empty_session_template_windows_fail_validation() {
    let mut config = Config {
        projects_dir: "~/Projects".to_owned(),
        worktrees_dir: "~/.piquel/worktrees".to_owned(),
        default_session: "default".to_owned(),
        sessions: templates(vec![("default", SessionConfig { windows: vec![] })]),
        projects: vec![],
    };

    assert!(config.validate_and_normalize(&home()).is_err());
}

#[test]
fn duplicate_resolved_project_names_fail_validation() {
    let mut config = config_with_default();
    config.projects = vec![
        ProjectConfig {
            repository: "git@github.com:owner/repo.git".to_owned(),
            name: None,
            path: None,
            default_session: None,
        },
        ProjectConfig {
            repository: "https://github.com/other/repo.git".to_owned(),
            name: None,
            path: None,
            default_session: None,
        },
    ];

    let err = config.validate_and_normalize(&home()).expect_err("duplicate names");
    assert_eq!(err.message(), "Duplicate project name \"repo\"");
}

#[test]
fn project_default_session_must_exist() {
    let mut config = config_with_default();
    config.projects.push(ProjectConfig {
        repository: "git@github.com:owner/repo.git".to_owned(),
        name: None,
        path: None,
        default_session: Some(ProjectSessionConfig::Template("missing".to_owned())),
    });

    let err = config.validate_and_normalize(&home()).expect_err("missing template");
    assert_eq!(
        err.message(),
        "Project \"repo\" references unknown session template \"missing\""
    );
}

#[test]
fn project_default_session_can_be_inline() {
    let mut config = config_with_default();
    config.projects.push(ProjectConfig {
        repository: "git@github.com:owner/repo.git".to_owned(),
        name: None,
        path: None,
        default_session: Some(ProjectSessionConfig::Inline(SessionConfig {
            windows: vec![WindowConfig {
                name: None,
                commands: vec!["cargo check".to_owned()],
            }],
        })),
    });

    config.validate_and_normalize(&home()).expect("config should validate");
    let project = config.project("repo").expect("project should resolve");

    assert!(matches!(project.default_session, ProjectSessionConfig::Inline(_)));
}

#[test]
fn inline_project_default_session_must_have_windows() {
    let mut config = config_with_default();
    config.projects.push(ProjectConfig {
        repository: "git@github.com:owner/repo.git".to_owned(),
        name: None,
        path: None,
        default_session: Some(ProjectSessionConfig::Inline(SessionConfig { windows: vec![] })),
    });

    assert!(config.validate_and_normalize(&home()).is_err());
}

#[test]
fn blank_window_names_fail_validation() {
    let mut config = config_with_default();
    config.sessions.insert(
        "default".to_owned(),
        SessionConfig {
            windows: vec![WindowConfig {
                name: Some("   ".to_owned()),
                commands: vec![],
            }],
        },
    );

    let err = config.validate_and_normalize(&home()).expect_err("blank window name");
    assert_eq!(
        err.message(),
        "Window 1 in session template \"default\" has an empty name. If you don't want to specify a name, remove the field."
    );
}

#[test]
fn project_path_defaults_to_projects_dir_and_project_name() {
    let mut config = config_with_default();
    config.projects_dir = "/tmp/projects".to_owned();
    config.projects.push(ProjectConfig {
        repository: "git@github.com:owner/repo.git".to_owned(),
        name: None,
        path: None,
        default_session: None,
    });

    config.validate_and_normalize(&home()).expect("config should validate");

    assert_eq!(config.projects[0].path, Some("/tmp/projects/repo".to_owned()));
}

#[test]
fn project_lookup_returns_normalized_project_data() {
    let mut config = config_with_default();
    config.projects_dir = "/tmp/projects".to_owned();
    config.projects.push(ProjectConfig {
        repository: "git@github.com:owner/repo.git".to_owned(),
        name: None,
        path: None,
        default_session: Some(ProjectSessionConfig::Template("default".to_owned())),
    });

    config.validate_and_normalize(&home()).expect("config should validate");
    let project = config.project("repo").expect("project should exist");

    assert_eq!(project.repository, "git@github.com:owner/repo.git");
    assert_eq!(project.name, "repo");
    assert_eq!(project.path, "/tmp/projects/repo");
    assert_eq!(project.default_session, ProjectSessionConfig::Template("default".to_owned()));
}

#[test]
fn project_session_template_prefers_override_then_project_default() {
    let mut config = config_with_default();
    config.sessions.insert(
        "rust".to_owned(),
        SessionConfig {
            windows: vec![WindowConfig {
                name: Some("rust".to_owned()),
                commands: vec!["cargo check".to_owned()],
            }],
        },
    );
    config.projects.push(ProjectConfig {
        repository: "git@github.com:owner/repo.git".to_owned(),
        name: None,
        path: None,
        default_session: Some(ProjectSessionConfig::Template("rust".to_owned())),
    });
    config.validate_and_normalize(&home()).expect("config should validate");
    let project = config.project("repo").expect("project should exist");

    let default = config
        .project_session_template(&project, None)
        .expect("project default should resolve");
    let override_template = config
        .project_session_template(&project, Some("default"))
        .expect("override should resolve");

    assert_eq!(default.windows[0].name.as_deref(), Some("rust"));
    assert_eq!(override_template.windows[0].name, None);
    assert!(config.project_session_template(&project, Some("missing")).is_none());
}

#[test]
fn project_names_keep_configured_order() {
    let mut config = config_with_default();
    config.projects_dir = "/tmp/projects".to_owned();
    for repo in ["git@github.com:owner/zeta.git", "https://github.com/owner/alpha.git"] {
        config.projects.push(ProjectConfig {
            repository: repo.to_owned(),
            name: None,
            path: None,
            default_session: None,
        });
    }
    config.validate_and_normalize(&home()).expect("config should validate");

    assert_eq!(config.project_names(), vec!["zeta", "alpha"]);
    assert_eq!(piquelcli::cli::list_projects(&config), vec!["alpha", "zeta"]);
}

#[test]
fn templates_insert_replaces_by_name() {
    let mut t = SessionTemplates::new();
    t.insert("a".to_owned(), session());
    t.insert("a".to_owned(), SessionConfig { windows: vec![] });
    assert_eq!(t.len(), 1);
    assert!(t.contains("a"));
    assert!(t.get("a").expect("a is there").windows.is_empty());
    assert!(t.get("b").is_none());
}

#[test]
fn normalizing_twice_changes_nothing() {
    let mut config = config_with_default();
    config.projects.push(ProjectConfig {
        repository: "git@github.com:owner/repo.git".to_owned(),
        name: None,
        path: Some("~/src/repo".to_owned()),
        default_session: None,
    });
    config.projects.push(ProjectConfig {
        repository: "https://example.com/other.git".to_owned(),
        name: Some("other".to_owned()),
        path: None,
        default_session: Some(ProjectSessionConfig::Template("default".to_owned())),
    });
    config.validate_and_normalize(&home()).expect("config should validate");
    let once = format!("{config:?}");
    config.validate_and_normalize(&home()).expect("normalized config should validate again");
    assert_eq!(format!("{config:?}"), once);
    assert_eq!(config.projects[1].path, Some("/home/tester/Projects/other".to_owned()));
}

#[test]
fn home_is_needed_only_for_tilde_paths() {
    let mut config = config_with_default();
    assert!(config.needs_home());
    config.projects_dir = "/srv/projects".to_owned();
    config.worktrees_dir = "/srv/worktrees".to_owned();
    config.projects.push(ProjectConfig {
        repository: "https://example.com/tool.git".to_owned(),
        name: None,
        path: Some("~x/tool".to_owned()),
        default_session: None,
    });
    assert!(!config.needs_home());

    let mut with_home = Config {
        projects_dir: config.projects_dir.clone(),
        worktrees_dir: config.worktrees_dir.clone(),
        default_session: config.default_session.clone(),
        sessions: templates(vec![("default", session())]),
        projects: vec![ProjectConfig {
            repository: "https://example.com/tool.git".to_owned(),
            name: None,
            path: Some("~x/tool".to_owned()),
            default_session: None,
        }],
    };
    config.validate_and_normalize(&Err(BackendError::HomeDirNotFound)).expect("no home needed");
    with_home.validate_and_normalize(&home()).expect("home unused");
    assert_eq!(format!("{config:?}"), format!("{with_home:?}"));
    assert_eq!(config.projects[0].path, Some("~x/tool".to_owned()));

    config.projects[0].path = Some("~".to_owned());
    assert!(config.needs_home());
}

#[test]
fn normalizing_twice_with_an_empty_home_changes_nothing() {
    let mut config = config_with_default();
    config.projects_dir = "~/a".to_owned();
    config.projects.push(ProjectConfig {
        repository: "https://example.com/tool.git".to_owned(),
        name: None,
        path: None,
        default_session: None,
    });
    let empty_home: Result<String, BackendError> = Ok(String::new());
    config.validate_and_normalize(&empty_home).expect("config should validate");
    assert_eq!(config.projects_dir, "a");
    assert_eq!(config.projects[0].path, Some("a/tool".to_owned()));
    let once = format!("{config:?}");
    config.validate_and_normalize(&empty_home).expect("normalized config should validate again");
    assert_eq!(format!("{config:?}"), once);
}
