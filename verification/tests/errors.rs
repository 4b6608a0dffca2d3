use piquelcli::backend::BackendError;
use piquelcli::config::ConfigError;
use piquelcli::git::GitError;
use piquelcli::tmux::TmuxError;

#[test]
fn backend_error_messages() {
    assert_eq!(BackendError::Io("denied".to_owned()).message(), "IO error: denied");
    assert_eq!(BackendError::HomeDirNotFound.message(), "home directory not found");
    assert_eq!(
        BackendError::MissingProgram("tmux".to_owned()).message(),
        "tmux is not installed or not available in PATH"
    );
}

#[test]
fn config_error_messages() {
    assert_eq!(
        ConfigError::FileNotFound("/tmp/missing.json".to_owned()).message(),
        "Config file /tmp/missing.json does not exist"
    );
    assert_eq!(
        ConfigError::ParseError("unknown field `root`".to_owned()).message(),
        "Failed to parse config: unknown field `root`"
    );
    assert_eq!(ConfigError::Validation("bad".to_owned()).message(), "bad");
    assert_eq!(ConfigError::Backend(BackendError::HomeDirNotFound).message(), "home directory not found");
}

#[test]
fn git_error_messages() {
    assert_eq!(GitError::Io("x".to_owned()).message(), "IO error: x");
    assert_eq!(GitError::Command("fatal".to_owned()).message(), "fatal");
    assert_eq!(GitError::MissingProjectPath("/p".to_owned()).message(), "Project path /p does not exist");
    assert_eq!(
        GitError::MissingWorktree { branch: "b".to_owned(), project_path: "/p".to_owned() }.message(),
        "No local git worktree for branch \"b\" exists under /p"
    );
    assert_eq!(
        GitError::InvalidManagedWorktreeBranch("  ".to_owned()).message(),
        "Branch \"  \" cannot be used as a managed worktree path segment"
    );
    assert_eq!(
        GitError::ManagedWorktreePathConflict { path: "/w".to_owned(), branch: "b".to_owned() }.message(),
        "Managed worktree path /w already exists but is not registered for branch \"b\""
    );
    assert_eq!(GitError::Parse("p".to_owned()).message(), "p");
}

#[test]
fn tmux_error_messages() {
    assert_eq!(TmuxError::Io("gone".to_owned()).message(), "IO error: gone");
    assert_eq!(TmuxError::Command("boom".to_owned()).message(), "boom");
    assert_eq!(TmuxError::InTmux.message(), "Please do not use this command in tmux");
    assert_eq!(
        TmuxError::InvalidSessionName("///".to_owned()).message(),
        "\"///\" is not a valid tmux session name"
    );
}

#[test]
fn backend_failures_become_tmux_errors() {
    assert_eq!(TmuxError::from_backend(BackendError::Io("gone".to_owned())), TmuxError::Io("gone".to_owned()));
    assert_eq!(
        TmuxError::from_backend(BackendError::MissingProgram("tmux".to_owned())),
        TmuxError::Command("tmux is not installed or not available in PATH".to_owned())
    );
}
