use piquelcli::backend::{CommandOutput, ExitStatus};
use piquelcli::git::{
    branch_worktree_choices, find_worktree, find_worktree_in, has_additional_worktrees, managed_worktree_path,
    managed_worktree_path_for_branch, parse_local_branches, parse_local_branches_output, parse_worktrees,
    sanitized_branch_segment, worktree_for_branch, GitError, Worktree,
};
use piquelcli::tmux::sanitize_session_name;

fn worktree(path: &str, branch: Option<&str>) -> Worktree {
    Worktree {
        path: path.to_owned(),
        branch: branch.map(str::to_owned),
    }
}

fn output(code: i32, stdout: &str, stderr: &str) -> CommandOutput {
    CommandOutput {
        status: ExitStatus { code: Some(code), description: format!("exit status: {code}") },
        stdout: stdout.as_bytes().to_vec(),
        stderr: stderr.as_bytes().to_vec(),
    }
}

#[test]
fn parses_multiple_worktrees_and_branch_names_with_slashes() {
    let output = "\
worktree /home/me/Projects/repo
HEAD 1111111111111111111111111111111111111111
branch refs/heads/main

worktree /home/me/Projects/repo-feature
HEAD 2222222222222222222222222222222222222222
branch refs/heads/feature/foo

";

    let worktrees = parse_worktrees(output).expect("worktree output should parse");

    assert_eq!(
        worktrees,
        vec![
            Worktree {
                path: "/home/me/Projects/repo".to_owned(),
                branch: Some("main".to_owned())
            },
            Worktree {
                path: "/home/me/Projects/repo-feature".to_owned(),
                branch: Some("feature/foo".to_owned())
            }
        ]
    );
}

#[test]
fn detached_worktrees_have_no_branch() {
    let output = "\
worktree /home/me/Projects/repo-detached
HEAD 3333333333333333333333333333333333333333
detached

";

    let worktrees = parse_worktrees(output).expect("worktree output should parse");

    assert_eq!(worktrees[0].branch, None);
}

#[test]
fn exact_branch_lookup_ignores_detached_head() {
    let output = "\
worktree /home/me/Projects/repo
HEAD 1111111111111111111111111111111111111111
branch refs/heads/main

worktree /home/me/Projects/repo-detached
HEAD 3333333333333333333333333333333333333333
detached

";

    let worktrees = parse_worktrees(output).expect("worktree output should parse");
    let found = find_worktree_in(worktrees, "/home/me/Projects/repo", "main").expect("main worktree should exist");

    assert_eq!(found.path, "/home/me/Projects/repo");
}

#[test]
fn missing_branch_returns_an_error() {
    let output = "\
worktree /home/me/Projects/repo
HEAD 1111111111111111111111111111111111111111
branch refs/heads/main

worktree /home/me/Projects/repo-detached
HEAD 3333333333333333333333333333333333333333
detached

";

    let err = find_worktree_in(
        parse_worktrees(output).expect("worktree output should parse"),
        "/home/me/Projects/repo",
        "feature/foo",
    )
    .expect_err("missing branch should return an error");

    assert!(err.message().contains("feature/foo"));
}

#[test]
fn parses_and_sorts_local_branches() {
    let branches = parse_local_branches(
        "\
zeta
feature/foo

main
",
    );

    assert_eq!(branches, vec!["feature/foo", "main", "zeta"]);
}

#[test]
fn parses_empty_local_branch_list() {
    assert!(parse_local_branches("\n").is_empty());
}

#[test]
fn worktree_for_branch_matches_exact_branch() {
    let worktrees = vec![
        worktree("/repo", Some("main")),
        worktree("/repo-feature", Some("feature/foo")),
        worktree("/repo-featured", Some("feature")),
    ];

    let found = worktree_for_branch(&worktrees, "feature/foo").expect("branch worktree should exist");

    assert_eq!(found.path, "/repo-feature");
}

#[test]
fn generates_managed_worktree_path() {
    let path = managed_worktree_path("/worktrees", "alpha", "feature/foo").expect("managed path should be generated");

    assert_eq!(path, "/worktrees/alpha/feature_foo");
}

#[test]
fn rejects_empty_managed_worktree_path_segment() {
    let err = managed_worktree_path("/worktrees", "alpha", "   ").expect_err("empty branch should be rejected");

    assert!(matches!(err, GitError::InvalidManagedWorktreeBranch(_)));
}

#[test]
fn rejects_existing_unregistered_managed_worktree_path() {
    let err = managed_worktree_path_for_branch("/tmp/piquel-git-test", "alpha", "feature/foo", &[], true, &[])
        .expect_err("existing unregistered path should be rejected");

    assert!(matches!(err, GitError::ManagedWorktreePathConflict { .. }));
}

#[test]
fn existing_registered_managed_worktree_path_is_reused() {
    let worktrees = vec![worktree("/tmp/wt/alpha/feature_foo", Some("feature/foo"))];
    let path = managed_worktree_path_for_branch("/tmp/wt", "alpha", "feature/foo", &worktrees, true, &[])
        .expect("registered path should be reused");

    assert_eq!(path, "/tmp/wt/alpha/feature_foo");
}

#[test]
fn missing_managed_worktree_path_is_free() {
    let path = managed_worktree_path_for_branch("/tmp/wt", "alpha", "feature/foo", &[], false, &[])
        .expect("a missing path is free");

    assert_eq!(path, "/tmp/wt/alpha/feature_foo");
}

#[test]
fn worktree_picker_includes_all_branch_worktrees() {
    let worktrees = vec![
        worktree("/repo", Some("main")),
        worktree("/repo-feature", Some("feature/foo")),
    ];

    let choices = branch_worktree_choices(&worktrees)
        .into_iter()
        .map(|(branch, _)| branch)
        .collect::<Vec<_>>();

    assert_eq!(choices, vec!["feature/foo", "main"]);
}

#[test]
fn detached_worktrees_are_excluded_from_picker_choices() {
    let worktrees = vec![
        worktree("/repo", Some("main")),
        worktree("/repo-detached", None),
    ];

    let choices = branch_worktree_choices(&worktrees)
        .into_iter()
        .map(|(branch, _)| branch)
        .collect::<Vec<_>>();

    assert_eq!(choices, vec!["main"]);
}

#[test]
fn no_additional_branch_worktrees_falls_back_to_project_root() {
    let project_path = "/repo";
    let worktrees = vec![
        worktree("/repo", Some("main")),
        worktree("/repo-detached", None),
    ];

    assert!(!has_additional_worktrees(project_path, &worktrees, &[]));
}

#[test]
fn additional_branch_worktrees_trigger_worktree_picker() {
    let project_path = "/repo";

    assert!(has_additional_worktrees(
        project_path,
        &[
            worktree("/repo", Some("main")),
            worktree("/repo-feature", Some("feature/foo"))
        ],
        &[]
    ));
    assert!(has_additional_worktrees(
        project_path,
        &[worktree("/repo-feature", Some("feature/foo"))],
        &[]
    ));
}

#[test]
fn canonical_forms_make_paths_the_same() {
    let canonical = vec![
        ("/link".to_owned(), "/repo".to_owned()),
        ("/repo".to_owned(), "/repo".to_owned()),
    ];

    assert!(!has_additional_worktrees("/repo", &[worktree("/link", Some("main"))], &canonical));
    assert!(has_additional_worktrees("/repo", &[worktree("/link", Some("main"))], &[]));
}

#[test]
fn branch_before_worktree_path_is_a_parse_error() {
    let err = parse_worktrees("branch refs/heads/main\n").expect_err("branch first should fail");

    assert_eq!(err, GitError::Parse("Found git worktree branch before worktree path".to_owned()));
}

#[test]
fn failed_branch_listing_reports_git_output() {
    let err = parse_local_branches_output(&output(128, "", "fatal: not a git repository\n"))
        .expect_err("failed git should be an error");

    assert_eq!(err, GitError::Command("fatal: not a git repository\n".to_owned()));
    assert_eq!(
        parse_local_branches_output(&output(0, "b\na\n", "")).expect("listing should parse"),
        vec!["a", "b"]
    );
}

#[test]
fn find_worktree_reads_porcelain_output() {
    let text = "worktree /repo\nbranch refs/heads/main\n\n";
    let found = find_worktree(&output(0, text, ""), "/repo", "main").expect("main should be found");
    assert_eq!(found.path, "/repo");

    let err = find_worktree(&output(0, text, ""), "/repo", "dev").expect_err("dev has no worktree");
    assert_eq!(err.message(), "No local git worktree for branch \"dev\" exists under /repo");
}

#[test]
fn branch_segments_are_sanitised_like_session_names() {
    for input in ["feature/foo", "  a b  ", "x//y", "///", "release-1.2_rc", "__a__", ""] {
        assert_eq!(sanitized_branch_segment(input), sanitize_session_name(input));
    }
    assert_eq!(sanitized_branch_segment("feature/foo"), "feature_foo");
    assert_eq!(sanitized_branch_segment("  a b  "), "a_b");
}
