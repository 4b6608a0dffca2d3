use piquelcli::backend::BackendError;
use piquelcli::paths::{expand_home, join, needs_home, path_eq, program_is_path};

#[test]
fn join_appends_relative_and_replaces_with_absolute() {
    assert_eq!(join("/a", "b"), "/a/b");
    assert_eq!(join("/a/", "b"), "/a/b");
    assert_eq!(join("", "b"), "b");
    assert_eq!(join("/a", "/b"), "/b");
}

#[test]
fn tilde_expansion_uses_home_only_for_a_leading_tilde_component() {
    let home = Ok("/home/me".to_owned());
    assert_eq!(expand_home("~/code", &home), Ok("/home/me/code".to_owned()));
    assert_eq!(expand_home("~", &home), Ok("/home/me/".to_owned()));
    assert_eq!(expand_home("~x/code", &home), Ok("~x/code".to_owned()));
    assert_eq!(expand_home("/abs", &Err(BackendError::HomeDirNotFound)), Ok("/abs".to_owned()));
    assert_eq!(expand_home("~/code", &Err(BackendError::HomeDirNotFound)), Err(BackendError::HomeDirNotFound));
    assert!(needs_home("~/code"));
    assert!(needs_home("~"));
    assert!(!needs_home("~x"));
    assert!(!needs_home("/home/~"));
}

#[test]
fn paths_compare_by_components() {
    assert!(path_eq("/a/b", "/a//b/"));
    assert!(path_eq("a/./b", "a/b"));
    assert!(!path_eq("./a", "a"));
    assert!(!path_eq("/a", "a"));
}

#[test]
fn programs_named_by_paths_are_recognised() {
    assert!(program_is_path("/usr/bin/fzf"));
    assert!(program_is_path("./fzf"));
    assert!(program_is_path("bin/fzf"));
    assert!(!program_is_path("fzf"));
}
