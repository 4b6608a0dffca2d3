use piquelcli::cli::{build_pick_targets, PickTarget};

#[test]
fn picker_collision_prefers_tmux_session() {
    let (_, targets) = build_pick_targets(
        vec!["shared".to_owned()],
        vec!["shared".to_owned(), "project".to_owned()],
    );

    assert_eq!(
        targets.get("shared"),
        Some(&PickTarget::TmuxSession("shared".to_owned()))
    );
}

#[test]
fn picker_items_are_sorted_and_deduplicated() {
    let (items, _) = build_pick_targets(
        vec!["zeta".to_owned(), "alpha".to_owned()],
        vec!["zeta".to_owned(), "beta".to_owned()],
    );

    assert_eq!(items, vec!["alpha", "beta", "zeta"]);
}

#[test]
fn project_only_name_maps_to_project() {
    let (_, targets) = build_pick_targets(Vec::<String>::new(), vec!["project".to_owned()]);

    assert_eq!(
        targets.get("project"),
        Some(&PickTarget::Project("project".to_owned()))
    );
}

#[test]
fn tmux_only_name_maps_to_tmux_session() {
    let (_, targets) = build_pick_targets(vec!["session".to_owned()], Vec::<String>::new());

    assert_eq!(
        targets.get("session"),
        Some(&PickTarget::TmuxSession("session".to_owned()))
    );
}

#[test]
fn picker_unknown_name_has_no_target() {
    let (items, targets) = build_pick_targets(vec!["a".to_owned()], vec!["b".to_owned()]);

    assert_eq!(items, vec!["a", "b"]);
    assert_eq!(targets.get("c"), None);
}

#[test]
fn picker_repeated_session_names_are_listed_once() {
    let (items, targets) = build_pick_targets(
        vec!["b".to_owned(), "b".to_owned(), "a".to_owned()],
        vec![],
    );

    assert_eq!(items, vec!["a", "b"]);
    assert_eq!(targets.get("b"), Some(&PickTarget::TmuxSession("b".to_owned())));
}
