use todo_core::filter::FilterMode;

#[test]
fn modes_are_named_as_the_actions_spell_them() {
    assert_eq!(FilterMode::from("all"), FilterMode::All);
    assert_eq!(FilterMode::from("unresolved"), FilterMode::Unresolved);
    assert_eq!(FilterMode::from("done"), FilterMode::Done);
    assert_eq!(FilterMode::All.into(), "all");
    assert_eq!(FilterMode::Unresolved.into(), "unresolved");
    assert_eq!(FilterMode::Done.into(), "done");
}

#[test]
fn every_mode_is_found_again_by_its_name() {
    for mode in [FilterMode::All, FilterMode::Unresolved, FilterMode::Done] {
        assert_eq!(FilterMode::parse(mode.into()), Some(mode));
        assert_eq!(FilterMode::from(mode.into()), mode);
    }
}

#[test]
fn other_names_are_no_mode() {
    assert_eq!(FilterMode::parse(""), None);
    assert_eq!(FilterMode::parse("All"), None);
    assert_eq!(FilterMode::parse("done "), None);
    assert_eq!(FilterMode::parse("resolved"), None);
}

#[test]
fn the_default_mode_shows_all() {
    assert_eq!(FilterMode::default(), FilterMode::All);
}

#[test]
fn modes_show_tasks_by_whether_they_are_done() {
    assert!(FilterMode::All.admits(true));
    assert!(FilterMode::All.admits(false));
    assert!(!FilterMode::Unresolved.admits(true));
    assert!(FilterMode::Unresolved.admits(false));
    assert!(FilterMode::Done.admits(true));
    assert!(!FilterMode::Done.admits(false));
}

#[test]
fn a_filter_is_announced_and_none_is_not() {
    assert_eq!(FilterMode::All.banner(), None);
    assert_eq!(FilterMode::Unresolved.banner(), Some("Filter: Displaying unresolved tasks"));
    assert_eq!(FilterMode::Done.banner(), Some("Filter: Displaying done tasks"));
}
