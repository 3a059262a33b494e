use haze::error::Error;
use haze::world::{LocalWorld, PathScan, PatternScan, WalkEntry, WorldManager};

fn text(value: &str) -> String {
    value.to_string()
}

fn found(pattern: &str, paths: &[&str]) -> PatternScan {
    PatternScan {
        pattern: text(pattern),
        outcome: Ok(paths.iter().map(|path| PathScan::Found(text(path))).collect()),
    }
}

fn invalid(pattern: &str, source: &str) -> PatternScan {
    PatternScan { pattern: text(pattern), outcome: Err(text(source)) }
}

fn directory(path: &str) -> WalkEntry {
    WalkEntry::Directory(text(path))
}

fn world(name: &str, path: &str) -> LocalWorld {
    LocalWorld { name: text(name), path: text(path) }
}

#[test]
fn one_local_world_for_each_matched_path() {
    let scans = vec![
        found("worlds/*", &["worlds/bar", "worlds/foo"]),
        found("more/*", &[]),
        found("other/*/", &["other/baz/"]),
    ];
    let manager = WorldManager::new(scans, vec![], text("target")).unwrap();

    assert_eq!(
        manager.local_worlds(),
        &vec![
            world("bar", "worlds/bar"),
            world("foo", "worlds/foo"),
            world("baz", "other/baz/"),
        ]
    );
    assert!(manager.com_mojang_worlds().is_empty());
    assert_eq!(manager.com_mojang(), "target");
}

#[test]
fn nothing_matched_makes_an_empty_registry() {
    let manager = WorldManager::new(vec![], vec![], text("target")).unwrap();
    assert!(manager.local_worlds().is_empty());
    assert!(manager.com_mojang_worlds().is_empty());
}

#[test]
fn a_shared_name_is_a_conflict_of_both_paths() {
    let scans = vec![
        found("a/*", &["a/one", "a/two"]),
        found("b/*", &["b/three", "b/two", "b/one"]),
    ];
    let error = WorldManager::new(scans, vec![], text("target")).unwrap_err();

    assert_eq!(
        error,
        Error::LocalWorldNameConflict { world_a: text("b/two"), world_b: text("a/two") }
    );
}

#[test]
fn the_same_path_matched_twice_is_a_conflict() {
    let scans = vec![found("worlds/*", &["worlds/foo"]), found("worlds/f*", &["worlds/foo"])];
    let error = WorldManager::new(scans, vec![], text("target")).unwrap_err();

    assert_eq!(
        error,
        Error::LocalWorldNameConflict { world_a: text("worlds/foo"), world_b: text("worlds/foo") }
    );
}

#[test]
fn the_first_invalid_pattern_wins_over_everything() {
    let scans = vec![
        found("a/*", &["a/one", "b/one"]),
        invalid("a/***", "first"),
        PatternScan {
            pattern: text("c/*"),
            outcome: Ok(vec![PathScan::Unreadable { path: text("c"), source: text("denied") }]),
        },
        invalid("[", "second"),
    ];
    let walk = vec![WalkEntry::Failed {
        path: Some(text("target/x")),
        source: Some(text("denied")),
        not_found: false,
    }];
    let error = WorldManager::new(scans, walk, text("target")).unwrap_err();

    assert_eq!(error, Error::InvalidWorldGlob { source: text("first"), pattern: text("a/***") });
}

#[test]
fn an_unreadable_path_is_an_access_failure() {
    let scans = vec![
        found("a/*", &["a/one"]),
        PatternScan {
            pattern: text("b/*"),
            outcome: Ok(vec![
                PathScan::Found(text("b/two")),
                PathScan::Unreadable { path: text("b/locked"), source: text("denied") },
                PathScan::Found(text("b/one")),
            ]),
        },
    ];
    let error = WorldManager::new(scans, vec![], text("target")).unwrap_err();

    assert_eq!(
        error,
        Error::WorldAccessFailure { source: text("denied"), path: text("b/locked") }
    );
}

#[test]
fn a_conflict_before_an_unreadable_path_comes_first() {
    let scans = vec![PatternScan {
        pattern: text("*/*"),
        outcome: Ok(vec![
            PathScan::Found(text("a/one")),
            PathScan::Found(text("b/one")),
            PathScan::Unreadable { path: text("c"), source: text("denied") },
        ]),
    }];
    let error = WorldManager::new(scans, vec![], text("target")).unwrap_err();

    assert_eq!(
        error,
        Error::LocalWorldNameConflict { world_a: text("b/one"), world_b: text("a/one") }
    );
}

#[test]
fn only_directories_of_the_walk_are_worlds() {
    let walk = vec![
        directory("target/foo"),
        WalkEntry::Other,
        directory("target/bar"),
        WalkEntry::Other,
    ];
    let manager = WorldManager::new(vec![], walk, text("target")).unwrap();

    assert_eq!(manager.com_mojang_worlds(), &vec![text("foo"), text("bar")]);
    assert!(manager.local_worlds().is_empty());
}

#[test]
fn a_directory_met_twice_is_one_world() {
    let walk = vec![directory("target/foo"), directory("target/bar"), directory("target/foo/")];
    let manager = WorldManager::new(vec![], walk, text("target")).unwrap();

    assert_eq!(manager.com_mojang_worlds(), &vec![text("foo"), text("bar")]);
}

#[test]
fn the_same_name_on_both_sides_is_no_conflict() {
    let manager = WorldManager::new(
        vec![found("worlds/*", &["worlds/foo"])],
        vec![directory("target/foo")],
        text("target"),
    )
    .unwrap();

    assert_eq!(manager.local_worlds(), &vec![world("foo", "worlds/foo")]);
    assert_eq!(manager.com_mojang_worlds(), &vec![text("foo")]);
}

#[test]
fn a_failed_entry_of_the_walk_is_an_access_failure() {
    let walk = vec![
        directory("target/foo"),
        WalkEntry::Failed {
            path: Some(text("target/locked")),
            source: Some(text("denied")),
            not_found: false,
        },
        directory("target/bar"),
    ];
    let error = WorldManager::new(vec![], walk, text("target")).unwrap_err();

    assert_eq!(
        error,
        Error::WorldAccessFailure { source: text("denied"), path: text("target/locked") }
    );
}

#[test]
fn a_vanished_entry_of_the_walk_is_passed_over() {
    let walk = vec![
        WalkEntry::Failed {
            path: Some(text("target/gone")),
            source: Some(text("No such file or directory (os error 2)")),
            not_found: true,
        },
        directory("target/foo"),
    ];
    let manager = WorldManager::new(vec![], walk, text("target")).unwrap();

    assert_eq!(manager.com_mojang_worlds(), &vec![text("foo")]);
}

#[test]
fn a_failure_without_path_or_cause_is_passed_over() {
    let walk = vec![
        WalkEntry::Failed { path: None, source: Some(text("denied")), not_found: false },
        WalkEntry::Failed { path: Some(text("target/loop")), source: None, not_found: false },
        directory("target/foo"),
    ];
    let manager = WorldManager::new(vec![], walk, text("target")).unwrap();

    assert_eq!(manager.com_mojang_worlds(), &vec![text("foo")]);
}

#[test]
fn local_failures_come_before_those_of_the_walk() {
    let scans = vec![found("*/*", &["a/one", "b/one"])];
    let walk = vec![WalkEntry::Failed {
        path: Some(text("target/locked")),
        source: Some(text("denied")),
        not_found: false,
    }];
    let error = WorldManager::new(scans, walk, text("target")).unwrap_err();

    assert_eq!(
        error,
        Error::LocalWorldNameConflict { world_a: text("b/one"), world_b: text("a/one") }
    );
}

#[test]
fn a_path_without_a_name_has_no_answer() {
    let scans = vec![found("*", &["worlds", ".."])];
    assert!(WorldManager::try_new(scans, vec![], text("target")).is_none());

    let walk = vec![directory("/")];
    assert!(WorldManager::try_new(vec![], walk, text("target")).is_none());
}

#[test]
fn a_path_without_a_name_behind_an_error_is_never_met() {
    let scans = vec![found("*", &["a/one", "b/one", ".."])];
    let outcome = WorldManager::try_new(scans, vec![], text("target"));
    assert_eq!(
        outcome.expect("the conflict comes first").unwrap_err(),
        Error::LocalWorldNameConflict { world_a: text("b/one"), world_b: text("a/one") }
    );

    let scans = vec![found("*", &[".."]), invalid("[", "broken")];
    let outcome = WorldManager::try_new(scans, vec![], text("target"));
    assert_eq!(
        outcome.expect("the pattern comes first").unwrap_err(),
        Error::InvalidWorldGlob { source: text("broken"), pattern: text("[") }
    );
}

#[test]
fn try_new_agrees_with_new() {
    let manager = WorldManager::try_new(
        vec![found("worlds/*", &["worlds/foo"])],
        vec![directory("target/bar")],
        text("target"),
    )
    .expect("every path has a name")
    .unwrap();

    assert_eq!(manager.local_worlds(), &vec![world("foo", "worlds/foo")]);
    assert_eq!(manager.com_mojang_worlds(), &vec![text("bar")]);
    assert_eq!(manager.com_mojang(), "target");
}
