use haze::cli::{Commands, Outcome};
use haze::world::{PathScan, PatternScan, WalkEntry, WorldManager};

fn registry(local: &[&str], stored: &[&str]) -> WorldManager {
    let scan = PatternScan {
        pattern: "worlds/*".to_string(),
        outcome: Ok(local.iter().map(|name| PathScan::Found(format!("worlds/{name}"))).collect()),
    };
    let walk = stored.iter().map(|name| WalkEntry::Directory(format!("target/{name}"))).collect();
    WorldManager::new(vec![scan], walk, "target".to_string()).unwrap()
}

#[test]
fn list_draws_both_branches() {
    assert_eq!(
        registry(&["foo", "bar"], &["foo", "baz"]).list(),
        "listing all worlds at..\n\
         |-- local project\n\
         |   |-- worlds/foo\n\
         |   `-- worlds/bar\n\
         `-- com.mojang\n    \
             |-- foo\n    \
             `-- baz"
    );
}

#[test]
fn list_without_local_worlds_has_no_local_branch() {
    assert_eq!(
        registry(&[], &["foo", "bar", "baz"]).list(),
        "listing all worlds at..\n`-- com.mojang\n    |-- foo\n    |-- bar\n    `-- baz"
    );
}

#[test]
fn list_without_stored_worlds_has_no_target_branch() {
    assert_eq!(
        registry(&["foo", "bar"], &[]).list(),
        "listing all worlds at..\n`-- local project\n    |-- worlds/foo\n    `-- worlds/bar"
    );
}

#[test]
fn list_of_one_world_on_each_side() {
    assert_eq!(
        registry(&["foo"], &["foo"]).list(),
        "listing all worlds at..\n|-- local project\n|   `-- worlds/foo\n`-- com.mojang\n    `-- foo"
    );
}

#[test]
fn list_of_nothing_is_the_first_line_alone() {
    assert_eq!(registry(&[], &[]).list(), "listing all worlds at..\n");
}

#[test]
fn the_list_command_gives_the_listing() {
    let outcome = Commands::List.run(registry(&["foo"], &[])).unwrap();
    assert_eq!(
        outcome,
        Outcome::Listing("listing all worlds at..\n`-- local project\n    `-- worlds/foo".to_string())
    );
}
