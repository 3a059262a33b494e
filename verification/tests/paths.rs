use haze::path::{file_name, join, world_name_from_path};

#[test]
fn name_is_the_final_segment() {
    assert_eq!(world_name_from_path("worlds/foo"), "foo");
    assert_eq!(world_name_from_path("foo"), "foo");
    assert_eq!(world_name_from_path("/abs/worlds/My World"), "My World");
    assert_eq!(world_name_from_path("a/b.c"), "b.c");
}

#[test]
fn name_skips_separators_at_the_end() {
    assert_eq!(file_name("worlds/foo/"), Some("foo".to_string()));
    assert_eq!(file_name("worlds/foo///"), Some("foo".to_string()));
    assert_eq!(file_name("worlds//foo"), Some("foo".to_string()));
}

#[test]
fn name_skips_single_dots() {
    assert_eq!(file_name("worlds/foo/."), Some("foo".to_string()));
    assert_eq!(file_name("worlds/foo/./"), Some("foo".to_string()));
    assert_eq!(file_name("./foo"), Some("foo".to_string()));
    assert_eq!(file_name("worlds/.foo"), Some(".foo".to_string()));
    assert_eq!(file_name("worlds/..."), Some("...".to_string()));
}

#[test]
fn no_name_without_a_segment() {
    assert_eq!(file_name(""), None);
    assert_eq!(file_name("/"), None);
    assert_eq!(file_name("."), None);
    assert_eq!(file_name("./"), None);
    assert_eq!(file_name(".."), None);
    assert_eq!(file_name("worlds/.."), None);
    assert_eq!(file_name("worlds/../"), None);
    assert_eq!(file_name("worlds/.././"), None);
}

#[test]
fn name_of_a_path_beyond_ascii() {
    assert_eq!(file_name("wörlds/föö"), Some("föö".to_string()));
    assert_eq!(file_name("世界/地図/"), Some("地図".to_string()));
}

#[test]
fn join_puts_one_separator_between() {
    assert_eq!(join("com.mojang", "minecraftWorlds"), "com.mojang/minecraftWorlds");
    assert_eq!(join("com.mojang/", "minecraftWorlds"), "com.mojang/minecraftWorlds");
    assert_eq!(join("", "foo"), "foo");
    assert_eq!(join("/", "foo"), "/foo");
    assert_eq!(join("a", ""), "a/");
}

#[test]
fn joined_name_is_found_again() {
    let path = join("com.mojang/minecraftWorlds", "foo");
    assert_eq!(world_name_from_path(&path), "foo");
}
