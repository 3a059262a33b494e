use haze::error::{Error, NoMatchingWorldsError};

fn text(value: &str) -> String {
    value.to_string()
}

#[test]
fn missing_names_are_listed_in_one_sentence() {
    let one = NoMatchingWorldsError { names: vec![text("foo")] };
    assert_eq!(one.message(), "no worlds matching `foo` were found");

    let two = NoMatchingWorldsError { names: vec![text("foo"), text("bar")] };
    assert_eq!(two.message(), "no worlds matching `foo` and `bar` were found");

    let three = NoMatchingWorldsError { names: vec![text("a"), text("b"), text("c")] };
    assert_eq!(three.message(), "no worlds matching `a` and `b` and `c` were found");
}

#[test]
fn no_missing_names_leave_the_sentence_bare() {
    let none = NoMatchingWorldsError { names: vec![] };
    assert_eq!(none.message(), "no worlds matching  were found");
}

#[test]
fn missing_names_error_speaks_for_itself() {
    let error = Error::NoMatchingWorlds(NoMatchingWorldsError { names: vec![text("foo")] });
    assert_eq!(error.message(), "no worlds matching `foo` were found");
    assert_eq!(error.help(), None);
    assert_eq!(error.cause(), None);
}

#[test]
fn config_errors_name_file_and_directory() {
    let not_found = Error::ConfigNotFound {
        path: text("config.json"),
        cwd: text("/home/me/project"),
        source: text("No such file or directory (os error 2)"),
    };
    assert_eq!(
        not_found.message(),
        "could not find `config.json` in `/home/me/project`"
    );
    assert_eq!(
        not_found.cause(),
        Some(text("No such file or directory (os error 2)"))
    );
    assert_eq!(not_found.help(), None);

    let format = Error::ConfigFormat {
        path: text("config.json"),
        cwd: text("/home/me/project"),
        source: text("missing field `worlds` at line 1 column 2"),
    };
    assert_eq!(
        format.message(),
        "could not parse `config.json` in `/home/me/project`"
    );
    assert_eq!(
        format.cause(),
        Some(text("missing field `worlds` at line 1 column 2"))
    );
    assert_eq!(format.help(), None);
}

#[test]
fn location_errors() {
    let appdata = Error::CannotFindLocalAppData { source: text("environment variable not found") };
    assert_eq!(
        appdata.message(),
        "could not find the LOCALAPPDATA environment variable"
    );
    assert_eq!(appdata.help(), None);
    assert_eq!(appdata.cause(), Some(text("environment variable not found")));

    let missing = Error::ComMojangDoesNotExist { source: None, path: text("a/minecraftWorlds") };
    assert_eq!(
        missing.message(),
        "the `com.mojang` directory does not exist in `a/minecraftWorlds`"
    );
    assert_eq!(missing.cause(), None);

    let unknown = Error::ComMojangDoesNotExist {
        source: Some(text("Permission denied (os error 13)")),
        path: text("a/minecraftWorlds"),
    };
    assert_eq!(unknown.cause(), Some(text("Permission denied (os error 13)")));
}

#[test]
fn transfer_errors_name_their_paths() {
    let access = Error::WorldAccessFailure {
        source: text("Permission denied (os error 13)"),
        path: text("worlds/foo"),
    };
    assert_eq!(access.message(), "failed to access a world at `worlds/foo`");
    assert_eq!(access.help(), None);
    assert_eq!(access.cause(), Some(text("Permission denied (os error 13)")));

    let copy = Error::WorldCopyFailure {
        source: text("disk full"),
        from: text("worlds/foo"),
        to: text("com.mojang/minecraftWorlds/foo"),
    };
    assert_eq!(
        copy.message(),
        "failed to copy world `worlds/foo` to `com.mojang/minecraftWorlds/foo`"
    );
    assert_eq!(copy.help(), None);
    assert_eq!(copy.cause(), Some(text("disk full")));
}

#[test]
fn policy_errors_have_no_cause() {
    let export = Error::ExportWithoutOverwriteAllowed { name: text("foo") };
    assert_eq!(export.cause(), None);
    let import = Error::ImportWithoutLocalMatch { name: text("foo") };
    assert_eq!(import.cause(), None);
    let conflict = Error::LocalWorldNameConflict { world_a: text("b/foo"), world_b: text("a/foo") };
    assert_eq!(conflict.cause(), None);
    assert_eq!(
        conflict.message(),
        "two local worlds have conflicting names `b/foo` <-> `a/foo`"
    );
}
