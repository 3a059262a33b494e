use haze::com_mojang::{
    check_if_exists, from_env, from_version, get_and_check, locate, Fallback, MinecraftVersion,
};
use haze::error::Error;

fn text(value: &str) -> String {
    value.to_string()
}

#[test]
fn editions_by_name() {
    assert_eq!(MinecraftVersion::Stable.as_str(), "stable");
    assert_eq!(MinecraftVersion::Preview.as_str(), "preview");
    assert_eq!(MinecraftVersion::Education.as_str(), "education");
}

#[test]
fn the_variable_names_the_directory_above_the_worlds() {
    assert_eq!(from_env(Ok(text("com.mojang"))), Ok(text("com.mojang/minecraftWorlds")));
    assert_eq!(from_env(Ok(text("/games/com.mojang/"))), Ok(text("/games/com.mojang/minecraftWorlds")));
    assert_eq!(
        from_env(Err(text("environment variable not found"))),
        Err(Error::NoComMojangEnvVar { source: text("environment variable not found") })
    );
}

#[test]
fn each_edition_has_its_package() {
    let base = "C:/Users/me/AppData/Local";
    assert_eq!(
        from_version(&MinecraftVersion::Stable, Ok(text(base))),
        Ok(text(
            "C:/Users/me/AppData/Local/Packages/Microsoft.MinecraftUWP_8wekyb3d8bbwe/LocalState/games/com.mojang/minecraftWorlds"
        ))
    );
    assert_eq!(
        from_version(&MinecraftVersion::Preview, Ok(text(base))),
        Ok(text(
            "C:/Users/me/AppData/Local/Packages/Microsoft.MinecraftBeta_8wekyb3d8bbwe/LocalState/games/com.mojang/minecraftWorlds"
        ))
    );
    assert_eq!(
        from_version(&MinecraftVersion::Education, Ok(text(base))),
        Ok(text(
            "C:/Users/me/AppData/Local/Packages/Microsoft.MinecraftEducationEdition_8wekyb3d8bbwe/LocalState/games/com.mojang/minecraftWorlds"
        ))
    );
    assert_eq!(
        from_version(&MinecraftVersion::Stable, Err(text("environment variable not found"))),
        Err(Error::CannotFindLocalAppData { source: text("environment variable not found") })
    );
}

#[test]
fn a_directory_must_exist() {
    assert_eq!(check_if_exists("a/minecraftWorlds", Ok(true)), Ok(()));
    assert_eq!(
        check_if_exists("a/minecraftWorlds", Ok(false)),
        Err(Error::ComMojangDoesNotExist { source: None, path: text("a/minecraftWorlds") })
    );
    assert_eq!(
        check_if_exists("a/minecraftWorlds", Err(text("denied"))),
        Err(Error::ComMojangDoesNotExist {
            source: Some(text("denied")),
            path: text("a/minecraftWorlds"),
        })
    );
}

#[test]
fn the_variable_comes_before_the_fallback() {
    let fallback = Fallback { version: MinecraftVersion::Preview, local_appdata: Ok(text("L")) };
    assert_eq!(locate(Ok(text("com.mojang")), Some(fallback)), Ok(text("com.mojang/minecraftWorlds")));

    let fallback = Fallback { version: MinecraftVersion::Preview, local_appdata: Ok(text("L")) };
    assert_eq!(
        locate(Err(text("unset")), Some(fallback)),
        Ok(text(
            "L/Packages/Microsoft.MinecraftBeta_8wekyb3d8bbwe/LocalState/games/com.mojang/minecraftWorlds"
        ))
    );

    let fallback = Fallback { version: MinecraftVersion::Stable, local_appdata: Err(text("unset too")) };
    assert_eq!(
        locate(Err(text("unset")), Some(fallback)),
        Err(Error::CannotFindLocalAppData { source: text("unset too") })
    );

    assert_eq!(
        locate(Err(text("unset")), None),
        Err(Error::NoComMojangEnvVar { source: text("unset") })
    );
}

#[test]
fn a_located_directory_is_checked() {
    assert_eq!(
        get_and_check(Ok(text("com.mojang")), None, Ok(true)),
        Ok(text("com.mojang/minecraftWorlds"))
    );
    assert_eq!(
        get_and_check(Ok(text("com.mojang")), None, Err(text("denied"))),
        Err(Error::ComMojangDoesNotExist {
            source: Some(text("denied")),
            path: text("com.mojang/minecraftWorlds"),
        })
    );
    assert_eq!(
        get_and_check(Err(text("unset")), None, Ok(true)),
        Err(Error::NoComMojangEnvVar { source: text("unset") })
    );
    let fallback = Fallback { version: MinecraftVersion::Stable, local_appdata: Ok(text("L")) };
    assert_eq!(
        get_and_check(Err(text("unset")), Some(fallback), Ok(false)),
        Err(Error::ComMojangDoesNotExist {
            source: None,
            path: text(
                "L/Packages/Microsoft.MinecraftUWP_8wekyb3d8bbwe/LocalState/games/com.mojang/minecraftWorlds"
            ),
        })
    );
}
