//! Where the game keeps its worlds.

use vstd::prelude::*;
use vstd::string::*;
use crate::error::{Error, ErrorView};
use crate::path::{join, joined};

verus! {

/// The editions of the game that keep their data in a package directory.
#[derive(Debug, Clone, Copy, PartialEq, Eq, Structural)]
pub enum MinecraftVersion {
    Stable,
    Preview,
    Education,
}

impl MinecraftVersion {
    /// The edition as the command line names it.
    pub open spec fn name(self) -> Seq<char> {
        match self {
            MinecraftVersion::Stable => "stable"@,
            MinecraftVersion::Preview => "preview"@,
            MinecraftVersion::Education => "education"@,
        }
    }

    /// The edition as the name of its package has it.
    pub open spec fn package(self) -> Seq<char> {
        match self {
            MinecraftVersion::Stable => "UWP"@,
            MinecraftVersion::Preview => "Beta"@,
            MinecraftVersion::Education => "EducationEdition"@,
        }
    }

    /// The edition as the command line names it.
    pub fn as_str(&self) -> (name: &'static str)
        ensures
            name@ == self.name(),
    {
        match self {
            MinecraftVersion::Stable => "stable",
            MinecraftVersion::Preview => "preview",
            MinecraftVersion::Education => "education",
        }
    }
}

/// The directory of the worlds below the `com.mojang` directory `base`.
pub open spec fn worlds_below(base: Seq<char>) -> Seq<char> {
    joined(base, "minecraftWorlds"@)
}

/// The directory of the worlds of the edition `version`, for the value
/// `local_appdata` of `LOCALAPPDATA`.
pub open spec fn worlds_of_version(local_appdata: Seq<char>, version: MinecraftVersion) -> Seq<
    char,
> {
    let packages = joined(local_appdata, "Packages"@);
    let package = joined(
        packages,
        "Microsoft.Minecraft"@ + version.package() + "_8wekyb3d8bbwe"@,
    );
    let games = joined(joined(package, "LocalState"@), "games"@);
    worlds_below(joined(games, "com.mojang"@))
}

/// What `COM_MOJANG` says of where the worlds are. `Err` holds why the
/// variable could not be read.
pub open spec fn located_by_env(com_mojang_var: Result<String, String>) -> Result<
    Seq<char>,
    ErrorView,
> {
    match com_mojang_var {
        Ok(base) => Ok(worlds_below(base@)),
        Err(source) => Err(ErrorView::NoComMojangEnvVar { source: source@ }),
    }
}

/// What `LOCALAPPDATA` says of where the worlds of `version` are. `Err`
/// holds why the variable could not be read.
pub open spec fn located_by_version(
    version: MinecraftVersion,
    local_appdata: Result<String, String>,
) -> Result<Seq<char>, ErrorView> {
    match local_appdata {
        Ok(base) => Ok(worlds_of_version(base@, version)),
        Err(source) => Err(ErrorView::CannotFindLocalAppData { source: source@ }),
    }
}

/// Whether the directory `dir` may be used, given what a look at the disk
/// said of its existence.
pub open spec fn checked(dir: Seq<char>, exists: Result<bool, String>) -> Result<(), ErrorView> {
    match exists {
        Ok(true) => Ok(()),
        Ok(false) => Err(ErrorView::ComMojangDoesNotExist { source: None, path: dir }),
        Err(source) => Err(ErrorView::ComMojangDoesNotExist { source: Some(source@), path: dir }),
    }
}

/// Where to look when `COM_MOJANG` is not set: the package directory of one
/// edition, below the value of `LOCALAPPDATA`.
#[derive(Debug, PartialEq, Eq)]
pub struct Fallback {
    pub version: MinecraftVersion,
    pub local_appdata: Result<String, String>,
}

/// Where the worlds are: where `COM_MOJANG` says, else where the fallback
/// says, if there is one.
pub open spec fn located(com_mojang_var: Result<String, String>, fallback: Option<Fallback>)
    -> Result<Seq<char>, ErrorView> {
    match located_by_env(com_mojang_var) {
        Ok(dir) => Ok(dir),
        Err(error) => match fallback {
            Some(other) => located_by_version(other.version, other.local_appdata),
            None => Err(error),
        },
    }
}

/// The directory of the worlds, found and checked.
pub open spec fn found_and_checked(
    com_mojang_var: Result<String, String>,
    fallback: Option<Fallback>,
    exists: Result<bool, String>,
) -> Result<Seq<char>, ErrorView> {
    match located(com_mojang_var, fallback) {
        Ok(dir) => match checked(dir, exists) {
            Ok(()) => Ok(dir),
            Err(error) => Err(error),
        },
        Err(error) => Err(error),
    }
}

/// A directory or an error, as texts.
pub open spec fn dir_view(outcome: Result<String, Error>) -> Result<Seq<char>, ErrorView> {
    match outcome {
        Ok(dir) => Ok(dir@),
        Err(error) => Err(error@),
    }
}

/// Nothing or an error, as texts.
pub open spec fn unit_view(outcome: Result<(), Error>) -> Result<(), ErrorView> {
    match outcome {
        Ok(()) => Ok(()),
        Err(error) => Err(error@),
    }
}

/// The directory of the worlds that `COM_MOJANG` names. `com_mojang_var` is
/// the value of the variable, or why it could not be read.
pub fn from_env(com_mojang_var: Result<String, String>) -> (dir: Result<String, Error>)
    ensures
        dir_view(dir) == located_by_env(com_mojang_var),
{
    match com_mojang_var {
        Ok(base) => Ok(join(base.as_str(), "minecraftWorlds")),
        Err(source) => Err(Error::NoComMojangEnvVar { source }),
    }
}

/// The directory of the worlds of the edition `version`. `local_appdata` is
/// the value of `LOCALAPPDATA`, or why it could not be read.
pub fn from_version(version: &MinecraftVersion, local_appdata: Result<String, String>) -> (dir:
    Result<String, Error>)
    ensures
        dir_view(dir) == located_by_version(*version, local_appdata),
{
    match local_appdata {
        Ok(base) => {
            let mut package = String::from_str("Microsoft.Minecraft");
            match version {
                MinecraftVersion::Stable => package.append("UWP"),
                MinecraftVersion::Preview => package.append("Beta"),
                MinecraftVersion::Education => package.append("EducationEdition"),
            }
            package.append("_8wekyb3d8bbwe");
            let packages = join(base.as_str(), "Packages");
            let package_dir = join(packages.as_str(), package.as_str());
            let state = join(package_dir.as_str(), "LocalState");
            let games = join(state.as_str(), "games");
            let com_mojang = join(games.as_str(), "com.mojang");
            Ok(join(com_mojang.as_str(), "minecraftWorlds"))
        },
        Err(source) => Err(Error::CannotFindLocalAppData { source }),
    }
}

/// Accepts the directory `dir` if it exists. `exists` is what a look at the
/// disk said, or why it could not say.
pub fn check_if_exists(dir: &str, exists: Result<bool, String>) -> (outcome: Result<(), Error>)
    ensures
        unit_view(outcome) == checked(dir@, exists),
{
    match exists {
        Ok(true) => Ok(()),
        Ok(false) => Err(
            Error::ComMojangDoesNotExist { source: None, path: String::from_str(dir) },
        ),
        Err(source) => Err(
            Error::ComMojangDoesNotExist { source: Some(source), path: String::from_str(dir) },
        ),
    }
}

/// The directory of the worlds, before it is checked: where `COM_MOJANG`
/// says, else where the fallback says, if there is one.
pub fn locate(com_mojang_var: Result<String, String>, fallback: Option<Fallback>) -> (dir: Result<
    String,
    Error,
>)
    ensures
        dir_view(dir) == located(com_mojang_var, fallback),
{
    match from_env(com_mojang_var) {
        Ok(dir) => Ok(dir),
        Err(error) => match fallback {
            Some(other) => from_version(&other.version, other.local_appdata),
            None => Err(error),
        },
    }
}

/// The directory of the worlds, found and checked. `exists` is what a look
/// at the disk said of the directory that [`locate`] gives for the same
/// variables; it is not asked where there is no such directory.
pub fn get_and_check(
    com_mojang_var: Result<String, String>,
    fallback: Option<Fallback>,
    exists: Result<bool, String>,
) -> (dir: Result<String, Error>)
    ensures
        dir_view(dir) == found_and_checked(com_mojang_var, fallback, exists),
{
    match locate(com_mojang_var, fallback) {
        Ok(dir) => match check_if_exists(dir.as_str(), exists) {
            Ok(()) => Ok(dir),
            Err(error) => Err(error),
        },
        Err(error) => Err(error),
    }
}

} // verus!
