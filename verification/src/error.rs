//! What can go wrong, and how it is told to the user.

use vstd::prelude::*;
use vstd::string::*;
use crate::text::{push_quoted, quoted, text_of, texts};

verus! {

/// The quoted `names`, with ` and ` between each two.
pub open spec fn listed(names: Seq<Seq<char>>) -> Seq<char>
    decreases names.len(),
{
    if names.len() == 0 {
        Seq::empty()
    } else if names.len() == 1 {
        quoted(names[0])
    } else {
        listed(names.drop_last()) + " and "@ + quoted(names.last())
    }
}

/// The message for requested names that the collection asked does not hold.
pub open spec fn no_matching_worlds_message(names: Seq<Seq<char>>) -> Seq<char> {
    "no worlds matching "@ + listed(names) + " were found"@
}

/// The requested names that were not found, all of them in one error.
#[derive(Debug, Clone, PartialEq, Eq)]
pub struct NoMatchingWorldsError {
    pub names: Vec<String>,
}

impl View for NoMatchingWorldsError {
    type V = Seq<Seq<char>>;

    open spec fn view(&self) -> Seq<Seq<char>> {
        texts(self.names@)
    }
}

/// Every failure of one run. The first one met ends the run.
///
/// A `source` is the text of the underlying failure, as the operating system
/// or the parser gave it.
#[derive(Debug, Clone, PartialEq, Eq)]
pub enum Error {
    /// The config file could not be read.
    ConfigNotFound { path: String, cwd: String, source: String },
    /// The config file does not hold what a config must hold.
    ConfigFormat { path: String, cwd: String, source: String },
    /// Neither `COM_MOJANG` nor `LOCALAPPDATA` says where the game keeps its data.
    CannotFindLocalAppData { source: String },
    /// `COM_MOJANG` is not set, and nothing else says where to look.
    NoComMojangEnvVar { source: String },
    /// The directory that should hold the game's worlds is not there.
    ComMojangDoesNotExist { source: Option<String>, path: String },
    /// A pattern of the config is no glob pattern.
    InvalidWorldGlob { source: String, pattern: String },
    /// Two local directories bear the same world name.
    LocalWorldNameConflict { world_a: String, world_b: String },
    /// The world to export is in `com.mojang` already and may not be replaced.
    ExportWithoutOverwriteAllowed { name: String },
    /// The world to import has no local directory to go to.
    ImportWithoutLocalMatch { name: String },
    /// Requested names that the source collection does not hold.
    NoMatchingWorlds(NoMatchingWorldsError),
    /// A directory could not be listed or removed.
    WorldAccessFailure { source: String, path: String },
    /// A world could not be copied.
    WorldCopyFailure { source: String, from: String, to: String },
}

/// An [`Error`] with every string taken as its text.
pub ghost enum ErrorView {
    ConfigNotFound { path: Seq<char>, cwd: Seq<char>, source: Seq<char> },
    ConfigFormat { path: Seq<char>, cwd: Seq<char>, source: Seq<char> },
    CannotFindLocalAppData { source: Seq<char> },
    NoComMojangEnvVar { source: Seq<char> },
    ComMojangDoesNotExist { source: Option<Seq<char>>, path: Seq<char> },
    InvalidWorldGlob { source: Seq<char>, pattern: Seq<char> },
    LocalWorldNameConflict { world_a: Seq<char>, world_b: Seq<char> },
    ExportWithoutOverwriteAllowed { name: Seq<char> },
    ImportWithoutLocalMatch { name: Seq<char> },
    NoMatchingWorlds { names: Seq<Seq<char>> },
    WorldAccessFailure { source: Seq<char>, path: Seq<char> },
    WorldCopyFailure { source: Seq<char>, from: Seq<char>, to: Seq<char> },
}

impl View for Error {
    type V = ErrorView;

    open spec fn view(&self) -> ErrorView {
        match *self {
            Error::ConfigNotFound { path, cwd, source } => ErrorView::ConfigNotFound {
                path: path@,
                cwd: cwd@,
                source: source@,
            },
            Error::ConfigFormat { path, cwd, source } => ErrorView::ConfigFormat {
                path: path@,
                cwd: cwd@,
                source: source@,
            },
            Error::CannotFindLocalAppData { source } => ErrorView::CannotFindLocalAppData {
                source: source@,
            },
            Error::NoComMojangEnvVar { source } => ErrorView::NoComMojangEnvVar {
                source: source@,
            },
            Error::ComMojangDoesNotExist { source, path } => ErrorView::ComMojangDoesNotExist {
                source: text_of(source),
                path: path@,
            },
            Error::InvalidWorldGlob { source, pattern } => ErrorView::InvalidWorldGlob {
                source: source@,
                pattern: pattern@,
            },
            Error::LocalWorldNameConflict { world_a, world_b } => {
                ErrorView::LocalWorldNameConflict { world_a: world_a@, world_b: world_b@ }
            },
            Error::ExportWithoutOverwriteAllowed { name } => {
                ErrorView::ExportWithoutOverwriteAllowed { name: name@ }
            },
            Error::ImportWithoutLocalMatch { name } => ErrorView::ImportWithoutLocalMatch {
                name: name@,
            },
            Error::NoMatchingWorlds(missing) => ErrorView::NoMatchingWorlds { names: missing@ },
            Error::WorldAccessFailure { source, path } => ErrorView::WorldAccessFailure {
                source: source@,
                path: path@,
            },
            Error::WorldCopyFailure { source, from, to } => ErrorView::WorldCopyFailure {
                source: source@,
                from: from@,
                to: to@,
            },
        }
    }
}

impl ErrorView {
    /// The one line that tells the user what failed.
    pub open spec fn message(self) -> Seq<char> {
        match self {
            ErrorView::ConfigNotFound { path, cwd, .. } => "could not find "@ + quoted(path)
                + " in "@ + quoted(cwd),
            ErrorView::ConfigFormat { path, cwd, .. } => "could not parse "@ + quoted(path)
                + " in "@ + quoted(cwd),
            ErrorView::CannotFindLocalAppData { .. } => {
                "could not find the LOCALAPPDATA environment variable"@
            },
            ErrorView::NoComMojangEnvVar { .. } => {
                "could not find the COM_MOJANG environment variable"@
            },
            ErrorView::ComMojangDoesNotExist { path, .. } => {
                "the `com.mojang` directory does not exist in "@ + quoted(path)
            },
            ErrorView::InvalidWorldGlob { pattern, .. } => "invalid world glob pattern "@
                + quoted(pattern),
            ErrorView::LocalWorldNameConflict { world_a, world_b } => {
                "two local worlds have conflicting names "@ + quoted(world_a) + " <-> "@
                    + quoted(world_b)
            },
            ErrorView::ExportWithoutOverwriteAllowed { name } => "attempting to export "@
                + quoted(name) + " when one already exists in `com.mojang`"@,
            ErrorView::ImportWithoutLocalMatch { name } => "attempting to import "@ + quoted(
                name,
            ) + " when there is no local world matching it"@,
            ErrorView::NoMatchingWorlds { names } => no_matching_worlds_message(names),
            ErrorView::WorldAccessFailure { path, .. } => "failed to access a world at "@
                + quoted(path),
            ErrorView::WorldCopyFailure { from, to, .. } => "failed to copy world "@ + quoted(
                from,
            ) + " to "@ + quoted(to),
        }
    }

    /// What the user can do about it, for the failures that have a remedy.
    pub open spec fn help(self) -> Option<Seq<char>> {
        match self {
            ErrorView::NoComMojangEnvVar { .. } => Some(
                "setting this variable is required on non-Windows systems"@,
            ),
            ErrorView::LocalWorldNameConflict { .. } => Some(
                "worlds in different directories must have unique names so they are easily identifiable"@,
            ),
            ErrorView::ExportWithoutOverwriteAllowed { .. } => Some("use --overwrite to bypass"@),
            ErrorView::ImportWithoutLocalMatch { .. } => Some(
                "worlds must be manually imported to a desired local location for first-time setup"@,
            ),
            _ => None,
        }
    }

    /// The text of the failure underneath, for the failures that have one.
    pub open spec fn cause(self) -> Option<Seq<char>> {
        match self {
            ErrorView::ConfigNotFound { source, .. } => Some(source),
            ErrorView::ConfigFormat { source, .. } => Some(source),
            ErrorView::CannotFindLocalAppData { source } => Some(source),
            ErrorView::NoComMojangEnvVar { source } => Some(source),
            ErrorView::ComMojangDoesNotExist { source, .. } => source,
            ErrorView::InvalidWorldGlob { source, .. } => Some(source),
            ErrorView::WorldAccessFailure { source, .. } => Some(source),
            ErrorView::WorldCopyFailure { source, .. } => Some(source),
            _ => None,
        }
    }
}

impl NoMatchingWorldsError {
    /// The message: every missing name, quoted, in one sentence.
    pub fn message(&self) -> (text: String)
        ensures
            text@ == no_matching_worlds_message(self@),
    {
        let mut text = String::from_str("no worlds matching ");
        let ghost names = texts(self.names@);
        let mut index: usize = 0;
        while index < self.names.len()
            invariant
                index <= self.names.len(),
                names == texts(self.names@),
                text@ == "no worlds matching "@ + listed(names.take(index as int)),
            decreases self.names.len() - index,
        {
            let ghost done = names.take(index as int);
            let ghost next = names.take(index + 1);
            proof {
                assert(next.drop_last() =~= done);
                assert(next.last() == self.names[index as int]@);
                if index > 0 {
                    assert(next.len() > 1);
                } else {
                    assert(next[0] == next.last());
                    assert(listed(done) =~= Seq::<char>::empty());
                }
            }
            if index > 0 {
                text.append(" and ");
            }
            push_quoted(&mut text, self.names[index].as_str());
            proof {
                assert(text@ =~= "no worlds matching "@ + listed(next));
            }
            index = index + 1;
        }
        proof {
            assert(names.take(index as int) =~= names);
        }
        text.append(" were found");
        text
    }
}

impl Error {
    /// The one line that tells the user what failed.
    pub fn message(&self) -> (text: String)
        ensures
            text@ == self@.message(),
    {
        match self {
            Error::ConfigNotFound { path, cwd, .. } => {
                let mut text = String::from_str("could not find ");
                push_quoted(&mut text, path.as_str());
                text.append(" in ");
                push_quoted(&mut text, cwd.as_str());
                text
            },
            Error::ConfigFormat { path, cwd, .. } => {
                let mut text = String::from_str("could not parse ");
                push_quoted(&mut text, path.as_str());
                text.append(" in ");
                push_quoted(&mut text, cwd.as_str());
                text
            },
            Error::CannotFindLocalAppData { .. } => String::from_str(
                "could not find the LOCALAPPDATA environment variable",
            ),
            Error::NoComMojangEnvVar { .. } => String::from_str(
                "could not find the COM_MOJANG environment variable",
            ),
            Error::ComMojangDoesNotExist { path, .. } => {
                let mut text = String::from_str("the `com.mojang` directory does not exist in ");
                push_quoted(&mut text, path.as_str());
                text
            },
            Error::InvalidWorldGlob { pattern, .. } => {
                let mut text = String::from_str("invalid world glob pattern ");
                push_quoted(&mut text, pattern.as_str());
                text
            },
            Error::LocalWorldNameConflict { world_a, world_b } => {
                let mut text = String::from_str("two local worlds have conflicting names ");
                push_quoted(&mut text, world_a.as_str());
                text.append(" <-> ");
                push_quoted(&mut text, world_b.as_str());
                text
            },
            Error::ExportWithoutOverwriteAllowed { name } => {
                let mut text = String::from_str("attempting to export ");
                push_quoted(&mut text, name.as_str());
                text.append(" when one already exists in `com.mojang`");
                text
            },
            Error::ImportWithoutLocalMatch { name } => {
                let mut text = String::from_str("attempting to import ");
                push_quoted(&mut text, name.as_str());
                text.append(" when there is no local world matching it");
                text
            },
            Error::NoMatchingWorlds(missing) => missing.message(),
            Error::WorldAccessFailure { path, .. } => {
                let mut text = String::from_str("failed to access a world at ");
                push_quoted(&mut text, path.as_str());
                text
            },
            Error::WorldCopyFailure { from, to, .. } => {
                let mut text = String::from_str("failed to copy world ");
                push_quoted(&mut text, from.as_str());
                text.append(" to ");
                push_quoted(&mut text, to.as_str());
                text
            },
        }
    }

    /// What the user can do about it, for the failures that have a remedy.
    pub fn help(&self) -> (hint: Option<String>)
        ensures
            text_of(hint) == self@.help(),
    {
        match self {
            Error::NoComMojangEnvVar { .. } => Some(
                String::from_str("setting this variable is required on non-Windows systems"),
            ),
            Error::LocalWorldNameConflict { .. } => Some(
                String::from_str(
                    "worlds in different directories must have unique names so they are easily identifiable",
                ),
            ),
            Error::ExportWithoutOverwriteAllowed { .. } => Some(
                String::from_str("use --overwrite to bypass"),
            ),
            Error::ImportWithoutLocalMatch { .. } => Some(
                String::from_str(
                    "worlds must be manually imported to a desired local location for first-time setup",
                ),
            ),
            _ => None,
        }
    }

    /// The text of the failure underneath, for the failures that have one.
    pub fn cause(&self) -> (source: Option<String>)
        ensures
            text_of(source) == self@.cause(),
    {
        match self {
            Error::ConfigNotFound { source, .. } => Some(source.clone()),
            Error::ConfigFormat { source, .. } => Some(source.clone()),
            Error::CannotFindLocalAppData { source } => Some(source.clone()),
            Error::NoComMojangEnvVar { source } => Some(source.clone()),
            Error::ComMojangDoesNotExist { source, .. } => match source {
                Some(text) => Some(text.clone()),
                None => None,
            },
            Error::InvalidWorldGlob { source, .. } => Some(source.clone()),
            Error::WorldAccessFailure { source, .. } => Some(source.clone()),
            Error::WorldCopyFailure { source, .. } => Some(source.clone()),
            _ => None,
        }
    }
}

} // verus!
