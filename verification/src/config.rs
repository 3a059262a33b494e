//! The config file: the glob patterns of the local worlds.

use vstd::prelude::*;
use crate::error::{Error, ErrorView};
use crate::text::texts;

verus! {

/// What the config file says.
#[derive(Debug, Clone, PartialEq, Eq)]
pub struct Config {
    /// The glob patterns that match the directories of the local worlds.
    pub worlds: Vec<String>,
}

impl View for Config {
    type V = Seq<Seq<char>>;

    open spec fn view(&self) -> Seq<Seq<char>> {
        texts(self.worlds@)
    }
}

/// What `json_strip_comments::strip_comments_in_place` makes of `content`
/// when it is told to take C style comments and to remove trailing commas:
/// the text it leaves, or the text of the error it gives.
pub uninterp spec fn stripped(content: Seq<char>) -> Result<Seq<char>, Seq<char>>;

/// A text or the text of a failure, as texts.
pub open spec fn text_view(outcome: Result<String, String>) -> Result<Seq<char>, Seq<char>> {
    match outcome {
        Ok(text) => Ok(text@),
        Err(source) => Err(source@),
    }
}

/// A text or an error, as texts.
pub open spec fn checked_view(outcome: Result<String, Error>) -> Result<Seq<char>, ErrorView> {
    match outcome {
        Ok(text) => Ok(text@),
        Err(error) => Err(error@),
    }
}

/// A config or an error, as texts.
pub open spec fn config_view(outcome: Result<Config, Error>) -> Result<Seq<Seq<char>>, ErrorView> {
    match outcome {
        Ok(config) => Ok(config@),
        Err(error) => Err(error@),
    }
}

/// The text of a config whose comments were taken out, or the error for a
/// config that is not well formed.
pub open spec fn well_formed(
    path: Seq<char>,
    cwd: Seq<char>,
    outcome: Result<Seq<char>, Seq<char>>,
) -> Result<Seq<char>, ErrorView> {
    match outcome {
        Ok(text) => Ok(text),
        Err(source) => Err(ErrorView::ConfigFormat { path, cwd, source }),
    }
}

/// Calls `json_strip_comments::strip_comments_in_place` on `content`, for C
/// style comments (`//` to the end of the line, `/*` to `*/`) and with
/// trailing commas removed. Trusted: the result is what that function leaves
/// in the string, or the text of the error it returns; it depends on
/// `content` alone.
#[verifier::external_body]
fn strip_comments(content: String) -> (outcome: Result<String, String>)
    ensures
        text_view(outcome) == stripped(content@),
{
    let mut content = content;
    let settings = json_strip_comments::CommentSettings::c_style();
    match json_strip_comments::strip_comments_in_place(&mut content, settings, true) {
        Ok(()) => Ok(content),
        Err(error) => Err(error.to_string()),
    }
}

impl Config {
    /// Accepts the text of a config after its comments were taken out.
    /// `outcome` is that text, or why the comments are not well formed.
    pub fn without_comments(path: &str, cwd: &str, outcome: Result<String, String>) -> (text:
        Result<String, Error>)
        ensures
            checked_view(text) == well_formed(path@, cwd@, text_view(outcome)),
    {
        match outcome {
            Ok(text) => Ok(text),
            Err(source) => Err(
                Error::ConfigFormat {
                    path: String::from_str(path),
                    cwd: String::from_str(cwd),
                    source,
                },
            ),
        }
    }

    /// The text to parse for the config at `path`: what was read, with its
    /// comments taken out. `read` is the content of the file, or why it
    /// could not be read; `cwd` is the directory that `path` was looked up in.
    pub fn text(path: &str, cwd: &str, read: Result<String, String>) -> (text: Result<
        String,
        Error,
    >)
        ensures
            checked_view(text) == match read {
                Ok(content) => well_formed(path@, cwd@, stripped(content@)),
                Err(source) => Err(
                    ErrorView::ConfigNotFound { path: path@, cwd: cwd@, source: source@ },
                ),
            },
    {
        match read {
            Ok(content) => Config::without_comments(path, cwd, strip_comments(content)),
            Err(source) => Err(
                Error::ConfigNotFound {
                    path: String::from_str(path),
                    cwd: String::from_str(cwd),
                    source,
                },
            ),
        }
    }

    /// The config at `path`. `parsed` is the list under the key `worlds` of
    /// the text that [`Config::text`] gave, or why that text is no config.
    pub fn load(path: &str, cwd: &str, parsed: Result<Vec<String>, String>) -> (config: Result<
        Config,
        Error,
    >)
        ensures
            config_view(config) == match parsed {
                Ok(worlds) => Ok(texts(worlds@)),
                Err(source) => Err(
                    ErrorView::ConfigFormat { path: path@, cwd: cwd@, source: source@ },
                ),
            },
    {
        match parsed {
            Ok(worlds) => Ok(Config { worlds }),
            Err(source) => Err(
                Error::ConfigFormat {
                    path: String::from_str(path),
                    cwd: String::from_str(cwd),
                    source,
                },
            ),
        }
    }
}

} // verus!
