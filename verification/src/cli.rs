//! Command-line arguments, once they have been split into fields.

use crate::text;
use vstd::prelude::*;

verus! {

/// What to diff. Files mode is the default (`vdiff a.txt b.txt`);
/// `vdiff git [--cached] [revs...]` switches to repository mode.
#[derive(Debug, PartialEq, Eq)]
pub struct Cli {
    pub command: Command,
}

#[derive(Debug, PartialEq, Eq)]
pub enum Command {
    /// Diff two files.
    Files { file1: String, file2: String },
    /// Diff revisions of a git repository (`git diff` semantics).
    Git {
        /// Compare the index against the given revision (default: HEAD).
        cached: bool,
        /// Revisions passed through to `git diff`, e.g. HEAD^, A..B, A...B.
        revs: Vec<String>,
    },
}

/// What a `Command` says.
#[verifier::ext_equal]
pub enum CommandView {
    Files { file1: Seq<char>, file2: Seq<char> },
    Git { cached: bool, revs: Seq<Seq<char>> },
}

impl View for Command {
    type V = CommandView;

    open spec fn view(&self) -> CommandView {
        match *self {
            Command::Files { file1, file2 } => CommandView::Files {
                file1: file1@,
                file2: file2@,
            },
            Command::Git { cached, revs } => CommandView::Git { cached, revs: text::texts(revs@) },
        }
    }
}

/// The arguments as they stand on the command line: two positional files
/// (files mode), and the `git` subcommand.
#[derive(Debug, PartialEq, Eq)]
pub struct RawCli {
    pub file1: Option<String>,
    pub file2: Option<String>,
    pub command: Option<RawCommand>,
}

/// The `git` subcommand, with the fields of `Command::Git`.
#[derive(Debug, PartialEq, Eq)]
pub enum RawCommand {
    Git { cached: bool, revs: Vec<String> },
}

/// Why the arguments do not go together.
#[derive(Debug, Clone, Copy, PartialEq, Eq, Structural)]
pub enum CliError {
    /// Files were named before the `git` subcommand.
    FilesWithGit,
}

/// The message for a `CliError`.
pub open spec fn cli_error_text(e: CliError) -> Seq<char> {
    match e {
        CliError::FilesWithGit => "file arguments cannot be combined with the git subcommand"@,
    }
}

impl CliError {
    /// The message for this error.
    pub fn message(&self) -> (r: String)
        ensures
            r@ == cli_error_text(*self),
    {
        match self {
            CliError::FilesWithGit => {
                "file arguments cannot be combined with the git subcommand".to_string()
            },
        }
    }
}

/// The text of an argument, empty where it was left out.
pub open spec fn text_or_empty(s: Option<String>) -> Seq<char> {
    match s {
        Some(s) => s@,
        None => Seq::empty(),
    }
}

/// The command that the arguments amount to.
pub open spec fn command_of(raw: RawCli) -> Result<CommandView, CliError> {
    match raw.command {
        Some(RawCommand::Git { cached, revs }) => if raw.file1 is Some || raw.file2 is Some {
            Err(CliError::FilesWithGit)
        } else {
            Ok(CommandView::Git { cached, revs: text::texts(revs@) })
        },
        None => Ok(
            CommandView::Files {
                file1: text_or_empty(raw.file1),
                file2: text_or_empty(raw.file2),
            },
        ),
    }
}

/// What an answer of `Cli::from_raw` says.
pub open spec fn cli_view(r: Result<Cli, CliError>) -> Result<CommandView, CliError> {
    match r {
        Ok(cli) => Ok(cli.command@),
        Err(e) => Err(e),
    }
}

/// The text of an argument, empty where it was left out.
fn or_empty(s: Option<String>) -> (r: String)
    ensures
        r@ == text_or_empty(s),
{
    match s {
        Some(s) => s,
        None => String::new(),
    }
}

/// The usage line.
pub open spec fn usage_text() -> Seq<char> {
    "usage: vdiff <FILE1> <FILE2> | vdiff git [--cached] [REVS...]"@
}

impl Cli {
    /// The command that the arguments amount to: repository mode where the
    /// `git` subcommand is there, files mode otherwise, with empty paths for
    /// the files that were left out. Files and the subcommand exclude each
    /// other.
    pub fn from_raw(raw: RawCli) -> (r: Result<Cli, CliError>)
        ensures
            cli_view(r) == command_of(raw),
    {
        match raw.command {
            Some(RawCommand::Git { cached, revs }) => {
                if raw.file1.is_some() || raw.file2.is_some() {
                    Err(CliError::FilesWithGit)
                } else {
                    Ok(Cli { command: Command::Git { cached, revs } })
                }
            },
            None => Ok(
                Cli {
                    command: Command::Files {
                        file1: or_empty(raw.file1),
                        file2: or_empty(raw.file2),
                    },
                },
            ),
        }
    }

    /// What the user should have typed, where a file is missing: bare `vdiff`
    /// and a single file come out as files mode with an empty path.
    pub fn usage_hint(&self) -> (r: Option<String>)
        ensures
            r is Some <==> (self.command@ matches CommandView::Files { file1, file2 } && (
            file1.len() == 0 || file2.len() == 0)),
            r matches Some(s) ==> s@ == usage_text(),
    {
        match &self.command {
            Command::Files { file1, file2 } => {
                if file1.as_str().is_empty() || file2.as_str().is_empty() {
                    Some(
                        "usage: vdiff <FILE1> <FILE2> | vdiff git [--cached] [REVS...]".to_string(),
                    )
                } else {
                    None
                }
            },
            Command::Git { cached, revs } => None,
        }
    }
}

} // verus!
