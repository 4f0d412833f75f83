//! Error kinds of the library.
use vstd::prelude::*;
use vstd::string::*;

verus! {

/// What went wrong. Each kind carries its message; the kinds that stand
/// for an error of another library carry that error's text.
#[derive(Debug, Clone)]
pub enum ErrorKind {
    /// A plain message, used when an error is chained with a context text.
    Msg(String),
    Io(String),
    StringUtf8Error(String),
    StrUtf8Error(String),
    TomlDe(String),
    TomlSe(String),
    UrlParse(String),
    ChronoParse(String),
    Json(String),
    Config(String),
    Migration(String),
    MigrationComplete(String),
    MigrationNotFound(String),
    ShellCommand(String),
    ShellCommandNoOutput(String),
    PathError(String),
    TagError(String),
    InvalidDbKind(String),
}

/// An error: its kind, and the error that caused it, if any.
#[derive(Debug)]
pub struct Error {
    pub kind: ErrorKind,
    pub cause: Option<Box<Error>>,
}

/// The text of an error kind: the prefix that names the kind, then its message.
pub open spec fn kind_text(kind: ErrorKind) -> Seq<char> {
    match kind {
        ErrorKind::Msg(s) => s@,
        ErrorKind::Io(s) => s@,
        ErrorKind::StringUtf8Error(s) => s@,
        ErrorKind::StrUtf8Error(s) => s@,
        ErrorKind::TomlDe(s) => s@,
        ErrorKind::TomlSe(s) => s@,
        ErrorKind::UrlParse(s) => s@,
        ErrorKind::ChronoParse(s) => s@,
        ErrorKind::Json(s) => s@,
        ErrorKind::Config(s) => "ConfigError: "@ + s@,
        ErrorKind::Migration(s) => "MigrationError: "@ + s@,
        ErrorKind::MigrationComplete(s) => "MigrationComplete: "@ + s@,
        ErrorKind::MigrationNotFound(s) => "MigrationNotFound: "@ + s@,
        ErrorKind::ShellCommand(s) => "ShellCommandError: "@ + s@,
        ErrorKind::ShellCommandNoOutput(s) => "ShellCommandNoOutput: "@ + s@,
        ErrorKind::PathError(s) => "PathError: "@ + s@,
        ErrorKind::TagError(s) => "TagError: "@ + s@,
        ErrorKind::InvalidDbKind(s) => "InvalidDbKind: "@ + s@,
    }
}

fn prefixed(prefix: &str, msg: &String) -> (r: String)
    ensures
        r@ == prefix@ + msg@,
{
    String::from_str(prefix).concat(msg.as_str())
}

impl Error {
    /// An error of the given kind, with no cause.
    pub fn from_kind(kind: ErrorKind) -> (e: Error)
        ensures
            e.kind == kind,
            e.cause is None,
    {
        Error { kind, cause: None }
    }

    /// An error of the given kind, caused by `self`.
    pub fn chain(self, kind: ErrorKind) -> (e: Error)
        ensures
            e.kind == kind,
            e.cause == Some(Box::new(self)),
    {
        Error { kind, cause: Some(Box::new(self)) }
    }

    /// Whether this error says that no migration was left to apply.
    pub fn is_migration_complete(&self) -> (r: bool)
        ensures
            r == (self.kind is MigrationComplete),
    {
        match self.kind {
            ErrorKind::MigrationComplete(_) => true,
            _ => false,
        }
    }

    /// Whether this error says that a shell command gave no row output.
    pub fn is_shell_command_no_output(&self) -> (r: bool)
        ensures
            r == (self.kind is ShellCommandNoOutput),
    {
        match self.kind {
            ErrorKind::ShellCommandNoOutput(_) => true,
            _ => false,
        }
    }

    /// The text of the error: the name of its kind and its message.
    pub fn to_string(&self) -> (r: String)
        ensures
            r@ == kind_text(self.kind),
    {
        match &self.kind {
            ErrorKind::Msg(s) => s.clone(),
            ErrorKind::Io(s) => s.clone(),
            ErrorKind::StringUtf8Error(s) => s.clone(),
            ErrorKind::StrUtf8Error(s) => s.clone(),
            ErrorKind::TomlDe(s) => s.clone(),
            ErrorKind::TomlSe(s) => s.clone(),
            ErrorKind::UrlParse(s) => s.clone(),
            ErrorKind::ChronoParse(s) => s.clone(),
            ErrorKind::Json(s) => s.clone(),
            ErrorKind::Config(s) => prefixed("ConfigError: ", s),
            ErrorKind::Migration(s) => prefixed("MigrationError: ", s),
            ErrorKind::MigrationComplete(s) => prefixed("MigrationComplete: ", s),
            ErrorKind::MigrationNotFound(s) => prefixed("MigrationNotFound: ", s),
            ErrorKind::ShellCommand(s) => prefixed("ShellCommandError: ", s),
            ErrorKind::ShellCommandNoOutput(s) => prefixed("ShellCommandNoOutput: ", s),
            ErrorKind::PathError(s) => prefixed("PathError: ", s),
            ErrorKind::TagError(s) => prefixed("TagError: ", s),
            ErrorKind::InvalidDbKind(s) => prefixed("InvalidDbKind: ", s),
        }
    }
}

} // verus!
