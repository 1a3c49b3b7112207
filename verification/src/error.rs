use vstd::prelude::*;
use vstd::string::StringExecFns;

verus! {

/// Actionable git failure classes for UI and CLI callers.
#[derive(Debug, Clone, Copy, PartialEq, Eq, Structural)]
pub enum GitErrorKind {
    Auth,
    Conflict,
    NotFastForward,
    NoUpstream,
    RemoteUnavailable,
    NoCommits,
    NotARepo,
    InvalidRevision,
    DetachedHead,
    Other,
}

/// Git-specific error payload that preserves the user-facing message.
#[derive(Debug, Clone)]
pub struct GitError {
    pub kind: GitErrorKind,
    pub message: String,
}

impl GitError {
    /// Builds a git error of the given kind carrying `message` verbatim.
    pub fn new(kind: GitErrorKind, message: String) -> (r: GitError)
        ensures
            r.kind == kind,
            r.message@ == message@,
    {
        GitError { kind, message }
    }

    /// The text shown to a user: the message itself.
    pub fn to_text(&self) -> (r: String)
        ensures
            r@ == self.message@,
    {
        self.message.clone()
    }
}

/// Main error type for ChickenScratch operations. Failures that come from
/// the file system or from YAML handling carry their message as text.
#[derive(Debug)]
pub enum ChiknError {
    Io(String),
    Serialization(String),
    NotFound(String),
    InvalidProject(String),
    InvalidFormat(String),
    Git(GitError),
    /// The project may only be opened read-only.
    ReadOnly(String),
    Unknown(String),
}

/// A copy of an error.
pub fn copy_error(e: &ChiknError) -> (r: ChiknError)
    ensures
        r == *e,
{
    match e {
        ChiknError::Io(m) => ChiknError::Io(m.clone()),
        ChiknError::Serialization(m) => ChiknError::Serialization(m.clone()),
        ChiknError::NotFound(m) => ChiknError::NotFound(m.clone()),
        ChiknError::InvalidProject(m) => ChiknError::InvalidProject(m.clone()),
        ChiknError::InvalidFormat(m) => ChiknError::InvalidFormat(m.clone()),
        ChiknError::Git(g) => ChiknError::Git(GitError { kind: g.kind, message: g.message.clone() }),
        ChiknError::ReadOnly(m) => ChiknError::ReadOnly(m.clone()),
        ChiknError::Unknown(m) => ChiknError::Unknown(m.clone()),
    }
}

/// The text shown for an error: its kind, then its message.
pub open spec fn error_text(e: ChiknError) -> Seq<char> {
    match e {
        ChiknError::Io(m) => "IO error: "@ + m@,
        ChiknError::Serialization(m) => "Serialization error: "@ + m@,
        ChiknError::NotFound(m) => "Not found: "@ + m@,
        ChiknError::InvalidProject(m) => "Invalid project: "@ + m@,
        ChiknError::InvalidFormat(m) => "Invalid format: "@ + m@,
        ChiknError::Git(g) => g.message@,
        ChiknError::ReadOnly(m) => "This project is read-only: "@ + m@,
        ChiknError::Unknown(m) => "Unknown error: "@ + m@,
    }
}

fn prefixed(head: &str, m: &String) -> (r: String)
    ensures
        r@ == head@ + m@,
{
    let mut s = String::from_str(head);
    s.append(m.as_str());
    s
}

impl ChiknError {
    /// The text shown for the error.
    pub fn to_text(&self) -> (r: String)
        ensures
            r@ == error_text(*self),
    {
        match self {
            ChiknError::Io(m) => prefixed("IO error: ", m),
            ChiknError::Serialization(m) => prefixed("Serialization error: ", m),
            ChiknError::NotFound(m) => prefixed("Not found: ", m),
            ChiknError::InvalidProject(m) => prefixed("Invalid project: ", m),
            ChiknError::InvalidFormat(m) => prefixed("Invalid format: ", m),
            ChiknError::Git(g) => g.to_text(),
            ChiknError::ReadOnly(m) => prefixed("This project is read-only: ", m),
            ChiknError::Unknown(m) => prefixed("Unknown error: ", m),
        }
    }
}

} // verus!
