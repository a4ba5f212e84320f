//! The error types of the library, and the text each error displays.
use crate::text::{join2, join3, owned};
use vstd::prelude::*;

verus! {

#[verifier::external_type_specification]
#[verifier::external_body]
pub struct ExIoErrorKind(std::io::ErrorKind);

/// An I/O failure: its kind and the message it displays.
#[derive(Debug)]
pub struct IoError {
    pub kind: std::io::ErrorKind,
    pub message: String,
}

/// Common error type for library operations.
#[derive(Debug)]
pub enum SampoError {
    Io(IoError),
    Workspace(WorkspaceError),
    Config(String),
    Changeset(String),
    Git(String),
    GitHub(String),
    Publish(String),
    Release(String),
    Prerelease(String),
    InvalidData(String),
    NotFound(String),
}

/// Errors that can occur when working with workspaces.
#[derive(Debug)]
pub enum WorkspaceError {
    Io(IoError),
    NotFound,
    InvalidManifest(String),
    InvalidWorkspace(String),
}

/// The text a workspace error displays.
pub open spec fn workspace_error_text(e: WorkspaceError) -> Seq<char> {
    match e {
        WorkspaceError::Io(io) => "IO error: "@ + io.message@,
        WorkspaceError::NotFound => "No supported workspace manifest found"@,
        WorkspaceError::InvalidManifest(m) => "Invalid manifest: "@ + m@,
        WorkspaceError::InvalidWorkspace(m) => "Invalid workspace: "@ + m@,
    }
}

/// The text an error displays.
pub open spec fn error_text(e: SampoError) -> Seq<char> {
    match e {
        SampoError::Io(io) => "IO error: "@ + io.message@,
        SampoError::Workspace(w) => "Workspace error: "@ + workspace_error_text(w),
        SampoError::Config(m) => "Configuration error: "@ + m@,
        SampoError::Changeset(m) => "Changeset error: "@ + m@,
        SampoError::Git(m) => "Git error: "@ + m@,
        SampoError::GitHub(m) => "GitHub error: "@ + m@,
        SampoError::Publish(m) => "Publish error: "@ + m@,
        SampoError::Release(m) => "Release error: "@ + m@,
        SampoError::Prerelease(m) => "Pre-release error: "@ + m@,
        SampoError::InvalidData(m) => "Invalid data: "@ + m@,
        SampoError::NotFound(m) => "Not found: "@ + m@,
    }
}

impl WorkspaceError {
    /// The text this error displays.
    pub fn to_string(&self) -> (r: String)
        ensures
            r@ == workspace_error_text(*self),
    {
        match self {
            WorkspaceError::Io(io) => join2("IO error: ", io.message.as_str()),
            WorkspaceError::NotFound => owned("No supported workspace manifest found"),
            WorkspaceError::InvalidManifest(m) => join2("Invalid manifest: ", m.as_str()),
            WorkspaceError::InvalidWorkspace(m) => join2("Invalid workspace: ", m.as_str()),
        }
    }
}

impl SampoError {
    /// The text this error displays.
    pub fn to_string(&self) -> (r: String)
        ensures
            r@ == error_text(*self),
    {
        match self {
            SampoError::Io(io) => join2("IO error: ", io.message.as_str()),
            SampoError::Workspace(w) => {
                let inner = w.to_string();
                join2("Workspace error: ", inner.as_str())
            },
            SampoError::Config(m) => join2("Configuration error: ", m.as_str()),
            SampoError::Changeset(m) => join2("Changeset error: ", m.as_str()),
            SampoError::Git(m) => join2("Git error: ", m.as_str()),
            SampoError::GitHub(m) => join2("GitHub error: ", m.as_str()),
            SampoError::Publish(m) => join2("Publish error: ", m.as_str()),
            SampoError::Release(m) => join2("Release error: ", m.as_str()),
            SampoError::Prerelease(m) => join2("Pre-release error: ", m.as_str()),
            SampoError::InvalidData(m) => join2("Invalid data: ", m.as_str()),
            SampoError::NotFound(m) => join2("Not found: ", m.as_str()),
        }
    }
}

/// The same I/O failure, with its message prefixed by the path it concerns.
pub fn io_error_with_path(error: IoError, path: &str) -> (r: IoError)
    ensures
        r.kind == error.kind,
        r.message@ == path@ + ": "@ + error.message@,
{
    IoError { kind: error.kind, message: join3(path, ": ", error.message.as_str()) }
}

} // verus!
