//! The error type of the library and the text it is shown with.
use vstd::prelude::*;
use crate::text::{concat, owned};

verus! {

/// The kind of a [`CNodeError`], without its message.
#[derive(Clone, Copy, Debug, PartialEq, Eq, Structural)]
pub enum ErrorKind {
    Network,
    PackageNotFound,
    InvalidVersion,
    Io,
    Json,
    ResolutionFailed,
    DownloadFailed,
    Config,
    Archive,
    Toml,
    Custom,
}

/// Everything that can go wrong in the package manager. Each variant
/// carries the message it is shown with; failures of the file system and
/// of JSON handling carry the text of the underlying error.
#[derive(Debug)]
pub enum CNodeError {
    NetworkError(String),
    PackageNotFound(String),
    InvalidVersion(String),
    IoError(String),
    JsonError(String),
    ResolutionFailed(String),
    DownloadFailed(String),
    ConfigError(String),
    ArchiveError(String),
    TomlError(String),
    Custom(String),
}

impl View for CNodeError {
    type V = (ErrorKind, Seq<char>);

    open spec fn view(&self) -> (ErrorKind, Seq<char>) {
        match self {
            CNodeError::NetworkError(m) => (ErrorKind::Network, m@),
            CNodeError::PackageNotFound(m) => (ErrorKind::PackageNotFound, m@),
            CNodeError::InvalidVersion(m) => (ErrorKind::InvalidVersion, m@),
            CNodeError::IoError(m) => (ErrorKind::Io, m@),
            CNodeError::JsonError(m) => (ErrorKind::Json, m@),
            CNodeError::ResolutionFailed(m) => (ErrorKind::ResolutionFailed, m@),
            CNodeError::DownloadFailed(m) => (ErrorKind::DownloadFailed, m@),
            CNodeError::ConfigError(m) => (ErrorKind::Config, m@),
            CNodeError::ArchiveError(m) => (ErrorKind::Archive, m@),
            CNodeError::TomlError(m) => (ErrorKind::Toml, m@),
            CNodeError::Custom(m) => (ErrorKind::Custom, m@),
        }
    }
}

/// A result whose value is a string, seen through the views of the string
/// and of the error.
pub open spec fn string_result_view(r: Result<String, CNodeError>) -> Result<Seq<char>, (ErrorKind, Seq<char>)> {
    match r {
        Ok(s) => Ok(s@),
        Err(e) => Err(e@),
    }
}

/// The text that an error of the given kind and message is shown with.
pub open spec fn display_text(kind: ErrorKind, msg: Seq<char>) -> Seq<char> {
    match kind {
        ErrorKind::Network => "Network error: "@ + msg,
        ErrorKind::PackageNotFound => "Package not found: "@ + msg,
        ErrorKind::InvalidVersion => "Invalid version: "@ + msg,
        ErrorKind::Io => "IO error: "@ + msg,
        ErrorKind::Json => "JSON error: "@ + msg,
        ErrorKind::ResolutionFailed => "Dependency resolution failed: "@ + msg,
        ErrorKind::DownloadFailed => "Download failed: "@ + msg,
        ErrorKind::Config => "Configuration error: "@ + msg,
        ErrorKind::Archive => "Archive error: "@ + msg,
        ErrorKind::Toml => "TOML parse error: "@ + msg,
        ErrorKind::Custom => msg,
    }
}

impl CNodeError {
    /// The text the error is shown with.
    pub fn message(&self) -> (s: String)
        ensures
            s@ == display_text(self@.0, self@.1),
    {
        match self {
            CNodeError::NetworkError(m) => concat("Network error: ", m.as_str()),
            CNodeError::PackageNotFound(m) => concat("Package not found: ", m.as_str()),
            CNodeError::InvalidVersion(m) => concat("Invalid version: ", m.as_str()),
            CNodeError::IoError(m) => concat("IO error: ", m.as_str()),
            CNodeError::JsonError(m) => concat("JSON error: ", m.as_str()),
            CNodeError::ResolutionFailed(m) => concat("Dependency resolution failed: ", m.as_str()),
            CNodeError::DownloadFailed(m) => concat("Download failed: ", m.as_str()),
            CNodeError::ConfigError(m) => concat("Configuration error: ", m.as_str()),
            CNodeError::ArchiveError(m) => concat("Archive error: ", m.as_str()),
            CNodeError::TomlError(m) => concat("TOML parse error: ", m.as_str()),
            CNodeError::Custom(m) => owned(m.as_str()),
        }
    }

    /// The kind of the error.
    pub fn kind(&self) -> (k: ErrorKind)
        ensures
            k == self@.0,
    {
        match self {
            CNodeError::NetworkError(_) => ErrorKind::Network,
            CNodeError::PackageNotFound(_) => ErrorKind::PackageNotFound,
            CNodeError::InvalidVersion(_) => ErrorKind::InvalidVersion,
            CNodeError::IoError(_) => ErrorKind::Io,
            CNodeError::JsonError(_) => ErrorKind::Json,
            CNodeError::ResolutionFailed(_) => ErrorKind::ResolutionFailed,
            CNodeError::DownloadFailed(_) => ErrorKind::DownloadFailed,
            CNodeError::ConfigError(_) => ErrorKind::Config,
            CNodeError::ArchiveError(_) => ErrorKind::Archive,
            CNodeError::TomlError(_) => ErrorKind::Toml,
            CNodeError::Custom(_) => ErrorKind::Custom,
        }
    }
}

} // verus!
