//! Error kinds reported to the command layer.
use vstd::prelude::*;

verus! {

/// What went wrong, with the path, key or message that explains it.
#[derive(Debug)]
pub enum JdkError {
    /// The requested version key is not in the registry.
    JdkNotFound(String),
    /// A registered path no longer holds a JDK.
    InvalidPath(String),
    /// The registry file could not be read, parsed or written.
    ConfigError(String),
    /// The environment could not be changed.
    EnvError(String),
    /// Changing the environment needs rights the process lacks.
    EnvPermissionDenied(String),
    /// A download failed.
    DownloadError(String),
    /// A request to the package index failed.
    NetworkError(String),
    /// A file operation failed.
    IoError(String),
    /// An HTTP exchange failed.
    HttpError(String),
    /// A JSON document could not be read or written.
    JsonError(String),
    /// Neither the environment nor the registry names a current JDK.
    NoActiveJdk,
    /// An archive could not be unpacked.
    ExtractionError(String),
    /// The index has no package for the version.
    PackageNotFound(String),
    /// A version argument is not a number.
    InvalidVersion(String),
}

} // verus!
