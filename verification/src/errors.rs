//! Failures of the dump actor and of the version file.

use vstd::prelude::*;
use vstd::string::StringExecFns;

verus! {

/// The codes under which failures around dumps are reported.
#[derive(Debug, Clone, Copy, PartialEq, Eq, Structural, Hash)]
pub enum DumpCode {
    DumpAlreadyInProgress,
    NotFound,
    Internal,
    IndexNotFound,
    IndexAlreadyExists,
    InvalidIndexUid,
}

/// Why an index could not be resolved.
#[derive(Debug, Clone, PartialEq, Eq)]
pub enum IndexResolverError {
    IndexAlreadyExists(String),
    UnexistingIndex(String),
    BadlyFormatted(String),
    Internal(String),
}

impl IndexResolverError {
    pub open spec fn spec_error_code(&self) -> DumpCode {
        match self {
            IndexResolverError::IndexAlreadyExists(_) => DumpCode::IndexAlreadyExists,
            IndexResolverError::UnexistingIndex(_) => DumpCode::IndexNotFound,
            IndexResolverError::BadlyFormatted(_) => DumpCode::InvalidIndexUid,
            IndexResolverError::Internal(_) => DumpCode::Internal,
        }
    }

    pub fn error_code(&self) -> (r: DumpCode)
        ensures
            r == self.spec_error_code(),
    {
        match self {
            IndexResolverError::IndexAlreadyExists(_) => DumpCode::IndexAlreadyExists,
            IndexResolverError::UnexistingIndex(_) => DumpCode::IndexNotFound,
            IndexResolverError::BadlyFormatted(_) => DumpCode::InvalidIndexUid,
            IndexResolverError::Internal(_) => DumpCode::Internal,
        }
    }
}

/// Why the dump actor failed.
#[derive(Debug, Clone, PartialEq, Eq)]
pub enum DumpActorError {
    /// Another dump is already in progress.
    DumpAlreadyRunning,
    /// No dump goes by this name.
    DumpDoesNotExist(String),
    /// Something failed underneath; the text says what.
    Internal(String),
    /// An index could not be resolved.
    IndexResolver(IndexResolverError),
}

impl DumpActorError {
    pub open spec fn spec_error_code(&self) -> DumpCode {
        match self {
            DumpActorError::DumpAlreadyRunning => DumpCode::DumpAlreadyInProgress,
            DumpActorError::DumpDoesNotExist(_) => DumpCode::NotFound,
            DumpActorError::Internal(_) => DumpCode::Internal,
            DumpActorError::IndexResolver(e) => e.spec_error_code(),
        }
    }

    /// The code under which the failure is reported.
    pub fn error_code(&self) -> (r: DumpCode)
        ensures
            r == self.spec_error_code(),
    {
        match self {
            DumpActorError::DumpAlreadyRunning => DumpCode::DumpAlreadyInProgress,
            DumpActorError::DumpDoesNotExist(_) => DumpCode::NotFound,
            DumpActorError::Internal(_) => DumpCode::Internal,
            DumpActorError::IndexResolver(e) => e.error_code(),
        }
    }

    /// A failure underneath, kept as its text.
    pub fn internal(message: &str) -> (r: DumpActorError)
        ensures
            r matches DumpActorError::Internal(text) && text@ == message@,
    {
        DumpActorError::Internal(String::from_str(message))
    }

    /// What the failure reads like.
    pub fn message(&self) -> (r: String)
        ensures
            match self {
                DumpActorError::DumpAlreadyRunning => r@ == "Another dump is already in progress"@,
                DumpActorError::DumpDoesNotExist(name) => r@ == "Dump `"@ + name@
                    + "` not found."@,
                DumpActorError::Internal(text) => r@ == "Internal error: "@ + text@,
                DumpActorError::IndexResolver(IndexResolverError::IndexAlreadyExists(name)) => r@
                    == "Index `"@ + name@ + "` already exists."@,
                DumpActorError::IndexResolver(IndexResolverError::UnexistingIndex(name)) => r@
                    == "Index `"@ + name@ + "` not found."@,
                DumpActorError::IndexResolver(IndexResolverError::BadlyFormatted(name)) => r@
                    == "`"@ + name@ + "` is not a valid index uid."@,
                DumpActorError::IndexResolver(IndexResolverError::Internal(text)) => r@
                    == "Internal error: "@ + text@,
            },
    {
        match self {
            DumpActorError::DumpAlreadyRunning => String::from_str(
                "Another dump is already in progress",
            ),
            DumpActorError::DumpDoesNotExist(name) => {
                let text = String::from_str("Dump `");
                let text = text.concat(name.as_str());
                text.concat("` not found.")
            },
            DumpActorError::Internal(inner) => {
                let text = String::from_str("Internal error: ");
                text.concat(inner.as_str())
            },
            DumpActorError::IndexResolver(e) => match e {
                IndexResolverError::IndexAlreadyExists(name) => {
                    let text = String::from_str("Index `");
                    let text = text.concat(name.as_str());
                    text.concat("` already exists.")
                },
                IndexResolverError::UnexistingIndex(name) => {
                    let text = String::from_str("Index `");
                    let text = text.concat(name.as_str());
                    text.concat("` not found.")
                },
                IndexResolverError::BadlyFormatted(name) => {
                    let text = String::from_str("`");
                    let text = text.concat(name.as_str());
                    text.concat("` is not a valid index uid.")
                },
                IndexResolverError::Internal(inner) => {
                    let text = String::from_str("Internal error: ");
                    text.concat(inner.as_str())
                },
            },
        }
    }
}

/// Why the version file could not vouch for the database.
#[derive(Debug, Clone, PartialEq, Eq)]
pub enum VersionFileError {
    MissingVersionFile,
    EmptyVersionFile,
    MalformedVersionFile,
    VersionMismatch { major: String, minor: String, patch: String },
}

impl VersionFileError {
    /// What the failure reads like, given the version of the engine that reads the file.
    pub fn message(&self, current_version: &str) -> (r: String)
        ensures
            match self {
                VersionFileError::MissingVersionFile => r@ == "Version file is missing"@,
                VersionFileError::EmptyVersionFile => r@ == "Version file is empty"@,
                VersionFileError::MalformedVersionFile => r@ == "Version file is malformed"@,
                VersionFileError::VersionMismatch { major, minor, patch } => r@
                    == "Expected MeiliSearch engine version: "@ + major@ + "."@ + minor@ + "."@
                    + patch@ + ", current engine version: "@ + current_version@,
            },
    {
        match self {
            VersionFileError::MissingVersionFile => String::from_str("Version file is missing"),
            VersionFileError::EmptyVersionFile => String::from_str("Version file is empty"),
            VersionFileError::MalformedVersionFile => String::from_str("Version file is malformed"),
            VersionFileError::VersionMismatch { major, minor, patch } => {
                let text = String::from_str("Expected MeiliSearch engine version: ");
                let text = text.concat(major.as_str());
                let text = text.concat(".");
                let text = text.concat(minor.as_str());
                let text = text.concat(".");
                let text = text.concat(patch.as_str());
                let text = text.concat(", current engine version: ");
                text.concat(current_version)
            },
        }
    }
}

/// Checks that a version file names the version of the engine that reads it.
///
/// The file holds `major.minor.patch`. Fails with `EmptyVersionFile` on an empty
/// file, with `MalformedVersionFile` when there are not three parts, and with
/// `VersionMismatch` when major or minor differ from those of the engine.
pub fn check_version(parts: &Vec<String>, major: &str, minor: &str) -> (r: Result<
    (),
    VersionFileError,
>)
    ensures
        match r {
            Ok(()) => parts.len() == 3 && parts[0]@ == major@ && parts[1]@ == minor@,
            Err(VersionFileError::EmptyVersionFile) => parts.len() == 0,
            Err(VersionFileError::MalformedVersionFile) => parts.len() != 0 && parts.len() != 3,
            Err(VersionFileError::VersionMismatch { major: m, minor: n, patch: p }) => parts.len()
                == 3 && !(parts[0]@ == major@ && parts[1]@ == minor@) && m@ == parts[0]@ && n@
                == parts[1]@ && p@ == parts[2]@,
            Err(VersionFileError::MissingVersionFile) => false,
        },
{
    if parts.len() == 0 {
        return Err(VersionFileError::EmptyVersionFile);
    }
    if parts.len() != 3 {
        return Err(VersionFileError::MalformedVersionFile);
    }
    if crate::order::text_equal(parts[0].as_str(), major) && crate::order::text_equal(
        parts[1].as_str(),
        minor,
    ) {
        Ok(())
    } else {
        Err(
            VersionFileError::VersionMismatch {
                major: parts[0].clone(),
                minor: parts[1].clone(),
                patch: parts[2].clone(),
            },
        )
    }
}

} // verus!
