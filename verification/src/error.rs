//! The errors of cvar operations.

use crate::document::{toml_error_message, toml_error_text};
use crate::value::ApplyError;
use crate::resources::ResourceFetchError;
use toml_edit::TomlError;
use vstd::prelude::*;
use vstd::std_specs::convert::FromSpecImpl;
use vstd::string::*;

verus! {

/// Errors that can occur when manipulating cvars.
#[derive(Debug)]
#[non_exhaustive]
pub enum CVarError {
    /// The cvar was never registered, or its resource is not there.
    UnknownCVar,
    /// The cvar's resource has not the layout of a cvar: a tuple whose first
    /// field is the value.
    BadCVarType,
    /// The cvar's path is known, but nothing was registered for its handle.
    MissingCid,
    /// The type of the cvar's value cannot be deserialized.
    CannotDeserialize,
    /// The value offered failed to deserialize; the detail says why.
    FailedDeserialize(String),
    /// Applying a value to the cvar failed.
    FailedApply {
        /// The inner error.
        inner: ApplyError,
    },
    /// The cvar's resource is lent out, so the operation cannot be performed
    /// now.
    AccessConflict,
    /// A TOML document could not be parsed.
    TomlError(TomlError),
    /// Writing into a document met a value where a table was needed.
    MalformedConfigDuringWrite(&'static str),
}

/// The error that a failed fetch of a cvar's resource is reported as: a
/// resource that is not there makes the cvar unknown, one that is lent out is
/// a conflict.
pub open spec fn fetch_failure(e: ResourceFetchError) -> CVarError {
    match e {
        ResourceFetchError::NotRegistered => CVarError::UnknownCVar,
        ResourceFetchError::DoesNotExist(_) => CVarError::UnknownCVar,
        ResourceFetchError::NoResourceAccess(_) => CVarError::AccessConflict,
    }
}

impl CVarError {
    /// The error that a failed fetch of a cvar's resource is reported as.
    pub fn from_fetch_error(value: ResourceFetchError) -> (e: CVarError)
        ensures
            e == fetch_failure(value),
    {
        match value {
            ResourceFetchError::NotRegistered => CVarError::UnknownCVar,
            ResourceFetchError::DoesNotExist(_) => CVarError::UnknownCVar,
            ResourceFetchError::NoResourceAccess(_) => CVarError::AccessConflict,
        }
    }

    /// What the error says.
    pub open spec fn message(&self) -> Seq<char> {
        match self {
            CVarError::UnknownCVar => "Unknown CVar."@,
            CVarError::BadCVarType =>
                "CVar is not internally a Tuple Struct of the expected layout, did you try to register it manually?"@,
            CVarError::MissingCid => "Missing ComponentID, was the resource registered?"@,
            CVarError::CannotDeserialize => "Underlying CVar type cannot be deserialized."@,
            CVarError::FailedDeserialize(inner) => "Failed to deserialize: "@ + inner@,
            CVarError::FailedApply { inner } => "Failed to apply value to CVar. ("@
                + inner.describe_spec() + ")"@,
            CVarError::AccessConflict =>
                "The requested operation conflicts with another ongoing operation on the world and cannot be performed."@,
            CVarError::TomlError(toml_error) => "TOML parsing error: "@ + toml_error_text(
                *toml_error,
            ),
            CVarError::MalformedConfigDuringWrite(what) => "Malformed config during write: "@
                + what@,
        }
    }

    /// The error as a message for the user.
    pub fn to_string(&self) -> (text: String)
        ensures
            text@ == self.message(),
    {
        match self {
            CVarError::UnknownCVar => "Unknown CVar.".to_owned(),
            CVarError::BadCVarType =>
                "CVar is not internally a Tuple Struct of the expected layout, did you try to register it manually?".to_owned(),
            CVarError::MissingCid => "Missing ComponentID, was the resource registered?".to_owned(),
            CVarError::CannotDeserialize => "Underlying CVar type cannot be deserialized.".to_owned(),
            CVarError::FailedDeserialize(inner) => {
                "Failed to deserialize: ".to_owned().concat(inner.as_str())
            },
            CVarError::FailedApply { inner } => {
                let detail = inner.describe();
                "Failed to apply value to CVar. (".to_owned().concat(detail.as_str()).concat(")")
            },
            CVarError::AccessConflict =>
                "The requested operation conflicts with another ongoing operation on the world and cannot be performed.".to_owned(),
            CVarError::TomlError(toml_error) => {
                let detail = toml_error_message(toml_error);
                "TOML parsing error: ".to_owned().concat(detail.as_str())
            },
            CVarError::MalformedConfigDuringWrite(what) => {
                "Malformed config during write: ".to_owned().concat(what)
            },
        }
    }
}

impl From<ApplyError> for CVarError {
    fn from(value: ApplyError) -> (e: CVarError) {
        CVarError::FailedApply { inner: value }
    }
}

impl FromSpecImpl<ApplyError> for CVarError {
    open spec fn obeys_from_spec() -> bool {
        true
    }

    open spec fn from_spec(value: ApplyError) -> CVarError {
        CVarError::FailedApply { inner: value }
    }
}

impl From<TomlError> for CVarError {
    fn from(value: TomlError) -> (e: CVarError) {
        CVarError::TomlError(value)
    }
}

impl FromSpecImpl<TomlError> for CVarError {
    open spec fn obeys_from_spec() -> bool {
        true
    }

    open spec fn from_spec(value: TomlError) -> CVarError {
        CVarError::TomlError(value)
    }
}

impl From<ResourceFetchError> for CVarError {
    fn from(value: ResourceFetchError) -> (e: CVarError) {
        CVarError::from_fetch_error(value)
    }
}

impl FromSpecImpl<ResourceFetchError> for CVarError {
    open spec fn obeys_from_spec() -> bool {
        true
    }

    open spec fn from_spec(value: ResourceFetchError) -> CVarError {
        fetch_failure(value)
    }
}

} // verus!
