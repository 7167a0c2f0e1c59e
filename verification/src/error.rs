use vstd::prelude::*;
use vstd::string::*;

use crate::codec::{id_string, id_text};

verus! {

/// What can go wrong inside the bridge's core.
#[derive(Clone, Copy, Debug, PartialEq, Eq, Structural)]
pub enum ApiError {
    /// A payload does not obey the rules of its resource type.
    Validation,
    /// No resource with this id, or one of another type.
    NotFound(u128),
    /// No broker client owns the addressed device, group or topic.
    TargetNotFound,
    /// A resource with this id exists already.
    Conflict(u128),
    /// The store has been initialised before.
    AlreadyInitialized,
    /// The store has not been initialised yet.
    NotInitialized,
    /// Persisted state is malformed.
    Format,
    /// An inbound broker frame is malformed.
    Protocol,
}

impl ApiError {
    /// The message that a client is shown for the error.
    pub open spec fn text(self) -> Seq<char> {
        match self {
            ApiError::Validation => "Invalid resource payload"@,
            ApiError::NotFound(id) => "Resource "@ + id_text(id) + " not found"@,
            ApiError::TargetNotFound => "No broker serves the target"@,
            ApiError::Conflict(id) => "Resource "@ + id_text(id) + " already exists"@,
            ApiError::AlreadyInitialized => "State already initialized"@,
            ApiError::NotInitialized => "State not initialized"@,
            ApiError::Format => "Malformed state"@,
            ApiError::Protocol => "Malformed broker message"@,
        }
    }

    /// Spells the error out for a client.
    pub fn message(&self) -> (s: String)
        ensures
            s@ == self.text(),
    {
        match self {
            ApiError::Validation => String::from_str("Invalid resource payload"),
            ApiError::NotFound(id) => {
                let mut s = String::from_str("Resource ");
                let digits = id_string(*id);
                s.append(digits.as_str());
                s.append(" not found");
                s
            },
            ApiError::TargetNotFound => String::from_str("No broker serves the target"),
            ApiError::Conflict(id) => {
                let mut s = String::from_str("Resource ");
                let digits = id_string(*id);
                s.append(digits.as_str());
                s.append(" already exists");
                s
            },
            ApiError::AlreadyInitialized => String::from_str("State already initialized"),
            ApiError::NotInitialized => String::from_str("State not initialized"),
            ApiError::Format => String::from_str("Malformed state"),
            ApiError::Protocol => String::from_str("Malformed broker message"),
        }
    }
}

} // verus!
