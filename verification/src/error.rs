//! The single user-facing error kind. Parse errors, metadata errors, remote
//! status mismatches and job failures are all flattened into one variant
//! carrying a human-readable message; callers rely on stable message
//! prefixes rather than typed cases.
use vstd::prelude::*;

verus! {

#[derive(Debug, Clone)]
pub struct CubeError {
    pub message: String,
}

impl CubeError {
    /// Wrap a message as a user error.
    pub fn user(message: String) -> (e: CubeError)
        ensures
            e.message == message,
    {
        CubeError { message }
    }

    /// The human-readable message carried by this error.
    pub fn get_message(&self) -> (m: &String)
        ensures
            m == &self.message,
    {
        &self.message
    }
}

} // verus!
