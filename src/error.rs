use udisks2::Error as ServiceError;
use vstd::prelude::*;

verus! {

/// An error shown to the user; a recoverable one can be dismissed, any other
/// ends the application.
#[derive(Debug, Clone)]
pub struct Error {
    pub description: String,
    pub recoverable: bool,
}

impl Error {
    pub fn new(desc: String, recoverable: bool) -> (r: Error)
        ensures
            r.description@ == desc@,
            r.recoverable == recoverable,
    {
        Error { description: desc, recoverable }
    }

    /// The error for a failure of the disk service, which cannot be dismissed.
    pub fn from_service(error: ServiceError) -> (r: Error)
        ensures
            !r.recoverable,
    {
        Error::new(service_error_text(&error), false)
    }

    /// The error for a format or create request that the disk service
    /// refused; the drive is left as it was, so it can be dismissed and the
    /// request tried again.
    pub fn from_operation_failure(error: ServiceError) -> (r: Error)
        ensures
            r.recoverable,
    {
        Error::new(service_error_text(&error), true)
    }
}

#[verifier::external_type_specification]
#[verifier::external_body]
pub struct ExServiceError(ServiceError);

/// Relies on udisks2's `Display` for its `Error`: a sentence on what failed.
#[verifier::external_body]
fn service_error_text(error: &ServiceError) -> String {
    error.to_string()
}

} // verus!
