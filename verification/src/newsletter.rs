//! Newsletter publication: the form the route consumes and the
//! classification of its failures.

use vstd::prelude::*;

verus! {

/// A newsletter issue as submitted: title, HTML body, plain-text body.
pub struct NewsletterFormData {
    pub title: String,
    pub html: String,
    pub text: String,
}

/// Failure of a publication request, with an operator-facing message.
pub enum PublishError {
    /// An infrastructure fault; the message is logged, never shown.
    UnexpectedError(String),
    /// The caller did not authenticate.
    AuthError(String),
}

/// The HTTP status a publication failure maps to.
pub open spec fn status_of(e: &PublishError) -> u16 {
    match e {
        PublishError::UnexpectedError(_) => 500,
        PublishError::AuthError(_) => 401,
    }
}

impl PublishError {
    /// Infrastructure faults surface as a server error; failed
    /// authentication asks the client to authenticate.
    pub fn status_code(&self) -> (r: u16)
        ensures
            r == status_of(self),
    {
        match self {
            PublishError::UnexpectedError(_) => 500,
            PublishError::AuthError(_) => 401,
        }
    }
}

} // verus!
