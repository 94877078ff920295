//! Credential verification and password management for a newsletter backend.
//!
//! The core of the library is the password subsystem: stored hashes in the
//! self-describing PHC string format, Argon2-based verification and password
//! changes against an in-memory credential store, and the failure
//! classification that keeps "unknown user" indistinguishable from "wrong
//! password" for callers. Around it stand the small validated form types the
//! routing layer consumes.

pub mod b64;
pub mod decimal;
pub mod phc;
pub mod secret;
pub mod hashing;
pub mod strutil;
pub mod store;
pub mod auth;
pub mod subscriber;
pub mod login;
pub mod newsletter;

use vstd::prelude::*;

verus! {

/// Base URL the application is reachable under, handed to link builders.
pub struct ApplicationBaseUrl(pub String);

} // verus!
