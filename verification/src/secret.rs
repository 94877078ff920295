//! Secret-tagged values. Password material and stored hashes must never reach
//! logs or error text, so these types expose their contents only through an
//! explicit, intentional call and offer no formatting of any kind.

use vstd::prelude::*;

verus! {

/// A secret-tagged string (a submitted password).
pub struct SecretString {
    inner: String,
}

impl View for SecretString {
    type V = Seq<char>;

    closed spec fn view(&self) -> Seq<char> {
        self.inner@
    }
}

impl SecretString {
    pub fn new(value: String) -> (s: Self)
        ensures
            s@ == value@,
    {
        SecretString { inner: value }
    }

    /// Intentional exposure, for handing the secret to the hashing call.
    pub fn expose_secret(&self) -> (r: &str)
        ensures
            r@ == self@,
    {
        self.inner.as_str()
    }
}

/// A secret-tagged byte string (a stored password hash).
pub struct SecretBytes {
    inner: Vec<u8>,
}

impl View for SecretBytes {
    type V = Seq<u8>;

    closed spec fn view(&self) -> Seq<u8> {
        self.inner@
    }
}

impl SecretBytes {
    pub fn new(value: Vec<u8>) -> (s: Self)
        ensures
            s@ == value@,
    {
        SecretBytes { inner: value }
    }

    /// Intentional exposure, for parsing and for writing to the store.
    pub fn expose_secret(&self) -> (r: &Vec<u8>)
        ensures
            r@ == self@,
    {
        &self.inner
    }
}

/// The secret an HMAC tag on login query strings is keyed with.
pub struct HmacSecret(pub SecretString);

} // verus!
