//! Login-page query verification: the error message a redirect carries is
//! trusted for display only when its HMAC-SHA256 tag, keyed with the
//! application secret, checks out over the URL-encoded message.

use vstd::prelude::*;
use vstd::utf8::encode_utf8;
use crate::secret::HmacSecret;
use crate::hashing;

verus! {

/// The value of a hexadecimal digit.
pub open spec fn hex_val(c: char) -> Option<u8> {
    if '0' <= c && c <= '9' {
        Some((c as u32 - 48) as u8)
    } else if 'a' <= c && c <= 'f' {
        Some((c as u32 - 97 + 10) as u8)
    } else if 'A' <= c && c <= 'F' {
        Some((c as u32 - 65 + 10) as u8)
    } else {
        None
    }
}

/// What a hexadecimal string decodes to: `None` on odd length or any
/// non-digit.
pub open spec fn spec_hex_decode(s: Seq<char>) -> Option<Seq<u8>>
    decreases s.len(),
{
    if s.len() == 0 {
        Some(Seq::<u8>::empty())
    } else if s.len() == 1 {
        None
    } else {
        match (hex_val(s[0]), hex_val(s[1])) {
            (Some(h), Some(l)) => match spec_hex_decode(s.skip(2)) {
                Some(rest) => Some(seq![(h * 16 + l) as u8] + rest),
                None => None,
            },
            _ => None,
        }
    }
}

/// The HMAC-SHA256 tag, as a function of key and message alone.
pub uninterp spec fn hmac_sha256(key: Seq<u8>, msg: Seq<u8>) -> Seq<u8>;

/// The percent-encoded form of a string, as a function of its characters.
pub uninterp spec fn url_encoded(s: Seq<char>) -> Seq<u8>;

/// The bytes the login tag is computed over: `error=` and the URL-encoded
/// message.
pub open spec fn login_error_message(error: Seq<char>) -> Seq<u8> {
    seq![101u8, 114u8, 114u8, 111u8, 114u8, 61u8] + url_encoded(error)
}

/// Relies on `hex::decode`: it accepts exactly even-length strings of
/// hexadecimal digits and returns their byte value.
#[verifier::external_body]
fn hex_decode_exec(s: &str) -> (r: Option<Vec<u8>>)
    ensures
        match r {
            Some(v) => spec_hex_decode(s@) == Some(v@),
            None => spec_hex_decode(s@) is None,
        },
{
    match hex::decode(s) {
        Ok(v) => Some(v),
        Err(_) => None,
    }
}

/// Relies on `hmac::Hmac<sha2::Sha256>` (`new_from_slice`, `update`,
/// `finalize`): the 32-byte tag is a function of key and message alone, and
/// HMAC takes keys of any length.
#[verifier::external_body]
fn hmac_sha256_tag(key: &[u8], msg: &[u8]) -> (r: Vec<u8>)
    ensures
        r@ == hmac_sha256(key@, msg@),
        r@.len() == 32,
{
    let mut mac = <hmac::Hmac<sha2::Sha256> as hmac::KeyInit>::new_from_slice(key).unwrap();
    hmac::Mac::update(&mut mac, msg);
    hmac::Mac::finalize(mac).into_bytes().to_vec()
}

/// Relies on `urlencoding::encode`: percent-encoding is a function of the
/// characters alone.
#[verifier::external_body]
fn url_encode_exec(s: &str) -> (r: Vec<u8>)
    ensures
        r@ == url_encoded(s@),
{
    urlencoding::encode(s).into_owned().into_bytes()
}

/// Why a tag was refused.
#[derive(Clone, Copy, PartialEq, Eq, Structural, Debug)]
pub enum TagError {
    /// The tag is not a hexadecimal string.
    InvalidHex,
    /// The tag does not match the message.
    InvalidTag,
}

/// What verifying a query yields: the error text exactly when the decoded
/// tag is the HMAC of the message under the key.
pub open spec fn spec_verify_query(error: Seq<char>, tag: Seq<char>, key: Seq<char>) -> Result<
    Seq<char>,
    TagError,
> {
    match spec_hex_decode(tag) {
        None => Err(TagError::InvalidHex),
        Some(t) => if t == hmac_sha256(encode_utf8(key), login_error_message(error)) {
            Ok(error)
        } else {
            Err(TagError::InvalidTag)
        },
    }
}

/// The query string a login redirect carries: an error message and its tag.
pub struct QueryParams {
    pub error: String,
    pub tag: String,
}

impl QueryParams {
    /// Accept the error message only under a valid tag.
    pub fn verify(self, secret: &HmacSecret) -> (r: Result<String, TagError>)
        ensures
            match r {
                Ok(e) => spec_verify_query(self.error@, self.tag@, secret.0@) == Ok::<
                    Seq<char>,
                    TagError,
                >(e@),
                Err(e) => spec_verify_query(self.error@, self.tag@, secret.0@) == Err::<
                    Seq<char>,
                    TagError,
                >(e),
            },
    {
        let tag_bytes = match hex_decode_exec(self.tag.as_str()) {
            Some(v) => v,
            None => {
                return Err(TagError::InvalidHex);
            },
        };
        let mut msg: Vec<u8> = Vec::new();
        msg.push(101);
        msg.push(114);
        msg.push(114);
        msg.push(111);
        msg.push(114);
        msg.push(61);
        let mut encoded = url_encode_exec(self.error.as_str());
        msg.append(&mut encoded);
        proof {
            assert(msg@ =~= login_error_message(self.error@));
        }
        let expected = hmac_sha256_tag(secret.0.expose_secret().as_bytes(), msg.as_slice());
        if hashing::ct_eq(tag_bytes.as_slice(), expected.as_slice()) {
            Ok(self.error)
        } else {
            Err(TagError::InvalidTag)
        }
    }
}

} // verus!
