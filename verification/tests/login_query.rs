use newsauth::login::{QueryParams, TagError};
use newsauth::secret::{HmacSecret, SecretString};

fn secret() -> HmacSecret {
    HmacSecret(SecretString::new("super-secret-key".to_string()))
}

fn tag_for(error: &str, key: &str) -> String {
    let query_string = format!("error={}", urlencoding::Encoded::new(error));
    let mut mac =
        <hmac::Hmac<sha2::Sha256> as hmac::KeyInit>::new_from_slice(key.as_bytes()).unwrap();
    hmac::Mac::update(&mut mac, query_string.as_bytes());
    hex::encode(hmac::Mac::finalize(mac).into_bytes())
}

#[test]
fn valid_tag_accepts_the_message() {
    let error = "Authentication Failed";
    let q = QueryParams {
        error: error.to_string(),
        tag: tag_for(error, "super-secret-key"),
    };
    assert_eq!(q.verify(&secret()), Ok(error.to_string()));
}

#[test]
fn tampered_message_is_refused() {
    let q = QueryParams {
        error: "All Good".to_string(),
        tag: tag_for("Authentication Failed", "super-secret-key"),
    };
    assert_eq!(q.verify(&secret()), Err(TagError::InvalidTag));
}

#[test]
fn wrong_key_is_refused() {
    let error = "Authentication Failed";
    let q = QueryParams {
        error: error.to_string(),
        tag: tag_for(error, "some-other-key"),
    };
    assert_eq!(q.verify(&secret()), Err(TagError::InvalidTag));
}

#[test]
fn non_hex_tag_is_refused() {
    let q = QueryParams {
        error: "whatever".to_string(),
        tag: "zz".to_string(),
    };
    assert_eq!(q.verify(&secret()), Err(TagError::InvalidHex));
    let q = QueryParams {
        error: "whatever".to_string(),
        tag: "abc".to_string(),
    };
    assert_eq!(q.verify(&secret()), Err(TagError::InvalidHex));
}
