use newsauth::auth::compute_password_hash;
use newsauth::b64;
use newsauth::decimal;
use newsauth::phc::{self, HashAlg, PhcHash};
use newsauth::secret::SecretString;

#[test]
fn serialize_parse_round_trip() {
    let h = compute_password_hash(&SecretString::new("correcthorse".to_string())).unwrap();
    let bytes = phc::serialize(&h);
    let back = phc::parse(bytes.as_slice()).expect("own serialization must parse");
    assert!(matches!(back.alg, HashAlg::Argon2id));
    assert_eq!(back.version, h.version);
    assert_eq!(back.m_cost, h.m_cost);
    assert_eq!(back.t_cost, h.t_cost);
    assert_eq!(back.p_cost, h.p_cost);
    assert_eq!(back.salt, h.salt);
    assert_eq!(back.digest, h.digest);
}

#[test]
fn serialized_form_is_the_phc_string() {
    let h = PhcHash {
        alg: HashAlg::Argon2id,
        version: 19,
        m_cost: 15000,
        t_cost: 2,
        p_cost: 1,
        salt: vec![0u8; 16],
        digest: vec![0u8; 32],
    };
    let bytes = phc::serialize(&h);
    let text = String::from_utf8(bytes).unwrap();
    assert_eq!(
        text,
        "$argon2id$v=19$m=15000,t=2,p=1$AAAAAAAAAAAAAAAAAAAAAA$AAAAAAAAAAAAAAAAAAAAAAAAAAAAAAAAAAAAAAAAAAA"
    );
}

#[test]
fn parse_reads_foreign_parameters() {
    let s = b"$argon2i$v=16$m=64,t=3,p=2$CCCCCCCCCCCC$BBBBBBBBBBBBBBBBBBBBBA";
    let h = phc::parse(s).expect("well-formed string must parse");
    assert!(matches!(h.alg, HashAlg::Argon2i));
    assert_eq!(h.version, 16);
    assert_eq!(h.m_cost, 64);
    assert_eq!(h.t_cost, 3);
    assert_eq!(h.p_cost, 2);
    assert_eq!(h.salt.len(), 9);
    assert_eq!(h.digest.len(), 16);
}

#[test]
fn parse_rejects_malformed_strings() {
    assert!(phc::parse(b"").is_none());
    assert!(phc::parse(b"$argon2id$v=19$m=15000,t=2,p=1$AAAAAAAAAAAAAAAAAAAAAA").is_none());
    assert!(phc::parse(b"$scrypt$v=19$m=15000,t=2,p=1$AAAAAAAAAAAAAAAAAAAAAA$AAAAAAAAAAAAAAAAAAAAAAAAAAAAAAAAAAAAAAAAAAA").is_none());
    assert!(phc::parse(b"$argon2id$v=20$m=15000,t=2,p=1$AAAAAAAAAAAAAAAAAAAAAA$AAAAAAAAAAAAAAAAAAAAAAAAAAAAAAAAAAAAAAAAAAA").is_none());
    assert!(phc::parse(b"$argon2id$v=19$m=015000,t=2,p=1$AAAAAAAAAAAAAAAAAAAAAA$AAAAAAAAAAAAAAAAAAAAAAAAAAAAAAAAAAAAAAAAAAA").is_none());
    assert!(phc::parse(b"$argon2id$v=19$m=4,t=2,p=1$AAAAAAAAAAAAAAAAAAAAAA$AAAAAAAAAAAAAAAAAAAAAAAAAAAAAAAAAAAAAAAAAAA").is_none());
    assert!(phc::parse(b"$argon2id$v=19$m=15000,t=2,p=1$AAA$AAAAAAAAAAAAAAAAAAAAAAAAAAAAAAAAAAAAAAAAAAA").is_none());
    assert!(phc::parse(b"$argon2id$v=19$m=15000,t=2,p=1$AAAAAAAAAAAAAAAAAAAAAA$AAAAAAAAAAAAAAAAAAAAAAAAAAAAAAAAAAAAAAAAAAA$extra").is_none());
}

#[test]
fn own_hashes_verify_under_the_reference_implementation() {
    let h = compute_password_hash(&SecretString::new("correcthorse".to_string())).unwrap();
    let text = String::from_utf8(phc::serialize(&h)).unwrap();
    let parsed = argon2::PasswordHash::new(&text).expect("reference parser must accept it");
    assert!(argon2::PasswordVerifier::verify_password(
        &argon2::Argon2::default(),
        b"correcthorse",
        &parsed,
    )
    .is_ok());
    assert!(argon2::PasswordVerifier::verify_password(
        &argon2::Argon2::default(),
        b"wrong",
        &parsed,
    )
    .is_err());
}

#[test]
fn reference_hashes_parse_and_verify_here() {
    let salt = argon2::password_hash::SaltString::generate(&mut rand::thread_rng());
    let ctx = argon2::Argon2::new(
        argon2::Algorithm::Argon2id,
        argon2::Version::V0x13,
        argon2::Params::new(15000, 2, 1, None).unwrap(),
    );
    let reference =
        argon2::PasswordHasher::hash_password(&ctx, b"correcthorse", &salt).unwrap().to_string();
    let stored = newsauth::secret::SecretBytes::new(reference.into_bytes());
    let candidate = SecretString::new("correcthorse".to_string());
    assert!(newsauth::auth::verify_password_hash(&stored, &candidate).is_ok());
    let wrong = SecretString::new("wrong".to_string());
    assert!(newsauth::auth::verify_password_hash(&stored, &wrong).is_err());
}

#[test]
fn base64_encodes_the_reference_values() {
    assert_eq!(b64::encode(b""), b"".to_vec());
    assert_eq!(b64::encode(b"f"), b"Zg".to_vec());
    assert_eq!(b64::encode(b"fo"), b"Zm8".to_vec());
    assert_eq!(b64::encode(b"foo"), b"Zm9v".to_vec());
    assert_eq!(b64::encode(b"foobar"), b"Zm9vYmFy".to_vec());
}

#[test]
fn base64_decode_inverts_encode() {
    let data: Vec<u8> = (0u16..=255).map(|b| b as u8).collect();
    for n in 0..data.len() {
        let enc = b64::encode(&data[..n]);
        assert_eq!(b64::decode(&enc), Some(data[..n].to_vec()));
    }
}

#[test]
fn base64_rejects_bad_input() {
    assert!(b64::decode(b"A").is_none());
    assert!(b64::decode(b"Zg=").is_none());
    assert!(b64::decode(b"Zh").is_none());
    assert!(b64::decode(b"Zm9v Y").is_none());
}

#[test]
fn decimal_round_trips() {
    let mut out = Vec::new();
    decimal::push_decimal(&mut out, 15000);
    assert_eq!(out, b"15000".to_vec());
    assert_eq!(decimal::parse_decimal(b"15000"), Some(15000));
    assert_eq!(decimal::parse_decimal(b"0"), Some(0));
    assert_eq!(decimal::parse_decimal(b"4294967295"), Some(4294967295));
    assert_eq!(decimal::parse_decimal(b"4294967296"), None);
    assert_eq!(decimal::parse_decimal(b"007"), None);
    assert_eq!(decimal::parse_decimal(b""), None);
    assert_eq!(decimal::parse_decimal(b"12a"), None);
}
