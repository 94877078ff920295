//! Credential verification and password change.
//!
//! `validate_credentials` classifies every outcome as the caller's identity,
//! `InvalidCredentials` (unknown username, wrong password and malformed
//! stored hash merged, so a caller cannot enumerate usernames), or
//! `UnexpectedError` (infrastructure faults, never attributable to the
//! submitted credentials). `change_password` computes a freshly salted hash
//! under the fixed parameters and overwrites the stored one.

use vstd::prelude::*;
use vstd::utf8::encode_utf8;
use crate::secret::{SecretString, SecretBytes};
use crate::store::{CredentialStore, StoreError, UserId, RowView, spec_lookup, spec_persist};
use crate::phc;
use crate::phc::PhcRecord;
use crate::hashing;
use crate::hashing::{record_digest, password_len_ok};

verus! {

/// Why a validation failed: for operator diagnostics only. Callers observe
/// one merged `InvalidCredentials` outcome for all three causes.
#[derive(Clone, Copy, PartialEq, Eq, Structural, Debug)]
pub enum AuthCause {
    UnknownUsername,
    WrongPassword,
    MalformedHash,
}

/// The externally observable classification of an authentication failure.
#[derive(Clone, Copy, PartialEq, Eq, Structural, Debug)]
pub enum AuthError {
    /// The submitted credentials do not authenticate. Covers both "unknown
    /// username" and "wrong password"; the cause is internal diagnostics.
    InvalidCredentials(AuthCause),
    /// An infrastructure or parsing failure not attributable to the
    /// submitted credentials.
    UnexpectedError(StoreError),
}

/// Failure of a password change.
#[derive(Clone, Copy, PartialEq, Eq, Structural, Debug)]
pub enum ChangeError {
    /// The new password exceeds the hash function's input limit.
    PasswordTooLong,
}

/// A submitted username/password pair; lives for one validation call.
pub struct Credentials {
    pub username: String,
    pub password: SecretString,
}

/// The UTF-8 bytes the hash function sees for a password.
pub open spec fn password_bytes(pw: Seq<char>) -> Seq<u8> {
    encode_utf8(pw)
}

/// Whether a candidate password matches a parsed stored hash: its digest,
/// recomputed under the record's own parameters and salt, equals the stored
/// digest.
pub open spec fn spec_password_matches(rec: PhcRecord, pw: Seq<char>) -> bool {
    password_len_ok(password_bytes(pw)) && record_digest(rec, password_bytes(pw)) == rec.digest
}

/// What verifying a stored hash against a candidate password yields. A
/// stored value outside the grammar fails closed.
pub open spec fn spec_verify_hash(stored: Seq<u8>, pw: Seq<char>) -> Result<(), AuthCause> {
    match phc::phc_parse(stored) {
        None => Err(AuthCause::MalformedHash),
        Some(rec) => if spec_password_matches(rec, pw) {
            Ok(())
        } else {
            Err(AuthCause::WrongPassword)
        },
    }
}

/// What validation returns, given the store's answer for the username.
pub open spec fn spec_validate(lookup: Option<(UserId, Seq<u8>)>, pw: Seq<char>) -> Result<
    UserId,
    AuthError,
> {
    match lookup {
        None => Err(AuthError::InvalidCredentials(AuthCause::UnknownUsername)),
        Some((id, stored)) => match spec_verify_hash(stored, pw) {
            Ok(()) => Ok(id),
            Err(c) => Err(AuthError::InvalidCredentials(c)),
        },
    }
}

/// As [`spec_validate`], for a lookup that may itself have failed: an
/// infrastructure error propagates as `UnexpectedError` at once.
pub open spec fn spec_validate_outcome(
    lookup: Result<Option<(UserId, Seq<u8>)>, StoreError>,
    pw: Seq<char>,
) -> Result<UserId, AuthError> {
    match lookup {
        Err(e) => Err(AuthError::UnexpectedError(e)),
        Ok(l) => spec_validate(l, pw),
    }
}

/// The contents of a lookup outcome, mathematically.
pub open spec fn lookup_view(l: Result<Option<(UserId, SecretBytes)>, StoreError>) -> Result<
    Option<(UserId, Seq<u8>)>,
    StoreError,
> {
    match l {
        Err(e) => Err(e),
        Ok(None) => Ok(None),
        Ok(Some((id, h))) => Ok(Some((id, h@))),
    }
}

/// Verify a stored hash against a candidate password: parse the stored
/// value, recompute the digest under its own parameters, compare in
/// constant time.
pub fn verify_password_hash(expected_hash: &SecretBytes, password_candidate: &SecretString) -> (r:
    Result<(), AuthCause>)
    ensures
        r == spec_verify_hash(expected_hash@, password_candidate@),
{
    let parsed = phc::parse(expected_hash.expose_secret().as_slice());
    match parsed {
        None => Err(AuthCause::MalformedHash),
        Some(h) => {
            let pw_bytes = password_candidate.expose_secret().as_bytes();
            if pw_bytes.len() > 0xFFFF_FFFF {
                return Err(AuthCause::WrongPassword);
            }
            let candidate = hashing::digest_for_record(&h, pw_bytes);
            if hashing::ct_eq(candidate.as_slice(), h.digest.as_slice()) {
                Ok(())
            } else {
                Err(AuthCause::WrongPassword)
            }
        },
    }
}

/// A fixed, well-formed, never-matchable placeholder hash: verifying against
/// it costs the same as verifying against a real stored hash.
fn dummy_hash() -> SecretBytes {
    let salt = vec![0u8; hashing::SALT_LEN];
    let digest = vec![0u8; hashing::OUTPUT_LEN];
    let h = phc::PhcHash {
        alg: phc::HashAlg::Argon2id,
        version: hashing::DEFAULT_VERSION,
        m_cost: hashing::DEFAULT_M_COST,
        t_cost: hashing::DEFAULT_T_COST,
        p_cost: hashing::DEFAULT_P_COST,
        salt,
        digest,
    };
    SecretBytes::new(phc::serialize(&h))
}

/// Validate credentials against a lookup outcome the caller already has.
///
/// When the username is unknown, the expensive comparison still runs, against
/// a placeholder hash, so that a missing user is not distinguishable from a
/// wrong password by timing. When the lookup itself failed, nothing is
/// compared: the error is not an identity-guessing path, and it propagates
/// at once as `UnexpectedError`.
pub fn validate_with_lookup(
    credentials: Credentials,
    lookup: Result<Option<(UserId, SecretBytes)>, StoreError>,
) -> (r: Result<UserId, AuthError>)
    ensures
        r == spec_validate_outcome(lookup_view(lookup), credentials.password@),
{
    match lookup {
        Err(e) => Err(AuthError::UnexpectedError(e)),
        Ok(None) => {
            let dummy = dummy_hash();
            let _ = verify_password_hash(&dummy, &credentials.password);
            Err(AuthError::InvalidCredentials(AuthCause::UnknownUsername))
        },
        Ok(Some((id, stored))) => match verify_password_hash(&stored, &credentials.password) {
            Ok(()) => Ok(id),
            Err(c) => Err(AuthError::InvalidCredentials(c)),
        },
    }
}

/// Validate a username/password pair against the store.
pub fn validate_credentials(credentials: Credentials, store: &CredentialStore) -> (r: Result<
    UserId,
    AuthError,
>)
    ensures
        r == spec_validate(spec_lookup(store@, credentials.username@), credentials.password@),
{
    let looked_up = store.lookup(credentials.username.as_str());
    validate_with_lookup(credentials, Ok(looked_up))
}

/// Compute a freshly salted hash of the new password under the fixed
/// parameters; rejected only when the password exceeds the hash function's
/// input limit.
pub fn compute_password_hash(password: &SecretString) -> (r: Result<phc::PhcHash, ChangeError>)
    ensures
        match r {
            Ok(h) => {
                &&& password_len_ok(password_bytes(password@))
                &&& h@.wf()
                &&& h@.alg == phc::HashAlg::Argon2id
                &&& h@.version == hashing::DEFAULT_VERSION
                &&& h@.m_cost == hashing::DEFAULT_M_COST
                &&& h@.t_cost == hashing::DEFAULT_T_COST
                &&& h@.p_cost == hashing::DEFAULT_P_COST
                &&& h@.salt.len() == hashing::SALT_LEN
                &&& h@.digest == record_digest(h@, password_bytes(password@))
            },
            Err(e) => e == ChangeError::PasswordTooLong && !password_len_ok(
                password_bytes(password@),
            ),
        },
{
    let pw_bytes = password.expose_secret().as_bytes();
    if pw_bytes.len() > 0xFFFF_FFFF {
        return Err(ChangeError::PasswordTooLong);
    }
    Ok(hashing::hash_new_password(pw_bytes))
}

/// Change the stored password of `user_id`: hash the new password with fresh
/// salt and persist the serialized hash. The overwrite is atomic from the
/// caller's side: on failure the prior hash stays authoritative.
pub fn change_password(user_id: UserId, password: &SecretString, store: &mut CredentialStore) -> (r:
    Result<(), ChangeError>)
    requires
        old(store).wf(),
    ensures
        final(store).wf(),
        match r {
            Ok(()) => password_len_ok(password_bytes(password@)) && exists|rec: PhcRecord|
                {
                    &&& #[trigger] rec.wf()
                    &&& rec.alg == phc::HashAlg::Argon2id
                    &&& rec.salt.len() == hashing::SALT_LEN
                    &&& rec.digest == record_digest(rec, password_bytes(password@))
                    &&& final(store)@ == spec_persist(old(store)@, user_id, phc::phc_bytes(rec))
                },
            Err(e) => {
                &&& e == ChangeError::PasswordTooLong
                &&& !password_len_ok(password_bytes(password@))
                &&& final(store)@ == old(store)@
            },
        },
{
    match compute_password_hash(password) {
        Err(e) => Err(e),
        Ok(h) => {
            let bytes = phc::serialize(&h);
            let ghost rec = h@;
            store.persist(user_id, SecretBytes::new(bytes));
            proof {
                assert(rec.wf() && final(store)@ == spec_persist(
                    old(store)@,
                    user_id,
                    phc::phc_bytes(rec),
                ));
            }
            Ok(())
        },
    }
}

/// Law: for any username absent from the store, validation returns the
/// merged `InvalidCredentials` outcome, whatever the password.
pub proof fn lemma_unknown_username_rejected(pw: Seq<char>)
    ensures
        spec_validate(None, pw) == Err::<UserId, AuthError>(
            AuthError::InvalidCredentials(AuthCause::UnknownUsername),
        ),
{
}

/// Law: an infrastructure failure of the lookup propagates as
/// `UnexpectedError`, whatever the password.
pub proof fn lemma_infrastructure_error(e: StoreError, pw: Seq<char>)
    ensures
        spec_validate_outcome(Err(e), pw) == Err::<UserId, AuthError>(AuthError::UnexpectedError(e)),
{
}

/// After overwriting `user_id`'s hash, looking the same user's username up
/// yields exactly the new hash, whichever row the username stands in.
pub proof fn lemma_lookup_after_persist(
    rows: Seq<RowView>,
    username: Seq<char>,
    id: UserId,
    h: Seq<u8>,
)
    requires
        spec_lookup(rows, username) matches Some(found) && found.0 == id,
    ensures
        spec_lookup(spec_persist(rows, id, h), username) == Some((id, h)),
    decreases rows.len(),
{
    let updated = spec_persist(rows, id, h);
    assert(updated.len() == rows.len());
    if rows[0].username == username {
        assert(rows[0].user_id == id);
        assert(updated[0] == RowView { username: rows[0].username, user_id: id, hash: h });
    } else {
        assert(updated[0] == spec_persist(rows, id, h)[0]);
        lemma_lookup_after_persist(rows.drop_first(), username, id, h);
        assert(spec_persist(rows.drop_first(), id, h) =~= updated.drop_first());
    }
}

/// Law: after a successful password change — the store's rows are those of
/// `spec_persist` with a serialized record whose digest is that of the new
/// password — validating the user's username with the new password returns
/// the user's identity.
pub proof fn lemma_change_then_validate(
    rows: Seq<RowView>,
    username: Seq<char>,
    id: UserId,
    rec: PhcRecord,
    pw: Seq<char>,
)
    requires
        rec.wf(),
        spec_lookup(rows, username) matches Some(found) && found.0 == id,
    ensures
        rec.digest == record_digest(rec, password_bytes(pw)) && password_len_ok(
            password_bytes(pw),
        ) ==> spec_validate(
            spec_lookup(spec_persist(rows, id, phc::phc_bytes(rec)), username),
            pw,
        ) == Ok::<UserId, AuthError>(id),
{
    lemma_lookup_after_persist(rows, username, id, phc::phc_bytes(rec));
    phc::lemma_phc_round_trip(rec);
}

/// Law: after a successful password change, any password whose digest
/// differs from the newly stored one — in particular the old password,
/// unless the digests collide — is rejected as `InvalidCredentials`.
pub proof fn lemma_other_password_rejected(
    rows: Seq<RowView>,
    username: Seq<char>,
    id: UserId,
    rec: PhcRecord,
    pw_other: Seq<char>,
)
    requires
        rec.wf(),
        spec_lookup(rows, username) matches Some(found) && found.0 == id,
    ensures
        rec.digest != record_digest(rec, password_bytes(pw_other)) ==> spec_validate(
            spec_lookup(spec_persist(rows, id, phc::phc_bytes(rec)), username),
            pw_other,
        ) == Err::<UserId, AuthError>(AuthError::InvalidCredentials(AuthCause::WrongPassword)),
{
    lemma_lookup_after_persist(rows, username, id, phc::phc_bytes(rec));
    phc::lemma_phc_round_trip(rec);
}

} // verus!
