//! The expensive hash computation itself, done by the `argon2` crate behind
//! trusted wrappers, and the constant-time comparison of digests, verified.

use vstd::prelude::*;
use crate::phc::{HashAlg, PhcHash, PhcRecord};

verus! {

/// Memory cost (KiB) every newly computed hash uses.
pub const DEFAULT_M_COST: u32 = 15000;

/// Iteration count every newly computed hash uses.
pub const DEFAULT_T_COST: u32 = 2;

/// Degree of parallelism every newly computed hash uses.
pub const DEFAULT_P_COST: u32 = 1;

/// Algorithm version every newly computed hash uses.
pub const DEFAULT_VERSION: u32 = 19;

/// Digest length (bytes) of every newly computed hash.
pub const OUTPUT_LEN: usize = 32;

/// Salt length (bytes) of every newly computed hash.
pub const SALT_LEN: usize = 16;

/// A number standing for the algorithm in the digest function below.
pub open spec fn alg_code(a: HashAlg) -> u8 {
    match a {
        HashAlg::Argon2d => 0,
        HashAlg::Argon2i => 1,
        HashAlg::Argon2id => 2,
    }
}

/// The Argon2 digest, as a function of the algorithm, version, cost
/// parameters, output length, salt and password alone.
pub uninterp spec fn argon2_digest(alg: u8, version: u32, m_cost: u32, t_cost: u32, p_cost: u32, out_len: usize, salt: Seq<u8>, password: Seq<u8>) -> Seq<u8>;

/// The digest a stored record prescribes for a candidate password: same
/// algorithm, version, costs, salt and output length as the record.
pub open spec fn record_digest(r: PhcRecord, password: Seq<u8>) -> Seq<u8> {
    argon2_digest(
        alg_code(r.alg),
        r.version,
        r.m_cost,
        r.t_cost,
        r.p_cost,
        r.digest.len() as usize,
        r.salt,
        password,
    )
}

/// A password short enough for the hash function (it rejects longer input).
pub open spec fn password_len_ok(password: Seq<u8>) -> bool {
    password.len() <= 0xFFFF_FFFF
}

/// Relies on `argon2::Argon2::hash_password_into`: the digest is a function
/// of the inputs named here and of nothing else, and under the parameter
/// ranges required below (those `Params::new` and `verify_inputs` accept)
/// the call succeeds.
#[verifier::external_body]
fn argon2_digest_call(
    alg: HashAlg,
    version: u32,
    m_cost: u32,
    t_cost: u32,
    p_cost: u32,
    out_len: usize,
    salt: &[u8],
    password: &[u8],
) -> (r: Vec<u8>)
    requires
        version == 16 || version == 19,
        m_cost >= 8,
        m_cost >= 8 * p_cost,
        t_cost >= 1,
        1 <= p_cost <= 0xFFFFFF,
        8 <= salt@.len() <= 48,
        4 <= out_len <= 64,
        password_len_ok(password@),
    ensures
        r@ == argon2_digest(alg_code(alg), version, m_cost, t_cost, p_cost, out_len, salt@, password@),
        r@.len() == out_len,
{
    let a = match alg {
        HashAlg::Argon2d => argon2::Algorithm::Argon2d,
        HashAlg::Argon2i => argon2::Algorithm::Argon2i,
        HashAlg::Argon2id => argon2::Algorithm::Argon2id,
    };
    let v = if version == 16 { argon2::Version::V0x10 } else { argon2::Version::V0x13 };
    let params = argon2::Params::new(m_cost, t_cost, p_cost, Some(out_len)).unwrap();
    let mut out = vec![0u8; out_len];
    argon2::Argon2::new(a, v, params).hash_password_into(password, salt, &mut out).unwrap();
    out
}

/// Relies on `rand::thread_rng` and `rand::RngCore::fill_bytes` for fresh
/// salt material; nothing is assumed of the bytes beyond their count.
#[verifier::external_body]
fn fresh_salt() -> (r: Vec<u8>)
    ensures
        r@.len() == SALT_LEN,
{
    let mut bytes = vec![0u8; SALT_LEN];
    rand::RngCore::fill_bytes(&mut rand::thread_rng(), &mut bytes);
    bytes
}

/// Recompute the digest a stored record prescribes for a candidate password.
pub fn digest_for_record(h: &PhcHash, password: &[u8]) -> (r: Vec<u8>)
    requires
        h@.wf(),
        password_len_ok(password@),
    ensures
        r@ == record_digest(h@, password@),
        r@.len() == h@.digest.len(),
{
    argon2_digest_call(
        h.alg,
        h.version,
        h.m_cost,
        h.t_cost,
        h.p_cost,
        h.digest.len(),
        h.salt.as_slice(),
        password,
    )
}

/// A freshly salted hash of `password` under the fixed default parameters.
pub fn hash_new_password(password: &[u8]) -> (r: PhcHash)
    requires
        password_len_ok(password@),
    ensures
        r@.wf(),
        r@.alg == HashAlg::Argon2id,
        r@.version == DEFAULT_VERSION,
        r@.m_cost == DEFAULT_M_COST,
        r@.t_cost == DEFAULT_T_COST,
        r@.p_cost == DEFAULT_P_COST,
        r@.salt.len() == SALT_LEN,
        r@.digest == record_digest(r@, password@),
{
    let salt = fresh_salt();
    let digest = argon2_digest_call(
        HashAlg::Argon2id,
        DEFAULT_VERSION,
        DEFAULT_M_COST,
        DEFAULT_T_COST,
        DEFAULT_P_COST,
        OUTPUT_LEN,
        salt.as_slice(),
        password,
    );
    PhcHash {
        alg: HashAlg::Argon2id,
        version: DEFAULT_VERSION,
        m_cost: DEFAULT_M_COST,
        t_cost: DEFAULT_T_COST,
        p_cost: DEFAULT_P_COST,
        salt,
        digest,
    }
}

/// Compare two byte strings in time that depends on their lengths alone:
/// no byte value shortens the scan.
pub fn ct_eq(a: &[u8], b: &[u8]) -> (r: bool)
    ensures
        r == (a@ == b@),
{
    if a.len() != b.len() {
        return false;
    }
    let mut diff: u8 = 0;
    let mut i: usize = 0;
    while i < a.len()
        invariant
            i <= a@.len(),
            a@.len() == b@.len(),
            (diff == 0) <==> (forall|j: int| 0 <= j < i ==> a@[j] == b@[j]),
        decreases a@.len() - i,
    {
        let x = a[i];
        let y = b[i];
        proof {
            assert((x ^ y) == 0 <==> x == y) by (bit_vector);
            assert((diff | (x ^ y)) == 0 <==> diff == 0 && (x ^ y) == 0) by (bit_vector);
        }
        diff = diff | (x ^ y);
        i = i + 1;
    }
    if diff == 0 {
        proof {
            assert(a@ =~= b@);
        }
        true
    } else {
        false
    }
}

} // verus!
