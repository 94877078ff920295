//! The PHC string format for stored password hashes:
//! `$<alg>$v=<version>$m=<m>,t=<t>,p=<p>$<b64 salt>$<b64 digest>`.
//! The format is self-describing: algorithm, version and cost parameters
//! travel with the hash, so hashes written under older parameters still
//! verify. Serialization and parsing are verified to invert one another.

use vstd::prelude::*;
use crate::b64;
use crate::decimal;

verus! {

/// Split a byte string at every occurrence of `sep`; always at least one part.
pub open spec fn split_at_sep(s: Seq<u8>, sep: u8) -> Seq<Seq<u8>>
    decreases s.len(),
{
    if s.len() == 0 {
        seq![Seq::<u8>::empty()]
    } else if s[0] == sep {
        seq![Seq::<u8>::empty()] + split_at_sep(s.drop_first(), sep)
    } else {
        let r = split_at_sep(s.drop_first(), sep);
        r.update(0, seq![s[0]] + r[0])
    }
}

/// No byte of `s` is the separator.
pub open spec fn sep_free(s: Seq<u8>, sep: u8) -> bool {
    forall|i: int| 0 <= i < s.len() ==> #[trigger] s[i] != sep
}

pub proof fn lemma_split_len(s: Seq<u8>, sep: u8)
    ensures
        split_at_sep(s, sep).len() >= 1,
    decreases s.len(),
{
    if s.len() == 0 {
    } else {
        lemma_split_len(s.drop_first(), sep);
    }
}

/// A separator-free string splits into exactly itself.
pub proof fn lemma_split_sep_free(a: Seq<u8>, sep: u8)
    requires
        sep_free(a, sep),
    ensures
        split_at_sep(a, sep) == seq![a],
    decreases a.len(),
{
    if a.len() == 0 {
        assert(split_at_sep(a, sep) =~~= seq![a]);
    } else {
        assert(sep_free(a.drop_first(), sep)) by {
            assert forall|i: int| 0 <= i < a.drop_first().len() implies #[trigger] a.drop_first()[i]
                != sep by {
                assert(a.drop_first()[i] == a[i + 1]);
            }
        }
        lemma_split_sep_free(a.drop_first(), sep);
        assert(a[0] != sep);
        assert(seq![a[0]] + a.drop_first() =~= a);
        assert(split_at_sep(a, sep) =~~= seq![a]);
    }
}

/// Splitting distributes over the first separator.
pub proof fn lemma_split_concat(a: Seq<u8>, rest: Seq<u8>, sep: u8)
    requires
        sep_free(a, sep),
    ensures
        split_at_sep(a + seq![sep] + rest, sep) == seq![a] + split_at_sep(rest, sep),
    decreases a.len(),
{
    let s = a + seq![sep] + rest;
    if a.len() == 0 {
        assert(s[0] == sep);
        assert(s.drop_first() =~= rest);
        assert(split_at_sep(s, sep) =~~= seq![a] + split_at_sep(rest, sep));
    } else {
        assert(s[0] == a[0]);
        assert(a[0] != sep);
        assert(sep_free(a.drop_first(), sep)) by {
            assert forall|i: int| 0 <= i < a.drop_first().len() implies #[trigger] a.drop_first()[i]
                != sep by {
                assert(a.drop_first()[i] == a[i + 1]);
            }
        }
        lemma_split_concat(a.drop_first(), rest, sep);
        assert(s.drop_first() =~= a.drop_first() + seq![sep] + rest);
        lemma_split_len(rest, sep);
        let r = split_at_sep(s.drop_first(), sep);
        assert(r == seq![a.drop_first()] + split_at_sep(rest, sep));
        assert(r[0] == a.drop_first());
        assert(seq![s[0]] + r[0] =~= a);
        assert(split_at_sep(s, sep) =~~= seq![a] + split_at_sep(rest, sep));
    }
}

/// The first part under construction, prepended to the parts of the rest.
pub open spec fn merge_first(cur: Seq<u8>, parts: Seq<Seq<u8>>) -> Seq<Seq<u8>>
    recommends
        parts.len() >= 1,
{
    seq![cur + parts[0]] + parts.drop_first()
}

/// Split a byte string at every occurrence of `sep`.
pub fn split_bytes(s: &[u8], sep: u8) -> (r: Vec<Vec<u8>>)
    ensures
        r.deep_view() == split_at_sep(s@, sep),
{
    let mut done: Vec<Vec<u8>> = Vec::new();
    let mut cur: Vec<u8> = Vec::new();
    let mut i: usize = 0;
    proof {
        assert(s@.skip(0) =~= s@);
        lemma_split_len(s@, sep);
        assert(done.deep_view() =~= Seq::<Seq<u8>>::empty());
        assert(split_at_sep(s@, sep) =~~= done.deep_view() + merge_first(
            cur@,
            split_at_sep(s@.skip(0), sep),
        ));
    }
    while i < s.len()
        invariant
            i <= s@.len(),
            split_at_sep(s@, sep) == done.deep_view() + merge_first(
                cur@,
                split_at_sep(s@.skip(i as int), sep),
            ),
        decreases s@.len() - i,
    {
        proof {
            assert(s@.skip(i as int)[0] == s@[i as int]);
            assert(s@.skip(i as int).drop_first() =~= s@.skip(i + 1));
            lemma_split_len(s@.skip(i + 1), sep);
        }
        let ghost done0 = done.deep_view();
        let ghost cur0 = cur@;
        if s[i] == sep {
            done.push(cur);
            cur = Vec::new();
            proof {
                assert(done.deep_view() =~~= done0.push(cur0));
                let tail = split_at_sep(s@.skip(i + 1), sep);
                assert(split_at_sep(s@.skip(i as int), sep) == seq![Seq::<u8>::empty()] + tail);
                assert(merge_first(cur0, seq![Seq::<u8>::empty()] + tail) =~~= seq![cur0] + tail);
                assert(merge_first(cur@, tail)[0] == tail[0]);
                assert(done0.push(cur0) + merge_first(cur@, tail) =~~= done0 + (seq![cur0] + tail));
            }
        } else {
            let c = s[i];
            cur.push(c);
            proof {
                let tail = split_at_sep(s@.skip(i + 1), sep);
                let r = split_at_sep(s@.skip(i as int), sep);
                assert(r == tail.update(0, seq![c] + tail[0]));
                assert(r[0] == seq![c] + tail[0]);
                assert(r.drop_first() =~= tail.drop_first());
                assert(cur0 + r[0] =~= cur@ + tail[0]);
                assert(merge_first(cur0, r) =~~= merge_first(cur@, tail));
            }
        }
        i = i + 1;
    }
    proof {
        assert(s@.skip(i as int).len() == 0);
        assert(split_at_sep(s@.skip(i as int), sep) =~~= seq![Seq::<u8>::empty()]);
        assert(cur@ + Seq::<u8>::empty() =~= cur@);
        assert(merge_first(cur@, seq![Seq::<u8>::empty()]) =~~= seq![cur@]);
    }
    let ghost done0 = done.deep_view();
    let ghost cur0 = cur@;
    done.push(cur);
    proof {
        assert(done.deep_view() =~~= done0.push(cur0));
        assert(done0.push(cur0) =~~= done0 + seq![cur0]);
    }
    done
}

/// The Argon2 family member a stored hash names.
#[derive(Clone, Copy, PartialEq, Eq, Structural, Debug)]
pub enum HashAlg {
    Argon2d,
    Argon2i,
    Argon2id,
}

/// The identifier field of the algorithm.
pub open spec fn alg_tag(a: HashAlg) -> Seq<u8> {
    match a {
        HashAlg::Argon2d => seq![97u8, 114u8, 103u8, 111u8, 110u8, 50u8, 100u8],
        HashAlg::Argon2i => seq![97u8, 114u8, 103u8, 111u8, 110u8, 50u8, 105u8],
        HashAlg::Argon2id => seq![97u8, 114u8, 103u8, 111u8, 110u8, 50u8, 105u8, 100u8],
    }
}

pub open spec fn parse_alg(s: Seq<u8>) -> Option<HashAlg> {
    if s == alg_tag(HashAlg::Argon2d) {
        Some(HashAlg::Argon2d)
    } else if s == alg_tag(HashAlg::Argon2i) {
        Some(HashAlg::Argon2i)
    } else if s == alg_tag(HashAlg::Argon2id) {
        Some(HashAlg::Argon2id)
    } else {
        None
    }
}

/// The `v=<n>` field.
pub open spec fn version_field(v: u32) -> Seq<u8> {
    seq![118u8, 61u8] + decimal::dec_digits(v as nat)
}

pub open spec fn parse_version_field(s: Seq<u8>) -> Option<u32> {
    if s.len() >= 2 && s[0] == 118 && s[1] == 61 {
        decimal::dec_parse(s.skip(2))
    } else {
        None
    }
}

/// One `<name>=<n>` cost parameter.
pub open spec fn param_field(name: u8, v: u32) -> Seq<u8> {
    seq![name, 61u8] + decimal::dec_digits(v as nat)
}

pub open spec fn parse_param_field(s: Seq<u8>, name: u8) -> Option<u32> {
    if s.len() >= 2 && s[0] == name && s[1] == 61 {
        decimal::dec_parse(s.skip(2))
    } else {
        None
    }
}

/// The `m=<m>,t=<t>,p=<p>` field, in the order the Argon2 serialization uses.
pub open spec fn params_field(m: u32, t: u32, p: u32) -> Seq<u8> {
    param_field(109, m) + seq![44u8] + param_field(116, t) + seq![44u8] + param_field(112, p)
}

pub open spec fn parse_params_field(s: Seq<u8>) -> Option<(u32, u32, u32)> {
    let parts = split_at_sep(s, 44);
    if parts.len() == 3 {
        match (parse_param_field(parts[0], 109), parse_param_field(parts[1], 116), parse_param_field(parts[2], 112)) {
            (Some(m), Some(t), Some(p)) => Some((m, t, p)),
            _ => None,
        }
    } else {
        None
    }
}

/// The parsed form of a stored hash: everything verification needs.
#[verifier::ext_equal]
pub ghost struct PhcRecord {
    pub alg: HashAlg,
    pub version: u32,
    pub m_cost: u32,
    pub t_cost: u32,
    pub p_cost: u32,
    pub salt: Seq<u8>,
    pub digest: Seq<u8>,
}

impl PhcRecord {
    /// Well-formed: parameters in the ranges the hashing algorithm accepts,
    /// salt and digest of workable length.
    pub open spec fn wf(self) -> bool {
        &&& (self.version == 16 || self.version == 19)
        &&& self.m_cost >= 8
        &&& self.m_cost >= 8 * self.p_cost
        &&& self.t_cost >= 1
        &&& 1 <= self.p_cost <= 0xFFFFFF
        &&& 8 <= self.salt.len() <= 48
        &&& 4 <= self.digest.len() <= 64
    }
}

/// The serialized bytes of a stored hash.
pub open spec fn phc_bytes(r: PhcRecord) -> Seq<u8> {
    seq![36u8] + alg_tag(r.alg) + seq![36u8] + version_field(r.version) + seq![36u8]
        + params_field(r.m_cost, r.t_cost, r.p_cost) + seq![36u8] + b64::b64_encode(r.salt)
        + seq![36u8] + b64::b64_encode(r.digest)
}

/// What a byte string parses to; `None` on anything outside the grammar or
/// outside the well-formed ranges.
pub open spec fn phc_parse(s: Seq<u8>) -> Option<PhcRecord> {
    let parts = split_at_sep(s, 36);
    if parts.len() == 6 && parts[0] == Seq::<u8>::empty() {
        match (parse_alg(parts[1]), parse_version_field(parts[2]), parse_params_field(parts[3]),
            b64::b64_decode(parts[4]), b64::b64_decode(parts[5])) {
            (Some(alg), Some(version), Some(mtp), Some(salt), Some(digest)) => {
                let r = PhcRecord {
                    alg,
                    version,
                    m_cost: mtp.0,
                    t_cost: mtp.1,
                    p_cost: mtp.2,
                    salt,
                    digest,
                };
                if r.wf() {
                    Some(r)
                } else {
                    None
                }
            },
            _ => None,
        }
    } else {
        None
    }
}

/// Digits are neither `$` nor `,`.
proof fn lemma_digits_sep_free(n: nat)
    ensures
        sep_free(decimal::dec_digits(n), 36),
        sep_free(decimal::dec_digits(n), 44),
    decreases n,
{
    if n < 10 {
    } else {
        lemma_digits_sep_free(n / 10);
        assert forall|i: int| 0 <= i < decimal::dec_digits(n).len() implies #[trigger] decimal::dec_digits(n)[i] != 36 by {
            if i < decimal::dec_digits(n / 10).len() {
                assert(decimal::dec_digits(n)[i] == decimal::dec_digits(n / 10)[i]);
            }
        }
        assert forall|i: int| 0 <= i < decimal::dec_digits(n).len() implies #[trigger] decimal::dec_digits(n)[i] != 44 by {
            if i < decimal::dec_digits(n / 10).len() {
                assert(decimal::dec_digits(n)[i] == decimal::dec_digits(n / 10)[i]);
            }
        }
    }
}

/// Base64 output never holds a separator.
proof fn lemma_b64_sep_free(s: Seq<u8>)
    ensures
        sep_free(b64::b64_encode(s), 36),
{
    b64::lemma_encode_chars(s);
    assert forall|i: int| 0 <= i < b64::b64_encode(s).len() implies #[trigger] b64::b64_encode(
        s,
    )[i] != 36 by {
        assert(b64::sextet_val(b64::b64_encode(s)[i]) is Some);
    }
}

/// A cost-parameter field has no `$` and no `,`.
proof fn lemma_param_sep_free(name: u8, v: u32)
    requires
        name != 36 && name != 44 && name != 61,
    ensures
        sep_free(param_field(name, v), 36),
        sep_free(param_field(name, v), 44),
{
    lemma_digits_sep_free(v as nat);
    assert forall|i: int| 0 <= i < param_field(name, v).len() implies #[trigger] param_field(
        name,
        v,
    )[i] != 36 && param_field(name, v)[i] != 44 by {
        if i >= 2 {
            assert(param_field(name, v)[i] == decimal::dec_digits(v as nat)[i - 2]);
        }
    }
}

/// Parsing a serialized `v=` field gives the version back.
proof fn lemma_version_round_trip(v: u32)
    ensures
        parse_version_field(version_field(v)) == Some(v),
        sep_free(version_field(v), 36),
{
    decimal::lemma_dec_round_trip(v as nat);
    lemma_digits_sep_free(v as nat);
    let f = version_field(v);
    assert(f.skip(2) =~= decimal::dec_digits(v as nat));
    assert forall|i: int| 0 <= i < f.len() implies #[trigger] f[i] != 36 by {
        if i >= 2 {
            assert(f[i] == decimal::dec_digits(v as nat)[i - 2]);
        }
    }
}

/// Parsing a serialized parameters field gives the costs back.
proof fn lemma_params_round_trip(m: u32, t: u32, p: u32)
    ensures
        parse_params_field(params_field(m, t, p)) == Some((m, t, p)),
        sep_free(params_field(m, t, p), 36),
{
    lemma_param_sep_free(109, m);
    lemma_param_sep_free(116, t);
    lemma_param_sep_free(112, p);
    let fm = param_field(109, m);
    let ft = param_field(116, t);
    let fp = param_field(112, p);
    let whole = params_field(m, t, p);
    assert(whole =~= fm + seq![44u8] + (ft + seq![44u8] + fp));
    lemma_split_concat(fm, ft + seq![44u8] + fp, 44);
    lemma_split_concat(ft, fp, 44);
    lemma_split_sep_free(fp, 44);
    let parts = split_at_sep(whole, 44);
    assert(parts =~~= seq![fm, ft, fp]);
    decimal::lemma_dec_round_trip(m as nat);
    decimal::lemma_dec_round_trip(t as nat);
    decimal::lemma_dec_round_trip(p as nat);
    assert(fm.skip(2) =~= decimal::dec_digits(m as nat));
    assert(ft.skip(2) =~= decimal::dec_digits(t as nat));
    assert(fp.skip(2) =~= decimal::dec_digits(p as nat));
    assert forall|i: int| 0 <= i < whole.len() implies #[trigger] whole[i] != 36 by {
        if i < fm.len() {
            assert(whole[i] == fm[i]);
        } else if i == fm.len() {
            assert(whole[i] == 44);
        } else if i <= fm.len() + ft.len() {
            assert(whole[i] == ft[i - fm.len() - 1]);
        } else if i == fm.len() + 1 + ft.len() {
            assert(whole[i] == 44);
        } else {
            assert(whole[i] == fp[i - fm.len() - ft.len() - 2]);
        }
    }
}

/// The algorithm tag has no separator and parses back to the algorithm.
proof fn lemma_alg_round_trip(a: HashAlg)
    ensures
        parse_alg(alg_tag(a)) == Some(a),
        sep_free(alg_tag(a), 36),
{
    assert(alg_tag(HashAlg::Argon2d)[6] == 100);
    assert(alg_tag(HashAlg::Argon2i)[6] == 105);
    assert(alg_tag(HashAlg::Argon2d).len() == 7);
    assert(alg_tag(HashAlg::Argon2id).len() == 8);
}

/// The PHC round trip: parsing a serialized well-formed record gives the
/// record back, parameters and digest bytes exactly.
pub proof fn lemma_phc_round_trip(r: PhcRecord)
    requires
        r.wf(),
    ensures
        phc_parse(phc_bytes(r)) == Some(r),
{
    let tag = alg_tag(r.alg);
    let vf = version_field(r.version);
    let pf = params_field(r.m_cost, r.t_cost, r.p_cost);
    let s64 = b64::b64_encode(r.salt);
    let d64 = b64::b64_encode(r.digest);
    lemma_alg_round_trip(r.alg);
    lemma_version_round_trip(r.version);
    lemma_params_round_trip(r.m_cost, r.t_cost, r.p_cost);
    lemma_b64_sep_free(r.salt);
    lemma_b64_sep_free(r.digest);
    b64::lemma_b64_round_trip(r.salt);
    b64::lemma_b64_round_trip(r.digest);
    let s = phc_bytes(r);
    let rest1 = tag + seq![36u8] + (vf + seq![36u8] + (pf + seq![36u8] + (s64 + seq![36u8] + d64)));
    assert(s =~= Seq::<u8>::empty() + seq![36u8] + rest1);
    lemma_split_concat(Seq::<u8>::empty(), rest1, 36);
    lemma_split_concat(tag, vf + seq![36u8] + (pf + seq![36u8] + (s64 + seq![36u8] + d64)), 36);
    lemma_split_concat(vf, pf + seq![36u8] + (s64 + seq![36u8] + d64), 36);
    lemma_split_concat(pf, s64 + seq![36u8] + d64, 36);
    lemma_split_concat(s64, d64, 36);
    lemma_split_sep_free(d64, 36);
    let parts = split_at_sep(s, 36);
    assert(parts =~~= seq![Seq::<u8>::empty(), tag, vf, pf, s64, d64]);
    let parsed = phc_parse(s);
    assert(parsed == Some(r));
}

/// A stored hash in parsed form. Fields mirror [`PhcRecord`]; the view is the
/// record itself.
pub struct PhcHash {
    pub alg: HashAlg,
    pub version: u32,
    pub m_cost: u32,
    pub t_cost: u32,
    pub p_cost: u32,
    pub salt: Vec<u8>,
    pub digest: Vec<u8>,
}

impl View for PhcHash {
    type V = PhcRecord;

    open spec fn view(&self) -> PhcRecord {
        PhcRecord {
            alg: self.alg,
            version: self.version,
            m_cost: self.m_cost,
            t_cost: self.t_cost,
            p_cost: self.p_cost,
            salt: self.salt@,
            digest: self.digest@,
        }
    }
}

/// Serialize a parsed hash to its PHC string bytes.
pub fn serialize(h: &PhcHash) -> (r: Vec<u8>)
    ensures
        r@ == phc_bytes(h@),
{
    let mut out: Vec<u8> = Vec::new();
    out.push(36);
    match h.alg {
        HashAlg::Argon2d => {
            out.push(97);
            out.push(114);
            out.push(103);
            out.push(111);
            out.push(110);
            out.push(50);
            out.push(100);
        },
        HashAlg::Argon2i => {
            out.push(97);
            out.push(114);
            out.push(103);
            out.push(111);
            out.push(110);
            out.push(50);
            out.push(105);
        },
        HashAlg::Argon2id => {
            out.push(97);
            out.push(114);
            out.push(103);
            out.push(111);
            out.push(110);
            out.push(50);
            out.push(105);
            out.push(100);
        },
    }
    assert(out@ =~= seq![36u8] + alg_tag(h@.alg));
    out.push(36);
    out.push(118);
    out.push(61);
    decimal::push_decimal(&mut out, h.version);
    assert(out@ =~= seq![36u8] + alg_tag(h@.alg) + seq![36u8] + version_field(h@.version));
    out.push(36);
    out.push(109);
    out.push(61);
    decimal::push_decimal(&mut out, h.m_cost);
    out.push(44);
    out.push(116);
    out.push(61);
    decimal::push_decimal(&mut out, h.t_cost);
    out.push(44);
    out.push(112);
    out.push(61);
    decimal::push_decimal(&mut out, h.p_cost);
    assert(out@ =~= seq![36u8] + alg_tag(h@.alg) + seq![36u8] + version_field(h@.version)
        + seq![36u8] + params_field(h@.m_cost, h@.t_cost, h@.p_cost));
    out.push(36);
    let mut salt64 = b64::encode(h.salt.as_slice());
    out.append(&mut salt64);
    out.push(36);
    let mut digest64 = b64::encode(h.digest.as_slice());
    out.append(&mut digest64);
    assert(out@ =~= phc_bytes(h@));
    out
}

/// Does the field hold the given algorithm identifier?
fn parse_alg_bytes(v: &Vec<u8>) -> (r: Option<HashAlg>)
    ensures
        r == parse_alg(v@),
{
    let n = v.len();
    if n == 7 && v[0] == 97 && v[1] == 114 && v[2] == 103 && v[3] == 111 && v[4] == 110 && v[5]
        == 50 && v[6] == 100 {
        proof {
            assert(v@ =~= alg_tag(HashAlg::Argon2d));
        }
        Some(HashAlg::Argon2d)
    } else if n == 7 && v[0] == 97 && v[1] == 114 && v[2] == 103 && v[3] == 111 && v[4] == 110
        && v[5] == 50 && v[6] == 105 {
        proof {
            assert(v@ =~= alg_tag(HashAlg::Argon2i));
        }
        Some(HashAlg::Argon2i)
    } else if n == 8 && v[0] == 97 && v[1] == 114 && v[2] == 103 && v[3] == 111 && v[4] == 110
        && v[5] == 50 && v[6] == 105 && v[7] == 100 {
        proof {
            assert(v@ =~= alg_tag(HashAlg::Argon2id));
        }
        Some(HashAlg::Argon2id)
    } else {
        None
    }
}

/// Parse one `<name>=<n>` field.
fn parse_param_bytes(v: &Vec<u8>, name: u8) -> (r: Option<u32>)
    ensures
        r == parse_param_field(v@, name),
{
    if v.len() < 2 || v[0] != name || v[1] != 61 {
        return None;
    }
    let tail = &v.as_slice()[2..v.len()];
    proof {
        assert(tail@ =~= v@.skip(2));
    }
    decimal::parse_decimal(tail)
}

/// Parse the `m=<m>,t=<t>,p=<p>` field.
fn parse_params_bytes(v: &Vec<u8>) -> (r: Option<(u32, u32, u32)>)
    ensures
        r == parse_params_field(v@),
{
    let parts = split_bytes(v.as_slice(), 44);
    proof {
        assert(parts.deep_view().len() == parts@.len());
    }
    if parts.len() != 3 {
        return None;
    }
    proof {
        assert(parts.deep_view()[0] == parts@[0]@);
        assert(parts.deep_view()[1] == parts@[1]@);
        assert(parts.deep_view()[2] == parts@[2]@);
    }
    let m = match parse_param_bytes(&parts[0], 109) {
        Some(x) => x,
        None => {
            return None;
        },
    };
    let t = match parse_param_bytes(&parts[1], 116) {
        Some(x) => x,
        None => {
            return None;
        },
    };
    let p = match parse_param_bytes(&parts[2], 112) {
        Some(x) => x,
        None => {
            return None;
        },
    };
    Some((m, t, p))
}

/// Parse a stored hash; `None` exactly where [`phc_parse`] rejects, so a
/// malformed stored value fails closed.
pub fn parse(s: &[u8]) -> (r: Option<PhcHash>)
    ensures
        match r {
            Some(h) => phc_parse(s@) == Some(h@) && h@.wf(),
            None => phc_parse(s@) is None,
        },
{
    let parts = split_bytes(s, 36);
    proof {
        assert(parts.deep_view().len() == parts@.len());
    }
    if parts.len() != 6 {
        return None;
    }
    proof {
        assert(parts.deep_view()[0] == parts@[0]@);
        assert(parts.deep_view()[1] == parts@[1]@);
        assert(parts.deep_view()[2] == parts@[2]@);
        assert(parts.deep_view()[3] == parts@[3]@);
        assert(parts.deep_view()[4] == parts@[4]@);
        assert(parts.deep_view()[5] == parts@[5]@);
    }
    if parts[0].len() != 0 {
        proof {
            assert(parts@[0]@ != Seq::<u8>::empty());
        }
        return None;
    }
    proof {
        assert(parts@[0]@ =~= Seq::<u8>::empty());
    }
    let alg = match parse_alg_bytes(&parts[1]) {
        Some(a) => a,
        None => {
            return None;
        },
    };
    let version = {
        let vf = &parts[2];
        if vf.len() < 2 || vf[0] != 118 || vf[1] != 61 {
            return None;
        }
        let tail = &vf.as_slice()[2..vf.len()];
        proof {
            assert(tail@ =~= parts@[2]@.skip(2));
        }
        match decimal::parse_decimal(tail) {
            Some(x) => x,
            None => {
                return None;
            },
        }
    };
    let mtp = match parse_params_bytes(&parts[3]) {
        Some(x) => x,
        None => {
            return None;
        },
    };
    let salt = match b64::decode(parts[4].as_slice()) {
        Some(x) => x,
        None => {
            return None;
        },
    };
    let digest = match b64::decode(parts[5].as_slice()) {
        Some(x) => x,
        None => {
            return None;
        },
    };
    if !(version == 16 || version == 19) {
        return None;
    }
    if mtp.0 < 8 || mtp.1 < 1 || mtp.2 < 1 || mtp.2 > 0xFFFFFF {
        return None;
    }
    if mtp.0 < 8 * mtp.2 {
        return None;
    }
    if salt.len() < 8 || salt.len() > 48 {
        return None;
    }
    if digest.len() < 4 || digest.len() > 64 {
        return None;
    }
    Some(PhcHash { alg, version, m_cost: mtp.0, t_cost: mtp.1, p_cost: mtp.2, salt, digest })
}

} // verus!
