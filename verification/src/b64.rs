//! Unpadded base64 with the standard alphabet, as the PHC string format uses
//! for salt and digest fields. Encoding and decoding are verified to invert
//! one another, and decoding accepts only canonical encodings (trailing bits
//! of a final partial group must be zero).

use vstd::prelude::*;
use vstd::arithmetic::div_mod::{lemma_fundamental_div_mod, lemma_fundamental_div_mod_converse};

verus! {

/// The character (as a byte) that stands for a six-bit value.
pub open spec fn sextet_char(v: u8) -> u8
    recommends
        v < 64,
{
    if v < 26 {
        (65 + v) as u8
    } else if v < 52 {
        (97 + v - 26) as u8
    } else if v < 62 {
        (48 + v - 52) as u8
    } else if v == 62 {
        43u8
    } else {
        47u8
    }
}

/// The six-bit value a character stands for, if it is in the alphabet.
pub open spec fn sextet_val(c: u8) -> Option<u8> {
    if 65 <= c && c < 91 {
        Some((c - 65) as u8)
    } else if 97 <= c && c < 123 {
        Some((c - 97 + 26) as u8)
    } else if 48 <= c && c < 58 {
        Some((c - 48 + 52) as u8)
    } else if c == 43 {
        Some(62u8)
    } else if c == 47 {
        Some(63u8)
    } else {
        None
    }
}

/// Every alphabet character decodes back to the value it stands for.
pub proof fn lemma_sextet_round_trip(v: u8)
    requires
        v < 64,
    ensures
        sextet_val(sextet_char(v)) == Some(v),
{
}

/// First sextet of a group: high six bits of the first byte.
pub open spec fn enc0(b0: u8) -> u8 {
    (b0 as int / 4) as u8
}

/// Second sextet: low two bits of the first byte, high four of the second.
pub open spec fn enc1(b0: u8, b1: u8) -> u8 {
    (b0 as int % 4 * 16 + b1 as int / 16) as u8
}

/// Third sextet: low four bits of the second byte, high two of the third.
pub open spec fn enc2(b1: u8, b2: u8) -> u8 {
    (b1 as int % 16 * 4 + b2 as int / 64) as u8
}

/// Fourth sextet: low six bits of the third byte.
pub open spec fn enc3(b2: u8) -> u8 {
    (b2 as int % 64) as u8
}

/// Unpadded base64 encoding of a byte sequence.
pub open spec fn b64_encode(s: Seq<u8>) -> Seq<u8>
    decreases s.len(),
{
    if s.len() == 0 {
        Seq::<u8>::empty()
    } else if s.len() == 1 {
        seq![sextet_char(enc0(s[0])), sextet_char(enc1(s[0], 0))]
    } else if s.len() == 2 {
        seq![
            sextet_char(enc0(s[0])),
            sextet_char(enc1(s[0], s[1])),
            sextet_char(enc2(s[1], 0)),
        ]
    } else {
        seq![
            sextet_char(enc0(s[0])),
            sextet_char(enc1(s[0], s[1])),
            sextet_char(enc2(s[1], s[2])),
            sextet_char(enc3(s[2])),
        ] + b64_encode(s.skip(3))
    }
}

/// First byte of a group, from its first two sextets.
pub open spec fn dec0(v0: u8, v1: u8) -> u8 {
    (v0 as int * 4 + v1 as int / 16) as u8
}

/// Second byte, from the second and third sextets.
pub open spec fn dec1(v1: u8, v2: u8) -> u8 {
    (v1 as int % 16 * 16 + v2 as int / 4) as u8
}

/// Third byte, from the third and fourth sextets.
pub open spec fn dec2(v2: u8, v3: u8) -> u8 {
    (v2 as int % 4 * 64 + v3 as int) as u8
}

/// Decoding of a canonical unpadded base64 sequence; `None` on any
/// out-of-alphabet character, an impossible length, or set trailing bits.
pub open spec fn b64_decode(s: Seq<u8>) -> Option<Seq<u8>>
    decreases s.len(),
{
    if s.len() == 0 {
        Some(Seq::<u8>::empty())
    } else if s.len() == 1 {
        None
    } else if s.len() == 2 {
        match (sextet_val(s[0]), sextet_val(s[1])) {
            (Some(v0), Some(v1)) => if v1 as int % 16 == 0 {
                Some(seq![dec0(v0, v1)])
            } else {
                None
            },
            _ => None,
        }
    } else if s.len() == 3 {
        match (sextet_val(s[0]), sextet_val(s[1]), sextet_val(s[2])) {
            (Some(v0), Some(v1), Some(v2)) => if v2 as int % 4 == 0 {
                Some(seq![dec0(v0, v1), dec1(v1, v2)])
            } else {
                None
            },
            _ => None,
        }
    } else {
        match (sextet_val(s[0]), sextet_val(s[1]), sextet_val(s[2]), sextet_val(s[3])) {
            (Some(v0), Some(v1), Some(v2), Some(v3)) => match b64_decode(s.skip(4)) {
                Some(rest) => Some(seq![dec0(v0, v1), dec1(v1, v2), dec2(v2, v3)] + rest),
                None => None,
            },
            _ => None,
        }
    }
}

/// Unpacking the sextets of a full three-byte group gives the bytes back.
proof fn lemma_group_round_trip(b0: u8, b1: u8, b2: u8)
    ensures
        enc0(b0) < 64 && enc1(b0, b1) < 64 && enc2(b1, b2) < 64 && enc3(b2) < 64,
        dec0(enc0(b0), enc1(b0, b1)) == b0,
        dec1(enc1(b0, b1), enc2(b1, b2)) == b1,
        dec2(enc2(b1, b2), enc3(b2)) == b2,
{
    lemma_fundamental_div_mod_converse(b0 as int % 4 * 16 + b1 as int / 16, 16, b0 as int % 4, b1 as int / 16);
    lemma_fundamental_div_mod_converse(b1 as int % 16 * 4 + b2 as int / 64, 4, b1 as int % 16, b2 as int / 64);
    lemma_fundamental_div_mod(b0 as int, 4);
    lemma_fundamental_div_mod(b1 as int, 16);
    lemma_fundamental_div_mod(b2 as int, 64);
}

/// Encoded characters are all in the alphabet (hence, in particular, never a
/// separator such as `$` or `,`).
pub proof fn lemma_encode_chars(s: Seq<u8>)
    ensures
        forall|i: int| 0 <= i < b64_encode(s).len() ==> (#[trigger] sextet_val(b64_encode(s)[i])) is Some,
    decreases s.len(),
{
    if s.len() == 0 {
    } else if s.len() == 1 {
        lemma_group_round_trip(s[0], 0, 0);
        lemma_sextet_round_trip(enc0(s[0]));
        lemma_sextet_round_trip(enc1(s[0], 0));
    } else if s.len() == 2 {
        lemma_group_round_trip(s[0], s[1], 0);
        lemma_sextet_round_trip(enc0(s[0]));
        lemma_sextet_round_trip(enc1(s[0], s[1]));
        lemma_sextet_round_trip(enc2(s[1], 0));
    } else {
        lemma_group_round_trip(s[0], s[1], s[2]);
        lemma_sextet_round_trip(enc0(s[0]));
        lemma_sextet_round_trip(enc1(s[0], s[1]));
        lemma_sextet_round_trip(enc2(s[1], s[2]));
        lemma_sextet_round_trip(enc3(s[2]));
        lemma_encode_chars(s.skip(3));
        assert forall|i: int| 0 <= i < b64_encode(s).len() implies (#[trigger] sextet_val(
            b64_encode(s)[i],
        )) is Some by {
            if i >= 4 {
                assert(b64_encode(s)[i] == b64_encode(s.skip(3))[i - 4]);
            }
        }
    }
}

/// Decoding inverts encoding: the law the PHC round trip rests on.
pub proof fn lemma_b64_round_trip(s: Seq<u8>)
    ensures
        b64_decode(b64_encode(s)) == Some(s),
    decreases s.len(),
{
    if s.len() == 0 {
        assert(b64_encode(s) =~= Seq::<u8>::empty());
        assert(Seq::<u8>::empty() =~= s);
    } else if s.len() == 1 {
        lemma_group_round_trip(s[0], 0, 0);
        lemma_sextet_round_trip(enc0(s[0]));
        lemma_sextet_round_trip(enc1(s[0], 0));
        lemma_fundamental_div_mod_converse(enc1(s[0], 0) as int, 16, s[0] as int % 4, 0);
        assert(seq![dec0(enc0(s[0]), enc1(s[0], 0))] =~= s);
    } else if s.len() == 2 {
        lemma_group_round_trip(s[0], s[1], 0);
        lemma_sextet_round_trip(enc0(s[0]));
        lemma_sextet_round_trip(enc1(s[0], s[1]));
        lemma_sextet_round_trip(enc2(s[1], 0));
        lemma_fundamental_div_mod_converse(enc2(s[1], 0) as int, 4, s[1] as int % 16, 0);
        assert(seq![dec0(enc0(s[0]), enc1(s[0], s[1])), dec1(enc1(s[0], s[1]), enc2(s[1], 0))]
            =~= s);
    } else {
        lemma_group_round_trip(s[0], s[1], s[2]);
        lemma_sextet_round_trip(enc0(s[0]));
        lemma_sextet_round_trip(enc1(s[0], s[1]));
        lemma_sextet_round_trip(enc2(s[1], s[2]));
        lemma_sextet_round_trip(enc3(s[2]));
        lemma_b64_round_trip(s.skip(3));
        let e = b64_encode(s);
        assert(e.len() >= 4);
        assert(e.skip(4) =~= b64_encode(s.skip(3)));
        assert(seq![
            dec0(enc0(s[0]), enc1(s[0], s[1])),
            dec1(enc1(s[0], s[1]), enc2(s[1], s[2])),
            dec2(enc2(s[1], s[2]), enc3(s[2])),
        ] + s.skip(3) =~= s);
    }
}

/// The alphabet character for a six-bit value.
pub fn sextet_char_of(v: u8) -> (c: u8)
    requires
        v < 64,
    ensures
        c == sextet_char(v),
{
    if v < 26 {
        65 + v
    } else if v < 52 {
        97 + v - 26
    } else if v < 62 {
        48 + v - 52
    } else if v == 62 {
        43
    } else {
        47
    }
}

/// The six-bit value of an alphabet character, `None` outside the alphabet.
pub fn sextet_val_of(c: u8) -> (r: Option<u8>)
    ensures
        r == sextet_val(c),
{
    if 65 <= c && c < 91 {
        Some(c - 65)
    } else if 97 <= c && c < 123 {
        Some(c - 97 + 26)
    } else if 48 <= c && c < 58 {
        Some(c - 48 + 52)
    } else if c == 43 {
        Some(62)
    } else if c == 47 {
        Some(63)
    } else {
        None
    }
}

/// Encode a byte string as unpadded base64.
pub fn encode(input: &[u8]) -> (r: Vec<u8>)
    ensures
        r@ == b64_encode(input@),
{
    let mut out: Vec<u8> = Vec::new();
    let mut i: usize = 0;
    proof {
        assert(input@.skip(0) =~= input@);
    }
    while input.len() - i >= 3
        invariant
            i <= input.len(),
            b64_encode(input@) == out@ + b64_encode(input@.skip(i as int)),
        decreases input.len() - i,
    {
        let b0 = input[i];
        let b1 = input[i + 1];
        let b2 = input[i + 2];
        proof {
            lemma_group_round_trip(b0, b1, b2);
            assert(input@.skip(i as int)[0] == b0);
            assert(input@.skip(i as int)[1] == b1);
            assert(input@.skip(i as int)[2] == b2);
            assert(input@.skip(i as int).skip(3) =~= input@.skip(i + 3));
        }
        out.push(sextet_char_of(b0 / 4));
        out.push(sextet_char_of(b0 % 4 * 16 + b1 / 16));
        out.push(sextet_char_of(b1 % 16 * 4 + b2 / 64));
        out.push(sextet_char_of(b2 % 64));
        i = i + 3;
    }
    if input.len() - i == 1 {
        let b0 = input[i];
        proof {
            lemma_group_round_trip(b0, 0, 0);
            assert(input@.skip(i as int)[0] == b0);
            assert(input@.skip(i as int).len() == 1);
        }
        out.push(sextet_char_of(b0 / 4));
        out.push(sextet_char_of(b0 % 4 * 16));
    } else if input.len() - i == 2 {
        let b0 = input[i];
        let b1 = input[i + 1];
        proof {
            lemma_group_round_trip(b0, b1, 0);
            assert(input@.skip(i as int)[0] == b0);
            assert(input@.skip(i as int)[1] == b1);
            assert(input@.skip(i as int).len() == 2);
        }
        out.push(sextet_char_of(b0 / 4));
        out.push(sextet_char_of(b0 % 4 * 16 + b1 / 16));
        out.push(sextet_char_of(b1 % 16 * 4));
    } else {
        proof {
            assert(input@.skip(i as int).len() == 0);
            assert(b64_encode(input@.skip(i as int)) =~= Seq::<u8>::empty());
        }
    }
    out
}

/// Decode an unpadded base64 string; `None` exactly where the grammar
/// rejects it.
pub fn decode(input: &[u8]) -> (r: Option<Vec<u8>>)
    ensures
        match r {
            Some(v) => b64_decode(input@) == Some(v@),
            None => b64_decode(input@) is None,
        },
{
    let mut out: Vec<u8> = Vec::new();
    let mut i: usize = 0;
    proof {
        assert(input@.skip(0) =~= input@);
    }
    while input.len() - i >= 4
        invariant
            i <= input.len(),
            b64_decode(input@) == match b64_decode(input@.skip(i as int)) {
                Some(rest) => Some(out@ + rest),
                None => None::<Seq<u8>>,
            },
        decreases input.len() - i,
    {
        proof {
            assert(input@.skip(i as int)[0] == input@[i as int]);
            assert(input@.skip(i as int)[1] == input@[i as int + 1]);
            assert(input@.skip(i as int)[2] == input@[i as int + 2]);
            assert(input@.skip(i as int)[3] == input@[i as int + 3]);
            assert(input@.skip(i as int).skip(4) =~= input@.skip(i + 4));
        }
        let v0 = match sextet_val_of(input[i]) {
            Some(v) => v,
            None => {
                return None;
            },
        };
        let v1 = match sextet_val_of(input[i + 1]) {
            Some(v) => v,
            None => {
                return None;
            },
        };
        let v2 = match sextet_val_of(input[i + 2]) {
            Some(v) => v,
            None => {
                return None;
            },
        };
        let v3 = match sextet_val_of(input[i + 3]) {
            Some(v) => v,
            None => {
                return None;
            },
        };
        out.push(v0 * 4 + v1 / 16);
        out.push(v1 % 16 * 16 + v2 / 4);
        out.push(v2 % 4 * 64 + v3);
        i = i + 4;
    }
    let rem = input.len() - i;
    if rem == 0 {
        proof {
            assert(input@.skip(i as int).len() == 0);
            assert(out@ + Seq::<u8>::empty() =~= out@);
        }
        Some(out)
    } else if rem == 1 {
        None
    } else if rem == 2 {
        proof {
            assert(input@.skip(i as int)[0] == input@[i as int]);
            assert(input@.skip(i as int)[1] == input@[i as int + 1]);
            assert(input@.skip(i as int).len() == 2);
        }
        let v0 = match sextet_val_of(input[i]) {
            Some(v) => v,
            None => {
                return None;
            },
        };
        let v1 = match sextet_val_of(input[i + 1]) {
            Some(v) => v,
            None => {
                return None;
            },
        };
        if v1 % 16 != 0 {
            return None;
        }
        out.push(v0 * 4 + v1 / 16);
        Some(out)
    } else {
        proof {
            assert(input@.skip(i as int)[0] == input@[i as int]);
            assert(input@.skip(i as int)[1] == input@[i as int + 1]);
            assert(input@.skip(i as int)[2] == input@[i as int + 2]);
            assert(input@.skip(i as int).len() == 3);
        }
        let v0 = match sextet_val_of(input[i]) {
            Some(v) => v,
            None => {
                return None;
            },
        };
        let v1 = match sextet_val_of(input[i + 1]) {
            Some(v) => v,
            None => {
                return None;
            },
        };
        let v2 = match sextet_val_of(input[i + 2]) {
            Some(v) => v,
            None => {
                return None;
            },
        };
        if v2 % 4 != 0 {
            return None;
        }
        out.push(v0 * 4 + v1 / 16);
        out.push(v1 % 16 * 16 + v2 / 4);
        Some(out)
    }
}

} // verus!
