//! Subscriber-name validation: a name is taken only when it is not
//! whitespace-only, runs to at most 256 grapheme clusters, and holds none of
//! the characters the rendering layer cannot take.

use vstd::prelude::*;
use vstd::string::StrSliceExecFns;

verus! {

/// The Unicode White_Space code points, as `char::is_whitespace` decides.
pub open spec fn is_whitespace_char(c: char) -> bool {
    let u = c as u32;
    (9 <= u && u <= 13) || u == 32 || u == 0x85 || u == 0xA0 || u == 0x1680 || (0x2000 <= u && u
        <= 0x200A) || u == 0x2028 || u == 0x2029 || u == 0x202F || u == 0x205F || u == 0x3000
}

/// Characters a name may not hold.
pub open spec fn is_forbidden_char(c: char) -> bool {
    c == '/' || c == '(' || c == ')' || c == '"' || c == '<' || c == '>' || c == '\\' || c == '{'
        || c == '}'
}

/// Empty, or whitespace throughout: what trimming would leave empty.
pub open spec fn all_whitespace(s: Seq<char>) -> bool {
    forall|i: int| 0 <= i < s.len() ==> is_whitespace_char(#[trigger] s[i])
}

pub open spec fn has_forbidden_char(s: Seq<char>) -> bool {
    exists|i: int| 0 <= i < s.len() && is_forbidden_char(#[trigger] s[i])
}

/// How many extended grapheme clusters a string runs to: a function of the
/// characters alone.
pub uninterp spec fn grapheme_count(s: Seq<char>) -> nat;

/// A valid subscriber name.
pub open spec fn valid_name(s: Seq<char>) -> bool {
    !all_whitespace(s) && grapheme_count(s) <= 256 && !has_forbidden_char(s)
}

/// Relies on `char::is_whitespace`: true exactly on the Unicode White_Space
/// code points listed in [`is_whitespace_char`].
#[verifier::external_body]
fn is_whitespace_exec(c: char) -> (r: bool)
    ensures
        r == is_whitespace_char(c),
{
    c.is_whitespace()
}

/// Relies on `unicode_segmentation::UnicodeSegmentation::graphemes` (with
/// extended grapheme clusters) for the cluster count the length rule is
/// stated over.
#[verifier::external_body]
fn grapheme_count_exec(s: &str) -> (r: usize)
    ensures
        r as nat == grapheme_count(s@),
{
    unicode_segmentation::UnicodeSegmentation::graphemes(s, true).count()
}

fn is_forbidden_exec(c: char) -> (r: bool)
    ensures
        r == is_forbidden_char(c),
{
    c == '/' || c == '(' || c == ')' || c == '"' || c == '<' || c == '>' || c == '\\' || c == '{'
        || c == '}'
}

/// Decide validity of a subscriber name.
pub fn is_valid_name(s: &str) -> (r: bool)
    ensures
        r == valid_name(s@),
{
    let n = s.unicode_len();
    let mut all_ws = true;
    let mut forbidden = false;
    let mut i: usize = 0;
    while i < n
        invariant
            n == s@.len(),
            i <= n,
            all_ws == (forall|j: int| 0 <= j < i ==> is_whitespace_char(#[trigger] s@[j])),
            forbidden == (exists|j: int| 0 <= j < i && is_forbidden_char(#[trigger] s@[j])),
        decreases n - i,
    {
        let c = s.get_char(i);
        let ws = is_whitespace_exec(c);
        let fb = is_forbidden_exec(c);
        proof {
            if !ws {
                assert(!is_whitespace_char(s@[i as int]));
            }
            if fb {
                assert(is_forbidden_char(s@[i as int]));
            }
        }
        all_ws = all_ws && ws;
        forbidden = forbidden || fb;
        i = i + 1;
    }
    if all_ws || forbidden {
        return false;
    }
    let count = grapheme_count_exec(s);
    count <= 256
}

/// A validated subscriber name.
pub struct SubscriberName(String);

impl View for SubscriberName {
    type V = Seq<char>;

    closed spec fn view(&self) -> Seq<char> {
        self.0@
    }
}

impl SubscriberName {
    /// Accept exactly the valid names; the rejected string comes back in the
    /// error text.
    pub fn parse(s: String) -> (r: Result<SubscriberName, String>)
        ensures
            match r {
                Ok(name) => valid_name(s@) && name@ == s@,
                Err(e) => !valid_name(s@) && e@ == s@ + " is not a valid SubscriberName"@,
            },
    {
        if is_valid_name(s.as_str()) {
            Ok(SubscriberName(s))
        } else {
            let mut msg = s;
            msg.append(" is not a valid SubscriberName");
            Err(msg)
        }
    }

    /// The validated name.
    pub fn as_str(&self) -> (r: &str)
        ensures
            r@ == self@,
    {
        self.0.as_str()
    }
}

/// A raw subscription form: what the routing layer hands over.
pub struct FormData {
    pub email: String,
    pub name: String,
}

} // verus!
