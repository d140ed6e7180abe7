//! Identifiers of requests and upload sessions.

use crate::text::to_chars;
use vstd::prelude::*;

verus! {

pub open spec fn is_hex(c: char) -> bool {
    let u = c as u32;
    48 <= u <= 57 || 65 <= u <= 70 || 97 <= u <= 102
}

/// Eight, four, four, four and twelve hexadecimal digits with hyphens between
/// them.
pub open spec fn is_hyphenated(s: Seq<char>) -> bool {
    &&& s.len() == 36
    &&& forall|i: int|
        0 <= i < 36 ==> if i == 8 || i == 13 || i == 18 || i == 23 {
            #[trigger] s[i] == '-'
        } else {
            is_hex(s[i])
        }
}

/// Whether `s` is a random UUID, of version 4, in the form with hyphens and in
/// lower-case letters.
pub open spec fn is_random_uuid(s: Seq<char>) -> bool {
    &&& is_hyphenated(s)
    &&& forall|i: int| 0 <= i < 36 ==> !(65 <= (#[trigger] s[i]) as u32 <= 70)
    &&& s[14] == '4'
    &&& s[19] == '8' || s[19] == '9' || s[19] == 'a' || s[19] == 'b'
}

/// `urn:uuid:` in lower or upper case letters.
pub open spec fn is_urn_prefix(s: Seq<char>) -> bool {
    &&& s.len() == 9
    &&& s[0] == 'u' || s[0] == 'U'
    &&& s[1] == 'r' || s[1] == 'R'
    &&& s[2] == 'n' || s[2] == 'N'
    &&& s[3] == ':'
    &&& s[4] == 'u' || s[4] == 'U'
    &&& s[5] == 'u' || s[5] == 'U'
    &&& s[6] == 'i' || s[6] == 'I'
    &&& s[7] == 'd' || s[7] == 'D'
    &&& s[8] == ':'
}

/// The texts that denote a UUID: 32 digits, the form with hyphens, that form in
/// braces, and that form as a URN.
pub open spec fn is_uuid(s: Seq<char>) -> bool {
    ||| s.len() == 32 && forall|i: int| 0 <= i < 32 ==> is_hex(#[trigger] s[i])
    ||| is_hyphenated(s)
    ||| s.len() == 38 && s[0] == '{' && s[37] == '}' && is_hyphenated(s.subrange(1, 37))
    ||| s.len() == 45 && is_urn_prefix(s.subrange(0, 9)) && is_hyphenated(s.subrange(9, 45))
}

/// `Uuid::parse_str` accepts exactly the texts that denote a UUID.
#[verifier::external_body]
pub(crate) fn parses_as_uuid(s: &str) -> (r: bool)
    ensures
        r == is_uuid(s@),
{
    uuid::Uuid::parse_str(s).is_ok()
}

/// `Uuid::new_v4` and its `to_string`: a UUID of version 4 and of the usual
/// variant, with hyphens and in lower case. Its other digits are left to
/// chance.
#[verifier::external_body]
pub(crate) fn random_uuid() -> (r: String)
    ensures
        is_random_uuid(r@),
{
    uuid::Uuid::new_v4().to_string()
}

/// A text that denotes a UUID holds no path separator and no dot.
pub proof fn uuids_are_plain_names(s: Seq<char>, i: int)
    requires
        is_uuid(s),
        0 <= i < s.len(),
    ensures
        s[i] != '/',
        s[i] != '.',
        s[i] != '\\',
{
    if s.len() == 38 {
        let t = s.subrange(1, 37);
        if 0 < i < 37 {
            assert(s[i] == t[i - 1]);
        }
    } else if s.len() == 45 {
        let p = s.subrange(0, 9);
        let t = s.subrange(9, 45);
        if i < 9 {
            assert(s[i] == p[i]);
        } else {
            assert(s[i] == t[i - 9]);
        }
    }
}

/// The identifier of a request.
#[derive(Debug)]
pub struct RequestId(pub String);

impl Clone for RequestId {
    fn clone(&self) -> (r: Self)
        ensures
            r == *self,
    {
        RequestId(self.0.clone())
    }
}

impl RequestId {
    /// The identifier as text.
    pub fn text(&self) -> (r: String)
        ensures
            r@ == self.0@,
    {
        self.0.clone()
    }
}

/// Whether a client may name its request so: 1 to 512 ASCII characters.
pub open spec fn is_valid_request_id(s: Seq<char>) -> bool {
    &&& 1 <= s.len() <= 512
    &&& forall|i: int| 0 <= i < s.len() ==> (#[trigger] s[i]) as u32 <= 127
}

/// The identifier that the client chose, or `generated` where the client chose
/// none that is valid.
pub fn choose_request_id(client: Option<&str>, generated: String) -> (r: RequestId)
    ensures
        r.0@ == match client {
            Some(s) => if is_valid_request_id(s@) {
                s@
            } else {
                generated@
            },
            None => generated@,
        },
{
    match client {
        None => RequestId(generated),
        Some(s) => {
            let chars = to_chars(s);
            if chars.len() < 1 || chars.len() > 512 {
                return RequestId(generated);
            }
            let mut i: usize = 0;
            while i < chars.len()
                invariant
                    i <= chars@.len(),
                    chars@ == s@,
                    client == Some(s),
                    forall|j: int| 0 <= j < i ==> (#[trigger] s@[j]) as u32 <= 127,
                decreases chars.len() - i,
            {
                let u: u32 = chars[i] as u32;
                if u > 127 {
                    return RequestId(generated);
                }
                i = i + 1;
            }
            RequestId(s.to_string())
        },
    }
}

/// The identifier of a request: that of the client, or a new random one.
pub fn request_id(client: Option<&str>) -> (r: RequestId)
    ensures
        match client {
            Some(s) => if is_valid_request_id(s@) {
                r.0@ == s@
            } else {
                is_random_uuid(r.0@)
            },
            None => is_random_uuid(r.0@),
        },
{
    choose_request_id(client, random_uuid())
}

/// Digits and the letters from `a` to `f` in either case are hexadecimal, and
/// nothing else is.
pub proof fn hexadecimal_digits(c: char)
    ensures
        '0' <= c <= '9' ==> is_hex(c),
        'a' <= c <= 'f' ==> is_hex(c),
        'A' <= c <= 'F' ==> is_hex(c),
        is_hex(c) ==> ('0' <= c <= '9') || ('a' <= c <= 'f') || ('A' <= c <= 'F'),
{
}

/// A UUID with hyphens may also stand in braces or behind `urn:uuid:`. A random
/// one is a UUID, and no text of another length is one.
pub proof fn uuids_have_four_forms(s: Seq<char>)
    ensures
        is_hyphenated(s) ==> is_uuid(s) && is_uuid(seq!['{'] + s + seq!['}']) && is_uuid(
            "urn:uuid:"@ + s,
        ),
        is_random_uuid(s) ==> is_uuid(s) && s.len() == 36 && s[8] == '-' && s[13] == '-' && s[18]
            == '-' && s[23] == '-' && s[14] == '4' && (s[19] == '8' || s[19] == '9' || s[19]
            == 'a' || s[19] == 'b') && (forall|i: int|
            0 <= i < 36 ==> !(65 <= (#[trigger] s[i]) as u32 <= 90)),
        s.len() != 32 && s.len() != 36 && s.len() != 38 && s.len() != 45 ==> !is_uuid(s),
{
    reveal_strlit("urn:uuid:");
    if is_hyphenated(s) {
        let braces = seq!['{'] + s + seq!['}'];
        assert(braces.subrange(1, 37) =~= s);
        let urn = "urn:uuid:"@ + s;
        assert(urn.subrange(0, 9) =~= "urn:uuid:"@);
        assert(urn.subrange(9, 45) =~= s);
    }
}

/// A client may name its request by any plain text of up to 512 characters. An
/// empty text, a longer one and one with another character are not taken.
pub proof fn plain_texts_name_requests(s: Seq<char>, i: int)
    ensures
        s.len() == 0 || s.len() > 512 ==> !is_valid_request_id(s),
        0 <= i < s.len() && s[i] as u32 >= 128 ==> !is_valid_request_id(s),
        0 < s.len() <= 512 && (forall|j: int| 0 <= j < s.len() ==> (#[trigger] s[j] as u32) < 128)
            ==> is_valid_request_id(s),
{
}

/// A plain UUID is 32 hexadecimal digits, and no text with any other character in
/// it. One with hyphens has them behind the eighth, the twelfth, the sixteenth and
/// the twentieth digit.
pub proof fn uuids_are_made_of_digits(s: Seq<char>, i: int)
    requires
        0 <= i < s.len(),
    ensures
        s.len() == 32 ==> (is_uuid(s) <==> forall|j: int|
            0 <= j < 32 ==> is_hex(#[trigger] s[j])),
        s.len() == 36 && s[i] == '-' && i != 8 && i != 13 && i != 18 && i != 23 ==> !is_uuid(s),
        s.len() == 36 && !is_hex(s[i]) && s[i] != '-' ==> !is_uuid(s),
        s.len() == 36 && (i == 8 || i == 13 || i == 18 || i == 23) && s[i] != '-' ==> !is_uuid(s),
{
}

} // verus!
