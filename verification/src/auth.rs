//! Authentication of API callers and of the demo console.
use base64::Engine;
use crate::text::{str_eq, utf8_text};
use vstd::prelude::*;

verus! {

/// Compares two byte strings in time that depends only on their lengths.
pub fn constant_time_eq(left: &[u8], right: &[u8]) -> (eq: bool)
    ensures
        eq == (left@ == right@),
{
    if left.len() != right.len() {
        return false;
    }
    let mut difference: u8 = 0;
    let mut i: usize = 0;
    while i < left.len()
        invariant
            left@.len() == right@.len(),
            i <= left@.len(),
            (difference == 0) == (forall|k: int| 0 <= k < i ==> left@[k] == right@[k]),
        decreases left.len() - i,
    {
        let a = left[i];
        let b = right[i];
        let next = difference | (a ^ b);
        assert((next == 0) == (difference == 0 && a == b)) by (bit_vector)
            requires
                next == difference | (a ^ b),
        ;
        difference = next;
        i = i + 1;
    }
    proof {
        if difference == 0 {
            assert(left@ =~= right@);
        }
    }
    difference == 0
}

/// The browser origins allowed to read the console API.
pub open spec fn spec_allowed_console_origin(origin: Seq<char>) -> bool {
    origin == "https://demo.highwater.cloud"@ || origin == "http://localhost:8080"@ || origin
        == "http://127.0.0.1:8080"@
}

/// Only the demo console and local development servers may read the console API.
pub fn allowed_console_origin(origin: &str) -> (allowed: bool)
    ensures
        allowed == spec_allowed_console_origin(origin@),
{
    str_eq(origin, "https://demo.highwater.cloud") || str_eq(origin, "http://localhost:8080")
        || str_eq(origin, "http://127.0.0.1:8080")
}

/// `text` with `prefix` removed, when it starts with it.
pub open spec fn spec_strip_prefix(text: Seq<char>, prefix: Seq<char>) -> Option<Seq<char>> {
    if prefix.is_prefix_of(text) {
        Some(text.subrange(prefix.len() as int, text.len() as int))
    } else {
        None
    }
}

/// `str::strip_prefix`.
pub fn strip_prefix<'a>(text: &'a str, prefix: &str) -> (rest: Option<&'a str>)
    ensures
        match spec_strip_prefix(text@, prefix@) {
            Some(r) => rest matches Some(x) && x@ == r,
            None => rest is None,
        },
{
    broadcast use vstd::string::group_string_axioms;

    let n = prefix.unicode_len();
    if n > text.unicode_len() {
        return None;
    }
    let head = text.substring_char(0, n);
    if !str_eq(head, prefix) {
        proof {
            if prefix@.is_prefix_of(text@) {
                assert(head@ =~= prefix@);
            }
        }
        return None;
    }
    proof {
        assert forall|i: int| 0 <= i < prefix@.len() implies prefix@[i] == text@[i] by {
            assert(head@[i] == text@[i]);
        }
    }
    Some(text.substring_char(n, text.unicode_len()))
}

/// The decoded bytes of standard, padded base64 text, or `None` when it is not valid base64.
pub uninterp spec fn base64_standard_decoded(text: Seq<u8>) -> Option<Seq<u8>>;

/// Calls `base64::engine::general_purpose::STANDARD.decode`. The contract only names its
/// result: what it decodes is a function of the text alone.
#[verifier::external_body]
fn base64_standard_decode(text: &[u8]) -> (bytes: Option<Vec<u8>>)
    ensures
        match bytes {
            Some(b) => base64_standard_decoded(text@) == Some(b@),
            None => base64_standard_decoded(text@) is None,
        },
{
    base64::engine::general_purpose::STANDARD.decode(text).ok()
}

/// The text before and after the first `:`, when there is one.
pub open spec fn spec_split_at_colon(text: Seq<char>) -> Option<(Seq<char>, Seq<char>)> {
    if exists|i: int| 0 <= i < text.len() && text[i] == ':' {
        let i = choose|i: int|
            0 <= i < text.len() && text[i] == ':' && forall|k: int| 0 <= k < i ==> text[k] != ':';
        Some((text.subrange(0, i), text.subrange(i + 1, text.len() as int)))
    } else {
        None
    }
}

/// `str::split_once(':')`.
pub fn split_at_colon(text: &str) -> (parts: Option<(String, String)>)
    ensures
        match spec_split_at_colon(text@) {
            Some((a, b)) => parts matches Some((x, y)) && x@ == a && y@ == b,
            None => parts is None,
        },
{
    broadcast use vstd::string::group_string_axioms;

    let n = text.unicode_len();
    let mut i: usize = 0;
    while i < n
        invariant
            n == text@.len(),
            i <= n,
            forall|k: int| 0 <= k < i ==> text@[k] != ':',
        decreases n - i,
    {
        if text.get_char(i) == ':' {
            let ghost j = i as int;
            proof {
                let c = choose|c: int|
                    0 <= c < text@.len() && text@[c] == ':' && forall|k: int|
                        0 <= k < c ==> text@[k] != ':';
                assert(0 <= j < text@.len() && text@[j] == ':' && forall|k: int|
                    0 <= k < j ==> text@[k] != ':');
                if c < j {
                    assert(text@[c] != ':');
                } else if c > j {
                    assert(text@[j] != ':');
                }
            }
            let before = text.substring_char(0, i).to_owned();
            let after = text.substring_char(i + 1, n).to_owned();
            return Some((before, after));
        }
        i = i + 1;
    }
    None
}

/// The username and password the demo console accepts.
pub struct ConsoleCredentials {
    pub username: String,
    pub password: String,
}

/// The credentials carried by an `Authorization` header, when it is HTTP Basic with
/// base64 of UTF-8 `user:password`.
pub open spec fn spec_basic_credentials(authorization: Option<Seq<char>>) -> Option<
    (Seq<char>, Seq<char>),
> {
    match authorization {
        None => None,
        Some(header) => match spec_strip_prefix(header, "Basic "@) {
            None => None,
            Some(encoded) => match base64_standard_decoded(vstd::utf8::encode_utf8(encoded)) {
                None => None,
                Some(bytes) => if vstd::utf8::valid_utf8(bytes) {
                    spec_split_at_colon(vstd::utf8::decode_utf8(bytes))
                } else {
                    None
                },
            },
        },
    }
}

/// Whether an `Authorization` header carries exactly the console's username and password.
pub fn console_credentials_match(authorization: Option<&str>, expected: &ConsoleCredentials) -> (ok:
    bool)
    ensures
        ok == (spec_basic_credentials(
            match authorization {
                Some(a) => Some(a@),
                None => None,
            },
        ) matches Some((user, pass)) && user == expected.username@ && pass
            == expected.password@),
{
    let header = match authorization {
        Some(h) => h,
        None => return false,
    };
    let encoded = match strip_prefix(header, "Basic ") {
        Some(e) => e,
        None => return false,
    };
    let bytes = match base64_standard_decode(encoded.as_bytes()) {
        Some(b) => b,
        None => return false,
    };
    let text = match utf8_text(bytes.as_slice()) {
        Some(t) => t,
        None => return false,
    };
    let (user, pass) = match split_at_colon(text.as_str()) {
        Some(parts) => parts,
        None => return false,
    };
    let user_ok = constant_time_eq(user.as_str().as_bytes(), expected.username.as_str().as_bytes());
    let pass_ok = constant_time_eq(pass.as_str().as_bytes(), expected.password.as_str().as_bytes());
    proof {
        vstd::utf8::encode_utf8_decode_utf8(user@);
        vstd::utf8::encode_utf8_decode_utf8(expected.username@);
        vstd::utf8::encode_utf8_decode_utf8(pass@);
        vstd::utf8::encode_utf8_decode_utf8(expected.password@);
    }
    user_ok && pass_ok
}

/// Whether an `Authorization` header carries the expected bearer token.
pub fn bearer_token_matches(authorization: Option<&str>, expected: &str) -> (ok: bool)
    ensures
        ok == (authorization matches Some(a) && spec_strip_prefix(a@, "Bearer "@) == Some(
            expected@,
        )),
{
    match authorization {
        None => false,
        Some(header) => match strip_prefix(header, "Bearer ") {
            None => false,
            Some(token) => {
                let ok = constant_time_eq(token.as_bytes(), expected.as_bytes());
                proof {
                    vstd::utf8::encode_utf8_decode_utf8(token@);
                    vstd::utf8::encode_utf8_decode_utf8(expected@);
                }
                ok
            },
        },
    }
}

/// Standard, padded base64 text of some bytes.
pub uninterp spec fn base64_standard_text(bytes: Seq<u8>) -> Seq<char>;

/// Calls `base64::engine::general_purpose::STANDARD.encode`; the text is named
/// `base64_standard_text` of the bytes.
#[verifier::external_body]
fn base64_standard_encode(bytes: &[u8]) -> (text: String)
    ensures
        text@ == base64_standard_text(bytes@),
{
    base64::engine::general_purpose::STANDARD.encode(bytes)
}

/// The `Authorization` header the control service expects: HTTP Basic with the configured
/// username and password.
pub open spec fn spec_control_authorization(username: Seq<char>, password: Seq<char>) -> Seq<char> {
    "Basic "@ + base64_standard_text(vstd::utf8::encode_utf8(username + ":"@ + password))
}

/// Whether a request to the control service carries exactly the expected credentials.
pub fn control_authorized(authorization: Option<&str>, username: &str, password: &str) -> (ok: bool)
    ensures
        ok == (authorization matches Some(a) && a@ == spec_control_authorization(
            username@,
            password@,
        )),
{
    let mut credentials = String::new();
    credentials.append(username);
    credentials.append(":");
    credentials.append(password);
    let mut expected = String::new();
    expected.append("Basic ");
    let encoded = base64_standard_encode(credentials.as_str().as_bytes());
    expected.append(encoded.as_str());
    match authorization {
        Some(a) => str_eq(a, expected.as_str()),
        None => false,
    }
}

} // verus!
