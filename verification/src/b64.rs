//! Base64 and the HTTP Basic authorization header.

use vstd::prelude::*;
use vstd::string::StringExecFns;
use vstd::string::StringSliceAdditionalSpecFns;
use vstd::utf8::encode_utf8;

verus! {

/// The character of the standard base64 alphabet at position `n`.
pub open spec fn b64_char(n: int) -> char {
    "ABCDEFGHIJKLMNOPQRSTUVWXYZabcdefghijklmnopqrstuvwxyz0123456789+/"@[n]
}

/// Standard base64 with `'='` padding: four output characters for every
/// group of three input bytes, the final partial group padded.
pub open spec fn b64_chars(b: Seq<u8>) -> Seq<char>
    decreases b.len(),
{
    if b.len() == 0 {
        Seq::empty()
    } else if b.len() == 1 {
        seq![
            b64_char((b[0] >> 2) as int),
            b64_char(((b[0] & 3) << 4) as int),
            '=',
            '=',
        ]
    } else if b.len() == 2 {
        seq![
            b64_char((b[0] >> 2) as int),
            b64_char((((b[0] & 3) << 4) | (b[1] >> 4)) as int),
            b64_char(((b[1] & 15) << 2) as int),
            '=',
        ]
    } else {
        seq![
            b64_char((b[0] >> 2) as int),
            b64_char((((b[0] & 3) << 4) | (b[1] >> 4)) as int),
            b64_char((((b[1] & 15) << 2) | (b[2] >> 6)) as int),
            b64_char((b[2] & 63) as int),
        ] + b64_chars(b.skip(3))
    }
}

/// Relies on `base64::encode`: encodes bytes with the standard alphabet and
/// `'='` padding.
#[verifier::external_body]
fn b64_encode(s: &str) -> (r: String)
    ensures
        r@ == b64_chars(s.spec_bytes()),
{
    base64::encode(s.as_bytes())
}

/// The value of the `Authorization` header: HTTP Basic with the username
/// literal `API_KEY` and the API token as the password.
pub open spec fn auth_header_chars(token: Seq<char>) -> Seq<char> {
    "Basic "@ + b64_chars(encode_utf8("API_KEY:"@ + token))
}

/// Builds the `Authorization` header value for the given API token.
pub fn auth_header(token: &str) -> (r: String)
    ensures
        r@ == auth_header_chars(token@),
{
    let mut credential = String::from_str("API_KEY:");
    credential.append(token);
    let encoded = b64_encode(credential.as_str());
    let mut r = String::from_str("Basic ");
    r.append(encoded.as_str());
    r
}

} // verus!
