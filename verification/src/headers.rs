//! Values of the `Authorization` header.
use crate::outside::{base64_encode, base64_standard, header_value_accepts, is_header_value};
use vstd::prelude::*;
use vstd::string::*;
use vstd::utf8::encode_utf8;

verus! {

/// The bearer-token authorization value for a token.
pub open spec fn bearer_text(token: Seq<char>) -> Seq<char> {
    "Bearer "@ + token
}

/// The basic authorization value for a user name and password: `Basic ` and the
/// standard base64 encoding of the UTF-8 bytes of `user:password`.
pub open spec fn basic_text(user: Seq<char>, password: Seq<char>) -> Seq<char> {
    "Basic "@ + base64_standard(encode_utf8(user + ":"@ + password))
}

/// `Bearer {token}`, when it is a valid header value.
pub fn bearer_value(token: &str) -> (r: Option<String>)
    ensures
        match r {
            Some(v) => v@ == bearer_text(token@) && is_header_value(v@),
            None => !is_header_value(bearer_text(token@)),
        },
{
    let mut v = "Bearer ".to_owned();
    v.append(token);
    if header_value_accepts(v.as_str()) {
        Some(v)
    } else {
        None
    }
}

/// `Basic {base64(user:password)}`, when it is a valid header value.
pub fn basic_value(user: &str, password: &str) -> (r: Option<String>)
    ensures
        match r {
            Some(v) => v@ == basic_text(user@, password@) && is_header_value(v@),
            None => !is_header_value(basic_text(user@, password@)),
        },
{
    let mut credentials = user.to_owned();
    credentials.append(":");
    credentials.append(password);
    let encoded = base64_encode(credentials.as_str().as_bytes());
    let mut v = "Basic ".to_owned();
    v.append(encoded.as_str());
    if header_value_accepts(v.as_str()) {
        Some(v)
    } else {
        None
    }
}

} // verus!
