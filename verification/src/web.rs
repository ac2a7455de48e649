//! What the transport accepts as the body of a request.
//!
//! Receiving a request is not done here. Whoever receives it hands over its
//! content type and the bytes of its body.

use crate::text::starts_with;
use vstd::prelude::*;
use vstd::string::StringExecFns;
use vstd::utf8::{decode_utf8, valid_utf8};

verus! {

/// The largest body that is accepted, in bytes.
pub const MAX_BODY_SIZE: usize = 25 * 1024 * 1025;

/// The content type that a body must have.
pub const JSON_CONTENT_TYPE: &'static str = "application/json";

/// Whether a body of this content type, with these bytes, is accepted: the
/// content type begins with that of JSON, the body is not larger than the
/// limit, and its bytes are UTF-8.
pub open spec fn accepted_body(content_type: Option<Seq<char>>, body: Seq<u8>) -> bool {
    &&& content_type matches Some(header)
    &&& JSON_CONTENT_TYPE@.is_prefix_of(header)
    &&& body.len() <= MAX_BODY_SIZE
    &&& valid_utf8(body)
}

/// The body of a request as text, where it is accepted.
///
/// `content_type` is the request's content type, if it names one, and
/// `body` holds the bytes of its body.
pub fn read_json_text(content_type: Option<&str>, body: &[u8]) -> (text: Option<String>)
    ensures
        text is Some <==> accepted_body(
            match content_type {
                Some(header) => Some(header@),
                None => None,
            },
            body@,
        ),
        text matches Some(found) ==> found@ == decode_utf8(body@),
{
    match content_type {
        Some(header) => if !starts_with(header, JSON_CONTENT_TYPE) {
            return None;
        },
        None => {
            return None;
        },
    }
    if body.len() > MAX_BODY_SIZE {
        return None;
    }
    match core::str::from_utf8(body) {
        Ok(parsed) => {
            proof {
                vstd::utf8::encode_utf8_decode_utf8(parsed@);
            }
            Some(String::from_str(parsed))
        },
        Err(_) => None,
    }
}

} // verus!
