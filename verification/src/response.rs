//! Response disposition: status inspection, decode-input selection and
//! body decoding.

use vstd::prelude::*;

verus! {

use crate::error::{json_parses, parse_json_value, ApiError, Error};

/// A successful HTTP status: 2xx.
pub open spec fn is_success(status: u16) -> bool {
    200 <= status < 300
}

/// The literal JSON `null` token, as bytes.
pub open spec fn null_token() -> Seq<u8> {
    seq![110u8, 117u8, 108u8, 108u8]
}

/// The bytes handed to the decoder on success: the `null` token for an
/// operation that returns nothing — so that a truly empty body cannot
/// fail to decode into the unit result — and the raw body otherwise.
pub open spec fn decode_input(no_return_type: bool, body: Seq<u8>) -> Seq<u8> {
    if no_return_type {
        null_token()
    } else {
        body
    }
}

/// Disposition of a response. A non-2xx status yields the `ApiError`
/// carrying the status, the raw body, and the body parsed as JSON
/// exactly when it parses; the success decoder is never consulted. A
/// 2xx status selects the decoder input.
pub fn response_payload(no_return_type: bool, status: u16, body: Vec<u8>) -> (r: Result<
    Vec<u8>,
    Error,
>)
    ensures
        r is Ok <==> is_success(status),
        r matches Ok(p) ==> p@ == decode_input(no_return_type, body@),
        r matches Err(e) ==> e matches Error::ApiError(a) && a.code == status && a.raw@ == body@
            && (a.content is Some <==> json_parses(body@)),
{
    if 200 <= status && status < 300 {
        if no_return_type {
            let mut p: Vec<u8> = Vec::new();
            p.push(110);
            p.push(117);
            p.push(108);
            p.push(108);
            proof {
                assert(p@ =~= null_token());
            }
            Ok(p)
        } else {
            Ok(body)
        }
    } else {
        let content = parse_json_value(&body);
        Err(Error::ApiError(ApiError { code: status, content, raw: body }))
    }
}

/// Relies on serde_json::from_slice: decodes the bytes into `U`; a
/// failure is handed back as the parse error's text.
#[verifier::external_body]
fn from_json_bytes<U: serde::de::DeserializeOwned>(bytes: &Vec<u8>) -> (r: Result<U, String>) {
    match serde_json::from_slice(bytes) {
        Ok(v) => Ok(v),
        Err(e) => Err(format!("{}", e)),
    }
}

/// Decodes a response into the caller's result type: status inspection,
/// then body decoding of the selected input. A non-2xx status is an
/// `ApiError` as in `response_payload`; on a 2xx status the only
/// possible failure is a `DecodeError` from the body not matching `U`.
pub fn handle_response<U: serde::de::DeserializeOwned>(
    no_return_type: bool,
    status: u16,
    body: Vec<u8>,
) -> (r: Result<U, Error>)
    ensures
        !is_success(status) ==> (r matches Err(e) && (e matches Error::ApiError(a) && a.code
            == status && a.raw@ == body@ && (a.content is Some <==> json_parses(body@)))),
        is_success(status) ==> (r matches Err(e) ==> e matches Error::DecodeError(_)),
{
    match response_payload(no_return_type, status, body) {
        Err(e) => Err(e),
        Ok(payload) => match from_json_bytes::<U>(&payload) {
            Ok(v) => Ok(v),
            Err(msg) => Err(Error::DecodeError(msg)),
        },
    }
}

} // verus!
