//! The error taxonomy of the engine.
//!
//! Every failure between building a request and decoding its response is
//! surfaced as one of these variants; nothing is retried and nothing is
//! swallowed.

use vstd::prelude::*;

verus! {

/// Declares serde_json's JSON value type; `ApiError` carries one
/// opaquely for the caller to inspect.
#[verifier::external_type_specification]
#[verifier::external_body]
pub struct ExValue(serde_json::Value);

/// Whether serde_json parses these bytes as a JSON document.
pub uninterp spec fn json_parses(s: Seq<u8>) -> bool;

/// Relies on serde_json::from_slice for `Value`: parses the bytes as a
/// JSON document; success depends on the bytes alone.
#[verifier::external_body]
pub(crate) fn parse_json_value(bytes: &Vec<u8>) -> (r: Option<serde_json::Value>)
    ensures
        r is Some <==> json_parses(bytes@),
{
    serde_json::from_slice(bytes).ok()
}

/// A non-2xx answer: the status code, the raw body bytes, and the body
/// parsed as a JSON value whenever it parses as one.
#[derive(Debug)]
pub struct ApiError {
    pub code: u16,
    pub content: Option<serde_json::Value>,
    pub raw: Vec<u8>,
}

/// What can go wrong between building a request and decoding its
/// response.
#[derive(Debug)]
pub enum Error {
    /// The assembled URI does not parse; fatal, never retried.
    UriError(String),
    /// The transport failed to carry the request or the response.
    TransportError(String),
    /// The server answered with a non-2xx status.
    ApiError(ApiError),
    /// The response body does not match the expected shape.
    DecodeError(String),
    /// A body value could not be serialized when it was attached.
    SerializeError(String),
}

} // verus!
