//! The decisions of the per-connection pipeline: decode the received
//! bytes, parse them, and resolve the handler to dispatch to.
//!
//! The I/O around these decisions — accepting, reading, invoking the
//! resolved handler, writing, shutting the socket down — stays with the
//! caller, which hands in the received bytes and takes back either the
//! parsed request with its handler or the error to report.

use vstd::prelude::*;
use vstd::utf8::{decode_utf8, valid_utf8};
use crate::request::{parsed_from, request_ok, HttpError, Request};
use crate::router::RouteTable;

verus! {

/// Relies on `std::str::from_utf8`: it returns `Ok` exactly on valid
/// UTF-8 input, decoding the bytes to their character sequence.
#[verifier::external_body]
fn decode_text(bytes: &Vec<u8>) -> (r: Option<String>)
    ensures
        r is Some <==> valid_utf8(bytes@),
        r matches Some(s) ==> s@ == decode_utf8(bytes@),
{
    match std::str::from_utf8(bytes.as_slice()) {
        Ok(s) => Some(s.to_owned()),
        Err(_) => None,
    }
}

/// Turns received bytes into a request. Bytes that are not valid text
/// fail with a decode error; text without the shape of a request fails
/// as malformed. No partially-parsed request is ever returned.
pub fn parse_received(received: &Vec<u8>) -> (r: Result<Request, HttpError>)
    ensures
        r is Ok <==> valid_utf8(received@) && request_ok(decode_utf8(received@)),
        !valid_utf8(received@) ==> r == Err::<Request, HttpError>(HttpError::Decode),
        valid_utf8(received@) && !request_ok(decode_utf8(received@))
            ==> r == Err::<Request, HttpError>(HttpError::Malformed),
        r matches Ok(req) ==> parsed_from(req, decode_utf8(received@)),
{
    match decode_text(received) {
        None => Err(HttpError::Decode),
        Some(text) => Request::new(text),
    }
}

/// Decodes and parses the received bytes and resolves the handler for
/// the request's path: the registered handler on an exact match, the
/// table's fallback on any other path.
pub fn resolve<'a, H>(table: &'a RouteTable<H>, received: &Vec<u8>) -> (r: Result<
    (Request, &'a H),
    HttpError,
>)
    requires
        table.wf(),
    ensures
        r is Ok <==> valid_utf8(received@) && request_ok(decode_utf8(received@)),
        !valid_utf8(received@) ==> r == Err::<(Request, &'a H), HttpError>(HttpError::Decode),
        valid_utf8(received@) && !request_ok(decode_utf8(received@))
            ==> r == Err::<(Request, &'a H), HttpError>(HttpError::Malformed),
        r matches Ok(p) ==> ({
            &&& parsed_from(p.0, decode_utf8(received@))
            &&& table.spec_routes().contains_key(p.0.path@) ==> *p.1
                == table.spec_routes()[p.0.path@]
            &&& !table.spec_routes().contains_key(p.0.path@) ==> *p.1 == table.spec_fallback()
        }),
{
    match parse_received(received) {
        Err(e) => Err(e),
        Ok(req) => {
            let handler = table.lookup(&req.path);
            Ok((req, handler))
        },
    }
}

/// The literal line written directly to the socket when handling a
/// connection fails before a response could be produced.
pub fn internal_error_line() -> (r: &'static str)
    ensures
        r@ == "500 Internal Server Error"@,
{
    "500 Internal Server Error"
}

} // verus!
