//! The response shape that handlers produce, with its helper constructors.
//!
//! A response is a status (numeric code and reason phrase), a header
//! mapping and a body of raw bytes. No validation is performed on the
//! status: any code and phrase are transmitted verbatim.

use vstd::prelude::*;
use vstd::string::StrSliceExecFns;
use vstd::string::StringExecFns;
use vstd::utf8::encode_utf8;
use crate::headers::HeaderMap;

verus! {

/// A status: numeric code plus human-readable reason phrase.
pub struct ResponseCode {
    pub code: i32,
    pub description: &'static str,
}

/// What a handler returns and the serializer renders.
pub struct Response {
    pub data: Vec<u8>,
    pub code: ResponseCode,
    pub headers: HeaderMap,
}

/// The fixed body served by the default fallback handler.
pub open spec fn not_found_body() -> Seq<char> {
    "<html><body>404</body></html>"@
}

/// A success response carrying raw bytes.
pub fn bytes(data: Vec<u8>) -> (r: Response)
    ensures
        r.data@ == data@,
        r.code.code == 200,
        r.code.description@ == "Ok"@,
        r.headers.wf(),
        r.headers@ == Seq::<(Seq<char>, Seq<char>)>::empty(),
        r.headers.as_map() == Map::<Seq<char>, Seq<char>>::empty(),
{
    Response { data, code: ResponseCode { code: 200, description: "Ok" }, headers: HeaderMap::new() }
}

/// A success response carrying text.
pub fn str(s: &'static str) -> (r: Response)
    ensures
        r.data@ == encode_utf8(s@),
        r.code.code == 200,
        r.code.description@ == "Ok"@,
        r.headers.wf(),
        r.headers@ == Seq::<(Seq<char>, Seq<char>)>::empty(),
        r.headers.as_map() == Map::<Seq<char>, Seq<char>>::empty(),
{
    bytes(s.as_bytes_vec())
}

/// A response with the given status and an empty body.
pub fn err(code: i32, description: &'static str) -> (r: Response)
    ensures
        r.data@ == Seq::<u8>::empty(),
        r.code.code == code,
        r.code.description == description,
        r.headers.wf(),
        r.headers@ == Seq::<(Seq<char>, Seq<char>)>::empty(),
        r.headers.as_map() == Map::<Seq<char>, Seq<char>>::empty(),
{
    let r = Response {
        data: Vec::new(),
        code: ResponseCode { code, description },
        headers: HeaderMap::new(),
    };
    proof {
        assert(r.data@ =~= Seq::<u8>::empty());
    }
    r
}

/// A response with the given status and headers and an empty body.
pub fn err_with_headers(code: i32, description: &'static str, headers: HeaderMap) -> (r: Response)
    ensures
        r.data@ == Seq::<u8>::empty(),
        r.code.code == code,
        r.code.description == description,
        r.headers == headers,
{
    let r = Response { data: Vec::new(), code: ResponseCode { code, description }, headers };
    proof {
        assert(r.data@ =~= Seq::<u8>::empty());
    }
    r
}

/// A permanent redirect to `newpath`: status `(301, "Moved Permanently")`
/// with a `Location` header naming the new path.
pub fn redirect(newpath: &'static str) -> (r: Response)
    ensures
        r.data@ == Seq::<u8>::empty(),
        r.code.code == 301,
        r.code.description@ == "Moved Permanently"@,
        r.headers.wf(),
        r.headers.as_map() == Map::<Seq<char>, Seq<char>>::empty().insert("Location"@, newpath@),
{
    let mut headers = HeaderMap::new();
    headers.insert(String::from_str("Location"), String::from_str(newpath));
    err_with_headers(301, "Moved Permanently", headers)
}

/// What the default fallback handler serves on unmatched paths: status
/// `(404, "Not found")` with a fixed small HTML body.
pub fn not_found_response() -> (r: Response)
    ensures
        r.data@ == encode_utf8(not_found_body()),
        r.code.code == 404,
        r.code.description@ == "Not found"@,
        r.headers.wf(),
        r.headers@ == Seq::<(Seq<char>, Seq<char>)>::empty(),
        r.headers.as_map() == Map::<Seq<char>, Seq<char>>::empty(),
{
    let mut r = err(404, "Not found");
    r.data = "<html><body>404</body></html>".as_bytes_vec();
    r
}

} // verus!
