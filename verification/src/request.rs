//! Parsing raw request text into a structured request.
//!
//! The wire format is a request line `"<METHOD> <PATH> <VERSION>"`,
//! zero or more header lines `"<Name>: <Value>"`, and a terminating
//! empty line, all separated by `"\r\n"`. Anything after the empty
//! line (a body) is discarded. A request line with fewer than three
//! tokens, or a header line without `": "`, is rejected as malformed
//! rather than parsed partially.

use vstd::prelude::*;
use vstd::string::{StringExecFns, StrSliceExecFns};
use crate::headers::HeaderMap;
use crate::text::{colon_space, crlf, find_sub, first_match, lemma_first_match, single_space,
    split_on, split_str};

verus! {

/// How handling a received request can fail: the bytes were not valid
/// text, or the text did not have the shape of a request.
#[derive(Clone, Copy, Debug, PartialEq, Eq, Structural)]
pub enum HttpError {
    Decode,
    Malformed,
}

/// The lines of the raw text, split on `"\r\n"`.
pub open spec fn spec_lines(s: Seq<char>) -> Seq<Seq<char>> {
    split_on(s, crlf())
}

/// The space-separated tokens of the request line (the first line).
pub open spec fn request_tokens(s: Seq<char>) -> Seq<Seq<char>> {
    split_on(spec_lines(s)[0], single_space())
}

/// Every line from position `i` up to the first empty line contains the
/// header separator `": "`.
pub open spec fn headers_ok(lines: Seq<Seq<char>>, i: int) -> bool
    decreases lines.len() - i,
{
    if i < 0 || i >= lines.len() || lines[i].len() == 0 {
        true
    } else {
        first_match(lines[i], colon_space()) >= 0 && headers_ok(lines, i + 1)
    }
}

/// The header mapping collected from the lines from position `i` up to
/// the first empty line, starting from `acc`; a later duplicate name
/// overwrites an earlier one.
pub open spec fn spec_headers(
    lines: Seq<Seq<char>>,
    i: int,
    acc: Map<Seq<char>, Seq<char>>,
) -> Map<Seq<char>, Seq<char>>
    decreases lines.len() - i,
{
    if i < 0 || i >= lines.len() || lines[i].len() == 0 {
        acc
    } else {
        let m = first_match(lines[i], colon_space());
        spec_headers(
            lines,
            i + 1,
            acc.insert(lines[i].subrange(0, m), lines[i].subrange(m + 2, lines[i].len() as int)),
        )
    }
}

/// The raw text has the shape of a request: three request-line tokens
/// and well-separated header lines.
pub open spec fn request_ok(s: Seq<char>) -> bool {
    request_tokens(s).len() >= 3 && headers_ok(spec_lines(s), 1)
}

/// Method of a well-shaped raw request.
pub open spec fn spec_method(s: Seq<char>) -> Seq<char> {
    request_tokens(s)[0]
}

/// Path of a well-shaped raw request.
pub open spec fn spec_path(s: Seq<char>) -> Seq<char> {
    request_tokens(s)[1]
}

/// Protocol version of a well-shaped raw request.
pub open spec fn spec_version(s: Seq<char>) -> Seq<char> {
    request_tokens(s)[2]
}

/// Header mapping of a well-shaped raw request.
pub open spec fn spec_headers_of(s: Seq<char>) -> Map<Seq<char>, Seq<char>> {
    spec_headers(spec_lines(s), 1, Map::empty())
}

/// A parsed request.
pub struct Request {
    pub http_version: String,
    pub method: String,
    pub path: String,
    pub headers: HeaderMap,
}

/// `req` is exactly what parsing the raw text `s` yields.
pub open spec fn parsed_from(req: Request, s: Seq<char>) -> bool {
    &&& req.method@ == spec_method(s)
    &&& req.path@ == spec_path(s)
    &&& req.http_version@ == spec_version(s)
    &&& req.headers.wf()
    &&& req.headers.as_map() == spec_headers_of(s)
}

impl Request {
    /// Parses raw request text. Returns the structured request exactly
    /// when the text has the shape of a request, and reports a malformed
    /// request otherwise.
    pub fn new(raw: String) -> (r: Result<Request, HttpError>)
        ensures
            r is Ok <==> request_ok(raw@),
            r is Err ==> r == Err::<Request, HttpError>(HttpError::Malformed),
            r matches Ok(req) ==> parsed_from(req, raw@),
    {
        proof {
            reveal_strlit("\r\n");
            reveal_strlit(" ");
            reveal_strlit(": ");
            assert("\r\n"@ =~= crlf());
            assert(" "@ =~= single_space());
            assert(": "@ =~= colon_space());
        }
        let lines = split_str(raw.as_str(), "\r\n");
        proof {
            assert(lines.deep_view() == spec_lines(raw@));
            assert(lines.deep_view()[0] == lines@[0]@);
        }
        let toks = split_str(lines[0].as_str(), " ");
        if toks.len() < 3 {
            proof {
                assert(toks.deep_view().len() == toks@.len());
            }
            return Err(HttpError::Malformed);
        }
        let mut headers = HeaderMap::new();
        let nl = lines.len();
        let ghost gl = spec_lines(raw@);
        let mut j: usize = 1;
        loop
            invariant_except_break
                1 <= j <= nl,
                nl == lines@.len(),
                lines.deep_view() == gl,
                gl == spec_lines(raw@),
                headers.wf(),
                headers_ok(gl, 1) == headers_ok(gl, j as int),
                spec_headers_of(raw@) == spec_headers(gl, j as int, headers.as_map()),
            ensures
                headers.wf(),
                headers_ok(gl, 1),
                spec_headers_of(raw@) == headers.as_map(),
            decreases nl - j,
        {
            proof {
                reveal_strlit(": ");
                assert(": "@ =~= colon_space());
            }
            if j == nl {
                break;
            }
            proof {
                assert(lines.deep_view()[j as int] == lines@[j as int]@);
            }
            if lines[j].as_str().is_empty() {
                break;
            }
            let line: &str = lines[j].as_str();
            match find_sub(line, ": ") {
                None => {
                    proof {
                        assert(!headers_ok(gl, j as int));
                    }
                    return Err(HttpError::Malformed);
                },
                Some(m) => {
                    proof {
                        lemma_first_match(line@, colon_space());
                    }
                    let ll = line.unicode_len();
                    let name = line.substring_char(0, m).to_owned();
                    let value = line.substring_char(m + 2, ll).to_owned();
                    headers.insert(name, value);
                    j += 1;
                },
            }
        }
        let method = toks[0].clone();
        let path = toks[1].clone();
        let http_version = toks[2].clone();
        proof {
            assert(toks.deep_view()[0] == toks@[0]@);
            assert(toks.deep_view()[1] == toks@[1]@);
            assert(toks.deep_view()[2] == toks@[2]@);
        }
        Ok(Request { http_version, method, path, headers })
    }

    /// A short rendering of the request, `"<METHOD> <PATH>"`.
    pub fn to_string(&mut self) -> (r: String)
        ensures
            *final(self) == *old(self),
            r@ == old(self).method@ + single_space() + old(self).path@,
    {
        let mut r = self.method.clone();
        r.append(" ");
        r.append(self.path.as_str());
        proof {
            reveal_strlit(" ");
            assert(" "@ =~= single_space());
        }
        r
    }
}

} // verus!
