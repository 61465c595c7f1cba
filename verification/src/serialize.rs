//! Rendering a response to wire bytes.
//!
//! The wire form is the status line `"<VERSION> <code> <description>"`,
//! a fixed `Server` identification header, the registered headers in
//! the sorted order their mapping keeps, an empty line, and then the
//! raw body bytes with no trailing terminator; lines end with `"\r\n"`.

use vstd::prelude::*;
use vstd::string::{StringExecFns, StrSliceExecFns};
use vstd::utf8::encode_utf8;
use crate::headers::HeaderMap;
use crate::response::Response;
use crate::text::{colon_space, crlf, lex_lt, single_space};

verus! {

/// The protocol version every response is stamped with.
pub open spec fn http_version() -> Seq<char> {
    "HTTP/1.1"@
}

/// The fixed `Server` header line, identification string included.
pub open spec fn server_line() -> Seq<char> {
    "Server: Rust/1.0.0 (Windows)"@
}

/// The decimal digit characters in order.
pub open spec fn digit_char(d: int) -> char {
    seq!['0', '1', '2', '3', '4', '5', '6', '7', '8', '9'][d]
}

/// The decimal digits of a non-negative number, most significant first.
pub open spec fn dec_digits(n: int) -> Seq<char>
    decreases n,
{
    if n < 10 {
        seq![digit_char(n)]
    } else {
        dec_digits(n / 10).push(digit_char(n % 10))
    }
}

/// The decimal rendering of a status code, sign included.
pub open spec fn code_chars(code: int) -> Seq<char> {
    if code < 0 {
        seq!['-'] + dec_digits(-code)
    } else {
        dec_digits(code)
    }
}

/// One rendered header line, without its terminator.
pub open spec fn header_line(e: (Seq<char>, Seq<char>)) -> Seq<char> {
    e.0 + colon_space() + e.1 + crlf()
}

/// The rendered header lines of the given entries, in order.
pub open spec fn header_lines_chars(es: Seq<(Seq<char>, Seq<char>)>) -> Seq<char>
    decreases es.len(),
{
    if es.len() == 0 {
        Seq::empty()
    } else {
        header_line(es[0]) + header_lines_chars(es.drop_first())
    }
}

/// The textual head of a response: status line, `Server` header,
/// registered headers in stored order, and the terminating empty line.
pub open spec fn head_chars(code: int, descr: Seq<char>, hs: Seq<(Seq<char>, Seq<char>)>) -> Seq<char> {
    http_version() + single_space() + code_chars(code) + single_space() + descr + crlf()
        + server_line() + crlf() + header_lines_chars(hs) + crlf()
}

/// The wire bytes of a response: the UTF-8 encoding of its head followed
/// immediately by the raw body bytes.
pub open spec fn spec_serialize(resp: Response) -> Seq<u8> {
    encode_utf8(head_chars(resp.code.code as int, resp.code.description@, resp.headers@))
        + resp.data@
}

/// Appends the decimal digits of `m`.
fn push_digits(out: &mut String, m: u32)
    ensures
        final(out)@ == old(out)@ + dec_digits(m as int),
    decreases m,
{
    if m >= 10 {
        push_digits(out, m / 10);
    }
    let d = m % 10;
    let ds: &str = if d == 0 {
        "0"
    } else if d == 1 {
        "1"
    } else if d == 2 {
        "2"
    } else if d == 3 {
        "3"
    } else if d == 4 {
        "4"
    } else if d == 5 {
        "5"
    } else if d == 6 {
        "6"
    } else if d == 7 {
        "7"
    } else if d == 8 {
        "8"
    } else {
        "9"
    };
    proof {
        reveal_strlit("0");
        reveal_strlit("1");
        reveal_strlit("2");
        reveal_strlit("3");
        reveal_strlit("4");
        reveal_strlit("5");
        reveal_strlit("6");
        reveal_strlit("7");
        reveal_strlit("8");
        reveal_strlit("9");
        assert(ds@ =~= seq![digit_char(d as int)]);
    }
    out.append(ds);
    proof {
        assert(final(out)@ =~= old(out)@ + dec_digits(m as int));
    }
}

/// Appends the decimal rendering of `code`, sign included.
fn push_code(out: &mut String, code: i32)
    ensures
        final(out)@ == old(out)@ + code_chars(code as int),
{
    if code < 0 {
        out.append("-");
        let m: u32 = (-(code as i64)) as u32;
        push_digits(out, m);
        proof {
            reveal_strlit("-");
            assert(final(out)@ =~= old(out)@ + code_chars(code as int));
        }
    } else {
        push_digits(out, code as u32);
    }
}

/// Rendering one more entry extends the rendered header lines by one line.
proof fn lemma_header_lines_snoc(es: Seq<(Seq<char>, Seq<char>)>, i: int)
    requires
        0 <= i < es.len(),
    ensures
        header_lines_chars(es.take(i + 1)) == header_lines_chars(es.take(i)) + header_line(es[i]),
    decreases i,
{
    if i == 0 {
        let t1 = es.take(1);
        assert(t1.drop_first().len() == 0);
        assert(header_lines_chars(t1.drop_first()) =~= Seq::<char>::empty());
        assert(t1[0] == es[0]);
        assert(header_lines_chars(t1) =~= header_line(es[0]));
        assert(header_lines_chars(es.take(0)) =~= Seq::<char>::empty());
        assert(header_lines_chars(es.take(1)) =~= header_lines_chars(es.take(0)) + header_line(es[0]));
    } else {
        let t = es.drop_first();
        assert(es.take(i + 1)[0] == es[0]);
        assert(es.take(i + 1).drop_first() =~= t.take(i));
        assert(es.take(i).drop_first() =~= t.take(i - 1));
        assert(es.take(i)[0] == es[0]);
        lemma_header_lines_snoc(t, i - 1);
        assert(t[i - 1] == es[i]);
        assert(header_lines_chars(es.take(i + 1)) =~= header_lines_chars(es.take(i))
            + header_line(es[i]));
    }
}

/// Renders a response to the bytes to put on the wire.
pub fn serialize_response(resp: &Response) -> (r: Vec<u8>)
    ensures
        r@ == spec_serialize(*resp),
{
    let ghost hs = resp.headers@;
    let mut head = String::new();
    head.append("HTTP/1.1");
    head.append(" ");
    push_code(&mut head, resp.code.code);
    head.append(" ");
    head.append(resp.code.description);
    head.append("\r\n");
    head.append("Server: Rust/1.0.0 (Windows)");
    head.append("\r\n");
    proof {
        reveal_strlit("HTTP/1.1");
        reveal_strlit(" ");
        reveal_strlit("\r\n");
        reveal_strlit("Server: Rust/1.0.0 (Windows)");
        assert(" "@ =~= single_space());
        assert("\r\n"@ =~= crlf());
    }
    let ghost pre = head@;
    let n = resp.headers.entries.len();
    let mut i: usize = 0;
    while i < n
        invariant
            i <= n,
            n == hs.len(),
            hs == resp.headers@,
            head@ == pre + header_lines_chars(hs.take(i as int)),
        decreases n - i,
    {
        proof {
            reveal_strlit(": ");
            reveal_strlit("\r\n");
            assert(": "@ =~= colon_space());
            assert("\r\n"@ =~= crlf());
        }
        head.append(resp.headers.entries[i].0.as_str());
        head.append(": ");
        head.append(resp.headers.entries[i].1.as_str());
        head.append("\r\n");
        proof {
            lemma_header_lines_snoc(hs, i as int);
            assert(hs[i as int] == (resp.headers.entries@[i as int].0@,
                resp.headers.entries@[i as int].1@));
            assert(head@ =~= pre + header_lines_chars(hs.take(i + 1)));
        }
        i += 1;
    }
    head.append("\r\n");
    proof {
        reveal_strlit("\r\n");
        assert("\r\n"@ =~= crlf());
        assert(hs.take(n as int) =~= hs);
        assert(head@ =~= head_chars(resp.code.code as int, resp.code.description@, hs));
    }
    let mut out = head.as_str().as_bytes_vec();
    out.extend_from_slice(resp.data.as_slice());
    proof {
        assert(out@ =~= spec_serialize(*resp));
    }
    out
}

/// The header names of a serialized response appear in sorted order:
/// the serializer renders the entries in their stored order, and a
/// well-formed header mapping keeps that order lexicographic by name.
pub proof fn lemma_serialized_header_order(h: HeaderMap)
    requires
        h.wf(),
    ensures
        forall|i: int, j: int| 0 <= i < j < h@.len()
            ==> lex_lt(#[trigger] h@[i].0, #[trigger] h@[j].0),
{
}

/// Any response with status `(200, "Ok")` and no registered headers
/// serializes to the fixed head below followed immediately by its body
/// bytes, nothing more.
pub proof fn lemma_serialize_ok_response(resp: Response)
    requires
        resp.code.code == 200,
        resp.code.description@ == "Ok"@,
        resp.headers@ == Seq::<(Seq<char>, Seq<char>)>::empty(),
    ensures
        spec_serialize(resp) == encode_utf8(
            "HTTP/1.1 200 Ok\r\nServer: Rust/1.0.0 (Windows)\r\n\r\n"@,
        ) + resp.data@,
{
    reveal_strlit("HTTP/1.1");
    reveal_strlit("Ok");
    reveal_strlit("Server: Rust/1.0.0 (Windows)");
    reveal_strlit("HTTP/1.1 200 Ok\r\nServer: Rust/1.0.0 (Windows)\r\n\r\n");
    assert(dec_digits(2) =~= seq!['2']);
    assert(dec_digits(20) =~= seq!['2', '0']);
    assert(dec_digits(200) =~= seq!['2', '0', '0']);
    assert(code_chars(200) =~= seq!['2', '0', '0']);
    assert(header_lines_chars(resp.headers@) =~= Seq::<char>::empty());
    assert(head_chars(200, resp.code.description@, resp.headers@)
        =~= "HTTP/1.1 200 Ok\r\nServer: Rust/1.0.0 (Windows)\r\n\r\n"@);
}

} // verus!
