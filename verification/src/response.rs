//! The closed set of responses the server can send, and their serialization
//! to the wire, bit-exact: status line, fixed headers, a `Content-Length`
//! computed from the exact byte count of the body, a blank line, the body.

use vstd::prelude::*;

use crate::numdec::all_digits;
use crate::numdec::dec_chars;
use crate::numdec::digits_value;
use crate::numdec::is_digit;
use crate::numdec::lemma_dec_chars_digits;
use crate::numdec::lemma_dec_chars_value;
use crate::numdec::u64_to_string;
use crate::strutil::is_first_occurrence;
use crate::strutil::occurs_at;
use vstd::utf8::encode_utf8;

verus! {

/// A response: a text body (or none), a binary body, not found, or created.
/// Constructing a variant performs no work; serialization is a pure function
/// of the variant's data.
pub enum HttpResponse {
    OkText(Option<String>),
    OkStream(Option<Vec<u8>>),
    NotFound,
    Created,
}

/// The serialized form of a `200 OK` with a text body of characters `b`:
/// the `Content-Length` is the UTF-8 byte count of `b`.
pub open spec fn spec_text_ok_body(b: Seq<char>) -> Seq<char> {
    "HTTP/1.1 200 OK\r\nContent-Type: text/plain\r\nContent-Length: "@ + dec_chars(
        encode_utf8(b).len(),
    ) + "\r\n\r\n"@ + b
}

/// The serialized text form of a response. The binary variants serialize to
/// the empty string here; they are rendered by `spec_wire_bytes` instead.
pub open spec fn spec_text_response(r: HttpResponse) -> Seq<char> {
    match r {
        HttpResponse::OkText(body) => match body {
            Some(body) => spec_text_ok_body(body@),
            None => "HTTP/1.1 200 OK\r\n\r\n"@,
        },
        HttpResponse::NotFound => "HTTP/1.1 404 NOT FOUND\r\n\r\n"@,
        HttpResponse::Created => "HTTP/1.1 201 CREATED\r\n\r\n"@,
        HttpResponse::OkStream(_) => Seq::empty(),
    }
}

/// The header block preceding a binary body of `n` bytes.
pub open spec fn spec_stream_header(n: nat) -> Seq<char> {
    "HTTP/1.1 200 OK\r\nContent-Type: application/octet-stream\r\nContent-Length: "@ + dec_chars(
        n,
    ) + "\r\n\r\n"@
}

/// The exact bytes a response puts on the wire.
pub open spec fn spec_wire_bytes(r: HttpResponse) -> Seq<u8> {
    match r {
        HttpResponse::OkStream(body) => match body {
            Some(body) => encode_utf8(spec_stream_header(body@.len())) + body@,
            None => encode_utf8(spec_text_response(r)),
        },
        _ => encode_utf8(spec_text_response(r)),
    }
}

/// Serializing a text body round-trips. In the wire text of a `200 OK` with
/// text body `b`, the first blank line — the first `\r\n\r\n` — stands right
/// after the `Content-Length` digits; everything after it is exactly `b`; and
/// those digits read back as exactly the UTF-8 byte count of `b`.
pub proof fn lemma_text_response_round_trip(b: Seq<char>)
    ensures
        ({
            let out = spec_text_ok_body(b);
            let n = encode_utf8(b).len();
            let digits = dec_chars(n);
            let p = 59 + digits.len() as int;
            &&& out.len() == p + 4 + b.len()
            &&& out.subrange(59, p) == digits
            &&& all_digits(digits)
            &&& digits_value(digits) == n
            &&& is_first_occurrence(out, seq!['\r', '\n', '\r', '\n'], p)
            &&& out.subrange(p + 4, out.len() as int) == b
        }),
{
    reveal_strlit("HTTP/1.1 200 OK\r\nContent-Type: text/plain\r\nContent-Length: ");
    reveal_strlit("\r\n\r\n");
    let head = "HTTP/1.1 200 OK\r\nContent-Type: text/plain\r\nContent-Length: "@;
    let out = spec_text_ok_body(b);
    let n = encode_utf8(b).len();
    let digits = dec_chars(n);
    let d = digits.len() as int;
    let p = 59 + d;
    let pat = seq!['\r', '\n', '\r', '\n'];
    lemma_dec_chars_digits(n);
    lemma_dec_chars_value(n);
    assert(head.len() == 59);
    assert forall|k: int| 0 <= k < 59 implies out[k] == head[k] by {}
    assert forall|k: int| 0 <= k < d implies out[59 + k] == digits[k] by {}
    assert forall|k: int| 0 <= k < 4 implies out[p + k] == "\r\n\r\n"@[k] by {}
    assert forall|k: int| 0 <= k < b.len() implies out[p + 4 + k] == b[k] by {}
    assert(out.subrange(59, p) =~= digits);
    assert(out.subrange(p, p + 4) =~= pat);
    assert(occurs_at(out, pat, p));
    assert(out.subrange(p + 4, out.len() as int) =~= b);
    assert forall|j: int| 0 <= j < p implies !occurs_at(out, pat, j) by {
        if occurs_at(out, pat, j) {
            let w = out.subrange(j, j + 4);
            assert(w[0] == out[j] && w[1] == out[j + 1] && w[2] == out[j + 2] && w[3] == out[j
                + 3]);
            if j + 4 <= 59 {
                assert(out[j] == '\r' && out[j + 1] == '\n' && out[j + 2] == '\r' && out[j + 3]
                    == '\n');
            } else {
                let k: int = if j < 59 {
                    59
                } else {
                    j
                };
                assert(j <= k <= j + 3 && 59 <= k < p);
                assert(out[k] == digits[k - 59]);
                assert(is_digit(digits[k - 59]));
                assert(out[k] == '\r' || out[k] == '\n');
            }
        }
    }
}

impl HttpResponse {
    /// Serializes the textual variants of a response. A binary variant
    /// yields the empty string: it carries no textual form.
    pub fn into_response(&self) -> (r: String)
        ensures
            r@ == spec_text_response(*self),
    {
        match self {
            HttpResponse::OkText(Some(body)) => {
                let len: usize = body.as_str().as_bytes_vec().len();
                let mut s = String::from_str(
                    "HTTP/1.1 200 OK\r\nContent-Type: text/plain\r\nContent-Length: ",
                );
                let num = u64_to_string(len as u64);
                s.append(num.as_str());
                s.append("\r\n\r\n");
                s.append(body.as_str());
                s
            },
            HttpResponse::OkText(None) => String::from_str("HTTP/1.1 200 OK\r\n\r\n"),
            HttpResponse::NotFound => String::from_str("HTTP/1.1 404 NOT FOUND\r\n\r\n"),
            HttpResponse::Created => String::from_str("HTTP/1.1 201 CREATED\r\n\r\n"),
            HttpResponse::OkStream(_) => String::new(),
        }
    }

    /// Serializes a response to its exact wire bytes. A binary body is
    /// appended raw after its header block; every other variant is the
    /// UTF-8 encoding of its textual form.
    pub fn into_stream_response(&self) -> (r: Vec<u8>)
        ensures
            r@ == spec_wire_bytes(*self),
    {
        match self {
            HttpResponse::OkStream(Some(body)) => {
                let len: usize = body.len();
                let mut s = String::from_str(
                    "HTTP/1.1 200 OK\r\nContent-Type: application/octet-stream\r\nContent-Length: ",
                );
                let num = u64_to_string(len as u64);
                s.append(num.as_str());
                s.append("\r\n\r\n");
                let mut out = s.as_str().as_bytes_vec();
                let ghost head = out@;
                let mut i: usize = 0;
                while i < body.len()
                    invariant
                        i <= body.len(),
                        out@ == head + body@.subrange(0, i as int),
                    decreases body.len() - i,
                {
                    out.push(body[i]);
                    proof {
                        assert(head + body@.subrange(0, i + 1) =~= (head + body@.subrange(
                            0,
                            i as int,
                        )).push(body@[i as int]));
                    }
                    i = i + 1;
                }
                proof {
                    assert(body@.subrange(0, body@.len() as int) =~= body@);
                }
                out
            },
            HttpResponse::OkStream(None) => {
                let r = self.into_response();
                r.as_str().as_bytes_vec()
            },
            _ => {
                let r = self.into_response();
                r.as_str().as_bytes_vec()
            },
        }
    }
}

} // verus!

