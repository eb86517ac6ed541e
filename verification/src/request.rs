//! Turning the raw header block of one connection into a structured request:
//! the request line into method and path, the remaining lines into typed
//! headers, and the raw body attached afterwards.
//!
//! The grammar is line-oriented. The first line must read
//! `<method> /<path> HTTP/1.1`, single spaces separating nonempty,
//! space-free tokens; the path is stored with its leading slash stripped.
//! Every later line of the form `key: value` (split at the first colon,
//! both sides trimmed) becomes a header; other lines are skipped.

use vstd::prelude::*;

use crate::headers::HeaderMap;
use crate::headers::HeaderValue;
use crate::headers::spec_classify;
use crate::headers::typed_value;
use crate::strutil::capture_until_eol;
use crate::strutil::capture_until_ws;
use crate::strutil::contains_seq;
use crate::strutil::find_index;
use crate::strutil::find_sub;
use crate::strutil::lemma_find_index_is;
use crate::strutil::occurs_at;
use crate::strutil::lemma_first_occurrence_exists;
use crate::strutil::skip_ws;
use crate::strutil::skip_ws_from;
use crate::strutil::take_until_eol;
use crate::strutil::take_until_ws;
use crate::strutil::trim;
use crate::strutil::trim_seq;
use vstd::slice::slice_to_vec;

verus! {

/// The HTTP line separator.
pub open spec fn crlf() -> Seq<char> {
    seq!['\r', '\n']
}

/// The characters of `s` before its first line break (all of `s` if none).
pub open spec fn spec_first_line(s: Seq<char>) -> Seq<char> {
    if contains_seq(s, crlf()) {
        s.subrange(0, find_index(s, crlf()))
    } else {
        s
    }
}

/// The method and the slash-stripped path of a request line, or nothing
/// when the line does not fit the `<method> /<path> HTTP/1.1` shape.
pub open spec fn spec_parse_request_line(line: Seq<char>) -> Option<(Seq<char>, Seq<char>)> {
    let sp = seq![' '];
    if !contains_seq(line, sp) {
        None
    } else {
        let i = find_index(line, sp);
        if i == 0 {
            None
        } else {
            let method = line.subrange(0, i);
            let rest = line.subrange(i + 1, line.len() as int);
            if rest.len() == 0 || rest[0] != '/' {
                None
            } else {
                let after = rest.subrange(1, rest.len() as int);
                if !contains_seq(after, sp) {
                    None
                } else {
                    let j = find_index(after, sp);
                    let path = after.subrange(0, j);
                    let tail = after.subrange(j + 1, after.len() as int);
                    if tail.len() >= 8 && tail.subrange(0, 8) == "HTTP/1.1"@ {
                        Some((method, path))
                    } else {
                        None
                    }
                }
            }
        }
    }
}

/// The method and path recovered from a whole request text.
pub open spec fn spec_parse_request(s: Seq<char>) -> Option<(Seq<char>, Seq<char>)> {
    spec_parse_request_line(spec_first_line(s))
}

/// The header entry contributed by one line: its `key: value` reading,
/// trimmed and typed, or nothing when the line has no colon.
pub open spec fn spec_line_entry(line: Seq<char>) -> Seq<(Seq<char>, HeaderValue)> {
    let colon = seq![':'];
    if contains_seq(line, colon) {
        let i = find_index(line, colon);
        let key = trim_seq(line.subrange(0, i));
        let value = trim_seq(line.subrange(i + 1, line.len() as int));
        seq![(key, spec_classify(value))]
    } else {
        Seq::empty()
    }
}

/// The header entries of a block of lines, in order of appearance.
pub open spec fn spec_header_entries(s: Seq<char>) -> Seq<(Seq<char>, HeaderValue)>
    decreases s.len(),
    via spec_header_entries_decreases
{
    if contains_seq(s, crlf()) {
        let i = find_index(s, crlf());
        spec_line_entry(s.subrange(0, i)) + spec_header_entries(
            s.subrange(i + 2, s.len() as int),
        )
    } else {
        spec_line_entry(s)
    }
}

#[via_fn]
proof fn spec_header_entries_decreases(s: Seq<char>) {
    if contains_seq(s, crlf()) {
        lemma_first_occurrence_exists(s, crlf());
    }
}

/// The header entries of a request text: every line after the first one.
pub open spec fn spec_request_headers(s: Seq<char>) -> Seq<(Seq<char>, HeaderValue)> {
    if contains_seq(s, crlf()) {
        spec_header_entries(s.subrange(find_index(s, crlf()) + 2, s.len() as int))
    } else {
        Seq::empty()
    }
}

/// One parsed request: method, slash-stripped path, typed headers, and the
/// raw body once attached. Parsing leaves the body empty; `with_body` binds it.
pub struct HttpRequest {
    pub method: String,
    pub path: String,
    pub headers: HeaderMap,
    pub body: Option<Vec<u8>>,
}

/// Parses a request line, already cut at the line break.
fn parse_request_line(line: &str) -> (r: Option<(String, String)>)
    ensures
        match r {
            Some(mp) => spec_parse_request_line(line@) == Some((mp.0@, mp.1@)),
            None => spec_parse_request_line(line@) is None,
        },
{
    proof {
        reveal_strlit(" ");
        assert(" "@ =~= seq![' ']);
    }
    let i = match find_sub(line, " ") {
        Some(i) => i,
        None => {
            return None;
        },
    };
    proof {
        lemma_find_index_is(line@, seq![' '], i as int);
    }
    if i == 0 {
        return None;
    }
    let method = line.substring_char(0, i).to_owned();
    let n = line.unicode_len();
    let ghost rest = line@.subrange(i + 1, line@.len() as int);
    if i + 1 == n {
        return None;
    }
    if line.get_char(i + 1) != '/' {
        proof {
            assert(rest[0] == line@[i + 1]);
        }
        return None;
    }
    let after = line.substring_char(i + 2, n);
    proof {
        assert(after@ =~= rest.subrange(1, rest.len() as int));
        assert(rest[0] == line@[i + 1]);
    }
    let j = match find_sub(after, " ") {
        Some(j) => j,
        None => {
            return None;
        },
    };
    proof {
        lemma_find_index_is(after@, seq![' '], j as int);
    }
    let path = after.substring_char(0, j).to_owned();
    let m = after.unicode_len();
    let ghost tail = after@.subrange(j + 1, after@.len() as int);
    if m - (j + 1) < 8 {
        return None;
    }
    let tail8 = after.substring_char(j + 1, j + 1 + 8);
    proof {
        assert(tail8@ =~= tail.subrange(0, 8));
    }
    if !crate::strutil::str_eq(tail8, "HTTP/1.1") {
        return None;
    }
    Some((method, path))
}

/// Collects the header entries of the lines of `s` from `start` on.
fn parse_header_lines(s: &str, start: usize) -> (h: HeaderMap)
    requires
        start <= s@.len(),
    ensures
        h@ == spec_header_entries(s@.subrange(start as int, s@.len() as int)),
{
    proof {
        reveal_strlit("\r\n");
        assert("\r\n"@ =~= crlf());
        reveal_strlit(":");
        assert(":"@ =~= seq![':']);
    }
    let n = s.unicode_len();
    let mut h = HeaderMap::new();
    let mut pos = start;
    loop
        invariant_except_break
            h@ + spec_header_entries(s@.subrange(pos as int, n as int)) == spec_header_entries(
                s@.subrange(start as int, n as int),
            ),
        invariant
            n == s@.len(),
            start <= pos <= n,
        ensures
            h@ == spec_header_entries(s@.subrange(start as int, n as int)),
        decreases n - pos,
    {
        proof {
            reveal_strlit("\r\n");
            assert("\r\n"@ =~= crlf());
            reveal_strlit(":");
            assert(":"@ =~= seq![':']);
        }
        let rest = s.substring_char(pos, n);
        let ghost old_entries = h@;
        let ghost rest_view = rest@;
        let line_end = find_sub(rest, "\r\n");
        let line = match line_end {
            Some(k) => rest.substring_char(0, k),
            None => rest,
        };
        proof {
            match line_end {
                Some(k) => {
                    lemma_find_index_is(rest_view, crlf(), k as int);
                    assert(line@ =~= rest_view.subrange(0, k as int));
                },
                None => {},
            }
        }
        match find_sub(line, ":") {
            Some(c) => {
                proof {
                    lemma_find_index_is(line@, seq![':'], c as int);
                }
                let ln = line.unicode_len();
                let key = trim(line.substring_char(0, c));
                let value = trim(line.substring_char(c + 1, ln));
                let t = typed_value(value);
                h.insert(key, t);
                proof {
                    assert(h@ =~= old_entries + spec_line_entry(line@));
                }
            },
            None => {
                proof {
                    assert(spec_line_entry(line@) =~= Seq::<(Seq<char>, HeaderValue)>::empty());
                    assert(h@ =~= old_entries + spec_line_entry(line@));
                }
            },
        }
        match line_end {
            Some(k) => {
                proof {
                    let tail = rest_view.subrange(k + 2, rest_view.len() as int);
                    assert(spec_header_entries(rest_view) == spec_line_entry(line@)
                        + spec_header_entries(tail));
                    assert(tail =~= s@.subrange(pos + k + 2, n as int));
                    assert(old_entries + (spec_line_entry(line@) + spec_header_entries(tail))
                        =~= (old_entries + spec_line_entry(line@)) + spec_header_entries(tail));
                }
                pos = pos + k + 2;
            },
            None => {
                proof {
                    assert(spec_header_entries(rest_view) == spec_line_entry(line@));
                    assert(h@ =~= old_entries + spec_header_entries(rest_view));
                }
                break;
            },
        }
    }
    h
}

impl HttpRequest {
    /// Parses the header block of one request. Returns the structured
    /// request, body not yet attached, or nothing when the first line does
    /// not fit the request-line grammar.
    pub fn from_str(s: &str) -> (r: Option<HttpRequest>)
        ensures
            match r {
                Some(req) => {
                    &&& spec_parse_request(s@) == Some((req.method@, req.path@))
                    &&& req.headers@ == spec_request_headers(s@)
                    &&& req.body is None
                },
                None => spec_parse_request(s@) is None,
            },
    {
        proof {
            reveal_strlit("\r\n");
            assert("\r\n"@ =~= crlf());
        }
        let first_end = find_sub(s, "\r\n");
        let line = match first_end {
            Some(i) => s.substring_char(0, i),
            None => s,
        };
        proof {
            match first_end {
                Some(i) => {
                    lemma_find_index_is(s@, crlf(), i as int);
                    assert(line@ =~= spec_first_line(s@));
                },
                None => {
                    assert(line@ =~= spec_first_line(s@));
                },
            }
        }
        let (method, path) = match parse_request_line(line) {
            Some(mp) => mp,
            None => {
                return None;
            },
        };
        let n = s.unicode_len();
        let headers = match first_end {
            Some(i) => {
                proof {
                    assert(i + 2 <= n);
                }
                parse_header_lines(s, i + 2)
            },
            None => HeaderMap::new(),
        };
        proof {
            assert(headers@ == spec_request_headers(s@));
        }
        Some(HttpRequest { method, path, headers, body: None })
    }

    /// Attaches the raw bytes that follow the header block as the body.
    pub fn with_body(self, body: &[u8]) -> (r: HttpRequest)
        ensures
            r.method == self.method,
            r.path == self.path,
            r.headers == self.headers,
            r.body matches Some(b) && b@ == body@,
    {
        HttpRequest {
            method: self.method,
            path: self.path,
            headers: self.headers,
            body: Some(slice_to_vec(body)),
        }
    }
}

/// What follows the first occurrence of `marker`, up to the next whitespace.
pub open spec fn spec_extract_after(s: Seq<char>, marker: Seq<char>) -> Option<Seq<char>> {
    if contains_seq(s, marker) {
        let i = find_index(s, marker);
        Some(take_until_ws(s.subrange(i + marker.len() as int, s.len() as int)))
    } else {
        None
    }
}

/// The text following `echo/` in a path, up to the next whitespace.
pub fn extract_path_echo(s: &str) -> (r: Option<String>)
    ensures
        match r {
            Some(t) => spec_extract_after(s@, "echo/"@) == Some(t@),
            None => spec_extract_after(s@, "echo/"@) is None,
        },
{
    let n: usize = s.unicode_len();
    match find_sub(s, "echo/") {
        Some(i) => {
            proof {
                lemma_find_index_is(s@, "echo/"@, i as int);
                reveal_strlit("echo/");
                assert(i + 5 <= n);
            }
            Some(capture_until_ws(s, i + 5))
        },
        None => None,
    }
}

/// The file name following `files/` in a path, up to the next whitespace.
pub fn extract_path_filename(s: &str) -> (r: Option<String>)
    ensures
        match r {
            Some(t) => spec_extract_after(s@, "files/"@) == Some(t@),
            None => spec_extract_after(s@, "files/"@) is None,
        },
{
    let n: usize = s.unicode_len();
    match find_sub(s, "files/") {
        Some(i) => {
            proof {
                lemma_find_index_is(s@, "files/"@, i as int);
                reveal_strlit("files/");
                assert(i + 6 <= n);
            }
            Some(capture_until_ws(s, i + 6))
        },
        None => None,
    }
}

/// The slash-stripped path of a request text, when its first line parses.
pub fn extract_path(s: &str) -> (r: Option<String>)
    ensures
        match r {
            Some(p) => spec_parse_request(s@) matches Some(mp) && mp.1 == p@,
            None => spec_parse_request(s@) is None,
        },
{
    proof {
        reveal_strlit("\r\n");
        assert("\r\n"@ =~= crlf());
    }
    let first_end = find_sub(s, "\r\n");
    let line = match first_end {
        Some(i) => s.substring_char(0, i),
        None => s,
    };
    proof {
        match first_end {
            Some(i) => {
                lemma_find_index_is(s@, crlf(), i as int);
                assert(line@ =~= spec_first_line(s@));
            },
            None => {
                assert(line@ =~= spec_first_line(s@));
            },
        }
    }
    match parse_request_line(line) {
        Some(mp) => Some(mp.1),
        None => None,
    }
}

/// Every well-formed request line parses back to exactly its parts: for any
/// text `<method> /<path> HTTP/1.1` — the tokens nonempty where required and
/// free of whitespace — followed by a line break and anything at all, parsing
/// recovers `method` and `path` unchanged, the path with its leading slash
/// stripped.
pub proof fn lemma_request_line_round_trip(method: Seq<char>, path: Seq<char>, tail: Seq<char>)
    requires
        method.len() > 0,
        forall|i: int| 0 <= i < method.len() ==> !crate::strutil::is_ws(#[trigger] method[i]),
        forall|i: int| 0 <= i < path.len() ==> !crate::strutil::is_ws(#[trigger] path[i]),
    ensures
        spec_parse_request(method + " /"@ + path + " HTTP/1.1\r\n"@ + tail) == Some(
            (method, path),
        ),
{
    reveal_strlit(" /");
    reveal_strlit(" HTTP/1.1\r\n");
    reveal_strlit("HTTP/1.1");
    let s = method + " /"@ + path + " HTTP/1.1\r\n"@ + tail;
    let m = method.len() as int;
    let p = path.len() as int;
    let line_len = m + 2 + p + 9;
    assert(s[m] == ' ' && s[m + 1] == '/');
    assert forall|k: int| 0 <= k < p implies s[m + 2 + k] == path[k] by {}
    assert forall|t: int| 0 <= t < 11 implies s[m + 2 + p + t] == " HTTP/1.1\r\n"@[t] by {}
    assert(s[line_len] == '\r' && s[line_len + 1] == '\n');
    assert(s.subrange(line_len, line_len + 2) =~= crlf());
    assert(occurs_at(s, crlf(), line_len));
    assert forall|j: int| 0 <= j < line_len implies !occurs_at(s, crlf(), j) by {
        if occurs_at(s, crlf(), j) {
            assert(s.subrange(j, j + 2)[0] == s[j]);
            assert(s[j] == '\r');
            if j < m {
                assert(!crate::strutil::is_ws(method[j]));
            } else if m + 2 <= j < m + 2 + p {
                assert(!crate::strutil::is_ws(path[j - m - 2]));
            } else {
                assert(m + 2 + p <= j < line_len ==> s[j] == " HTTP/1.1\r\n"@[j - m - 2 - p]);
            }
        }
    }
    lemma_find_index_is(s, crlf(), line_len);
    let line = s.subrange(0, line_len);
    assert(line == spec_first_line(s));
    let sp = seq![' '];
    assert(line.subrange(m, m + 1) =~= sp);
    assert(occurs_at(line, sp, m));
    assert forall|j: int| 0 <= j < m implies !occurs_at(line, sp, j) by {
        if occurs_at(line, sp, j) {
            assert(line.subrange(j, j + 1)[0] == line[j]);
            assert(!crate::strutil::is_ws(method[j]));
        }
    }
    lemma_find_index_is(line, sp, m);
    assert(line.subrange(0, m) =~= method);
    let rest = line.subrange(m + 1, line_len);
    assert(rest[0] == '/');
    let after = rest.subrange(1, rest.len() as int);
    assert(after =~= line.subrange(m + 2, line_len));
    assert(after.subrange(p, p + 1) =~= sp);
    assert(occurs_at(after, sp, p));
    assert forall|j: int| 0 <= j < p implies !occurs_at(after, sp, j) by {
        if occurs_at(after, sp, j) {
            assert(after.subrange(j, j + 1)[0] == after[j]);
            assert(after[j] == path[j]);
            assert(!crate::strutil::is_ws(path[j]));
        }
    }
    lemma_find_index_is(after, sp, p);
    assert(after.subrange(0, p) =~= path);
    let vtail = after.subrange(p + 1, after.len() as int);
    assert(vtail.len() == 8);
    assert forall|t: int| 0 <= t < 8 implies vtail.subrange(0, 8)[t] == "HTTP/1.1"@[t] by {
        assert(vtail[t] == s[m + 2 + p + 1 + t]);
        assert(s[m + 2 + p + 1 + t] == " HTTP/1.1\r\n"@[1 + t]);
    }
    assert(vtail.subrange(0, 8) =~= "HTTP/1.1"@);
}

/// The value after the first `User-Agent:` marker: leading whitespace
/// skipped, then everything up to the end of that line.
pub open spec fn spec_extract_user_agent(s: Seq<char>) -> Option<Seq<char>> {
    let marker = "User-Agent:"@;
    if contains_seq(s, marker) {
        let i = find_index(s, marker);
        Some(take_until_eol(skip_ws(s.subrange(i + marker.len() as int, s.len() as int))))
    } else {
        None
    }
}

/// Pulls the `User-Agent` value out of a raw request text.
pub fn extract_user_agent(s: &str) -> (r: Option<String>)
    ensures
        match r {
            Some(t) => spec_extract_user_agent(s@) == Some(t@),
            None => spec_extract_user_agent(s@) is None,
        },
{
    let n: usize = s.unicode_len();
    match find_sub(s, "User-Agent:") {
        Some(i) => {
            proof {
                lemma_find_index_is(s@, "User-Agent:"@, i as int);
                reveal_strlit("User-Agent:");
                assert(i + 11 <= n);
            }
            let start = skip_ws_from(s, i + 11);
            Some(capture_until_eol(s, start))
        },
        None => None,
    }
}

} // verus!
