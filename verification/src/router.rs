//! Route selection: from one parsed request to what the connection must do.
//!
//! The checks run in a fixed order — empty path, `echo/`, `user-agent`,
//! `files` — and the first match wins; `POST` knows only the `files` family.
//! File routes do not touch the disk here: they yield an action naming the
//! file, the caller performs the read or write, and `file_read_response` /
//! `file_write_response` turn the outcome into the response.

use vstd::prelude::*;

use crate::headers::HeaderValue;
use crate::headers::TypedHeader;
use crate::headers::spec_lookup;
use crate::request::HttpRequest;
use crate::request::extract_path_echo;
use crate::request::extract_path_filename;
use crate::request::spec_extract_after;
use crate::request::spec_parse_request;
use crate::request::spec_request_headers;
use crate::response::HttpResponse;
use crate::strutil::contains_seq;
use crate::strutil::contains_sub;
use crate::strutil::str_eq;

verus! {

/// What one connection must do after routing: answer at once, read the named
/// file and answer with its contents, or write the body to the named file.
pub enum RouteAction {
    Respond(HttpResponse),
    ReadFile(String),
    WriteFile(String, Vec<u8>),
}

/// The route decision, pinned over the views of a request's parts: for each
/// shape of request, exactly which action comes out.
pub open spec fn route_ok(
    method: Seq<char>,
    path: Seq<char>,
    headers: Seq<(Seq<char>, HeaderValue)>,
    body: Option<Seq<u8>>,
    has_directory: bool,
    r: RouteAction,
) -> bool {
    if method == "GET"@ {
        if path.len() == 0 {
            r == RouteAction::Respond(HttpResponse::OkText(None))
        } else {
            match spec_extract_after(path, "echo/"@) {
                Some(echo) => r matches RouteAction::Respond(
                    HttpResponse::OkText(Some(b)),
                ) && b@ == echo,
                None => if path == "user-agent"@ {
                    match spec_lookup(headers, "User-Agent"@) {
                        Some(HeaderValue::Text(ua)) => r matches RouteAction::Respond(
                            HttpResponse::OkText(Some(b)),
                        ) && b@ == ua,
                        _ => r == RouteAction::Respond(HttpResponse::NotFound),
                    }
                } else if contains_seq(path, "files"@) {
                    match spec_extract_after(path, "files/"@) {
                        Some(name) if has_directory => r matches RouteAction::ReadFile(f) && f@
                            == name,
                        _ => r == RouteAction::Respond(HttpResponse::NotFound),
                    }
                } else {
                    r == RouteAction::Respond(HttpResponse::NotFound)
                },
            }
        }
    } else if method == "POST"@ {
        if contains_seq(path, "files"@) {
            match (spec_extract_after(path, "files/"@), body) {
                (Some(name), Some(data)) if has_directory => r matches RouteAction::WriteFile(
                    f,
                    b,
                ) && f@ == name && b@ == data,
                _ => r == RouteAction::Respond(HttpResponse::NotFound),
            }
        } else {
            r == RouteAction::Respond(HttpResponse::NotFound)
        }
    } else {
        r == RouteAction::Respond(HttpResponse::NotFound)
    }
}

/// The view of an optional body.
pub open spec fn body_view(b: Option<Vec<u8>>) -> Option<Seq<u8>> {
    match b {
        Some(v) => Some(v@),
        None => None,
    }
}

/// Chooses the action for a parsed request. `has_directory` says whether a
/// base directory for file routes was configured; without one, both file
/// routes resolve to not-found.
pub fn route(req: &HttpRequest, has_directory: bool) -> (r: RouteAction)
    ensures
        route_ok(req.method@, req.path@, req.headers@, body_view(req.body), has_directory, r),
{
    if str_eq(req.method.as_str(), "GET") {
        if req.path.as_str().is_empty() {
            RouteAction::Respond(HttpResponse::OkText(None))
        } else {
            match extract_path_echo(req.path.as_str()) {
                Some(echo) => RouteAction::Respond(HttpResponse::OkText(Some(echo))),
                None => {
                    if str_eq(req.path.as_str(), "user-agent") {
                        match req.headers.get("User-Agent") {
                            Some(TypedHeader::Str(ua)) => RouteAction::Respond(
                                HttpResponse::OkText(Some(ua.clone())),
                            ),
                            _ => RouteAction::Respond(HttpResponse::NotFound),
                        }
                    } else if contains_sub(req.path.as_str(), "files") {
                        if has_directory {
                            match extract_path_filename(req.path.as_str()) {
                                Some(name) => RouteAction::ReadFile(name),
                                None => RouteAction::Respond(HttpResponse::NotFound),
                            }
                        } else {
                            RouteAction::Respond(HttpResponse::NotFound)
                        }
                    } else {
                        RouteAction::Respond(HttpResponse::NotFound)
                    }
                },
            }
        }
    } else if str_eq(req.method.as_str(), "POST") {
        if contains_sub(req.path.as_str(), "files") {
            if has_directory {
                match extract_path_filename(req.path.as_str()) {
                    Some(name) => match &req.body {
                        Some(data) => RouteAction::WriteFile(name, data.clone()),
                        None => RouteAction::Respond(HttpResponse::NotFound),
                    },
                    None => RouteAction::Respond(HttpResponse::NotFound),
                }
            } else {
                RouteAction::Respond(HttpResponse::NotFound)
            }
        } else {
            RouteAction::Respond(HttpResponse::NotFound)
        }
    } else {
        RouteAction::Respond(HttpResponse::NotFound)
    }
}

/// A `POST` to a file route hands the filesystem exactly the request body,
/// and nothing besides the request decides it: two routings of the same
/// request name the same file and carry the same bytes, so writing the same
/// content twice writes the identical file both times.
pub proof fn lemma_post_write_deterministic(
    method: Seq<char>,
    path: Seq<char>,
    headers: Seq<(Seq<char>, HeaderValue)>,
    body: Option<Seq<u8>>,
    has_directory: bool,
    r1: RouteAction,
    r2: RouteAction,
)
    requires
        route_ok(method, path, headers, body, has_directory, r1),
        route_ok(method, path, headers, body, has_directory, r2),
        method == "POST"@,
        r1 is WriteFile,
    ensures
        r1 matches RouteAction::WriteFile(f1, b1) && r2 matches RouteAction::WriteFile(f2, b2)
            && f1@ == f2@ && b1@ == b2@ && Some(b1@) == body,
{
}

/// The response for the outcome of reading a requested file: its contents
/// as a binary body, or not-found when the read failed.
pub fn file_read_response(contents: Option<Vec<u8>>) -> (r: HttpResponse)
    ensures
        match contents {
            Some(c) => r matches HttpResponse::OkStream(Some(b)) && b@ == c@,
            None => r == HttpResponse::NotFound,
        },
{
    match contents {
        Some(c) => HttpResponse::OkStream(Some(c)),
        None => HttpResponse::NotFound,
    }
}

/// The response for the outcome of writing a posted file: created when the
/// write went through, not-found otherwise.
pub fn file_write_response(written: bool) -> (r: HttpResponse)
    ensures
        written ==> r == HttpResponse::Created,
        !written ==> r == HttpResponse::NotFound,
{
    if written {
        HttpResponse::Created
    } else {
        HttpResponse::NotFound
    }
}

/// The value following the first occurrence of `name` in an argument list,
/// if there is one.
pub open spec fn spec_get_arg(args: Seq<Seq<char>>, name: Seq<char>) -> Option<Seq<char>>
    decreases args.len(),
{
    if args.len() == 0 {
        None
    } else if args[0] == name {
        if args.len() >= 2 {
            Some(args[1])
        } else {
            None
        }
    } else {
        spec_get_arg(args.drop_first(), name)
    }
}

/// Scans an argument list for the flag `name` and returns the argument
/// right after its first occurrence — the way a `--directory <path>` pair
/// is read off the command line.
pub fn get_arg(args: &Vec<String>, name: &str) -> (r: Option<String>)
    ensures
        match r {
            Some(v) => spec_get_arg(args.deep_view(), name@) == Some(v@),
            None => spec_get_arg(args.deep_view(), name@) is None,
        },
{
    let ghost full = args.deep_view();
    let n = args.len();
    proof {
        assert(full.len() == args@.len());
        assert(full.subrange(0, n as int) =~= full);
    }
    let mut i: usize = 0;
    while i < n
        invariant
            n == args@.len(),
            full == args.deep_view(),
            full.len() == n,
            i <= n,
            spec_get_arg(full, name@) == spec_get_arg(
                full.subrange(i as int, n as int),
                name@,
            ),
        decreases n - i,
    {
        proof {
            assert(full.subrange(0, n as int) =~= full);
        }
        let ghost seen = full.subrange(i as int, n as int);
        if str_eq(args[i].as_str(), name) {
            proof {
                assert(seen[0] == full[i as int]);
            }
            if i + 1 < n {
                proof {
                    assert(seen[1] == full[i + 1]);
                }
                return Some(args[i + 1].clone());
            } else {
                return None;
            }
        }
        proof {
            assert(seen[0] == full[i as int]);
            assert(seen.drop_first() =~= full.subrange(i + 1, n as int));
        }
        i = i + 1;
    }
    proof {
        assert(full.subrange(n as int, n as int) =~= Seq::<Seq<char>>::empty());
    }
    None
}

/// The whole decision for one connection: parse the header block, attach the
/// body, route. A header block whose first line does not parse yields no
/// action at all — nothing is written back on that connection.
pub fn decide(text: &str, body: &[u8], has_directory: bool) -> (r: Option<RouteAction>)
    ensures
        match r {
            Some(a) => spec_parse_request(text@) matches Some(mp) && route_ok(
                mp.0,
                mp.1,
                spec_request_headers(text@),
                Some(body@),
                has_directory,
                a,
            ),
            None => spec_parse_request(text@) is None,
        },
{
    match HttpRequest::from_str(text) {
        Some(req) => {
            let req = req.with_body(body);
            Some(route(&req, has_directory))
        },
        None => None,
    }
}

} // verus!
