use httpcore::response::HttpResponse;
use httpcore::router::RouteAction;
use httpcore::router::decide;
use httpcore::router::file_read_response;
use httpcore::router::file_write_response;
use httpcore::router::get_arg;

fn respond_text(action: Option<RouteAction>) -> String {
    match action {
        Some(RouteAction::Respond(r)) => r.into_response(),
        other => panic!("expected a direct response, got {:?}", other.is_some()),
    }
}

#[test]
fn scenario_root_ok() {
    let out = respond_text(decide("GET / HTTP/1.1\r\n\r\n", b"", false));
    assert_eq!(out, "HTTP/1.1 200 OK\r\n\r\n");
}

#[test]
fn scenario_echo() {
    let out = respond_text(decide("GET /echo/abc HTTP/1.1\r\n\r\n", b"", false));
    assert_eq!(
        out,
        "HTTP/1.1 200 OK\r\nContent-Type: text/plain\r\nContent-Length: 3\r\n\r\nabc"
    );
}

#[test]
fn scenario_user_agent() {
    let out = respond_text(decide(
        "GET /user-agent HTTP/1.1\r\nUser-Agent: test-client/1.0\r\n\r\n",
        b"",
        false,
    ));
    assert_eq!(
        out,
        "HTTP/1.1 200 OK\r\nContent-Type: text/plain\r\nContent-Length: 15\r\n\r\ntest-client/1.0"
    );
}

#[test]
fn scenario_file_read() {
    let action = decide("GET /files/hello.txt HTTP/1.1\r\n\r\n", b"", true);
    let name = match action {
        Some(RouteAction::ReadFile(name)) => name,
        _ => panic!("a GET files route should ask for a file read"),
    };
    assert_eq!(name, "hello.txt");
    let response = file_read_response(Some(b"hi".to_vec()));
    let out = response.into_stream_response();
    let expected =
        b"HTTP/1.1 200 OK\r\nContent-Type: application/octet-stream\r\nContent-Length: 2\r\n\r\nhi";
    assert_eq!(out, expected.to_vec());
}

#[test]
fn scenario_file_read_missing() {
    let action = decide("GET /files/nope.txt HTTP/1.1\r\n\r\n", b"", true);
    assert!(matches!(action, Some(RouteAction::ReadFile(_))));
    let response = file_read_response(None);
    assert_eq!(response.into_response(), "HTTP/1.1 404 NOT FOUND\r\n\r\n");
}

#[test]
fn scenario_file_write() {
    let action = decide(
        "POST /files/new.txt HTTP/1.1\r\nContent-Length: 5\r\n\r\n",
        b"hello",
        true,
    );
    let (name, data) = match action {
        Some(RouteAction::WriteFile(name, data)) => (name, data),
        _ => panic!("a POST files route should ask for a file write"),
    };
    assert_eq!(name, "new.txt");
    assert_eq!(data, b"hello".to_vec());
    let out = file_write_response(true).into_response();
    assert_eq!(out, "HTTP/1.1 201 CREATED\r\n\r\n");
}

#[test]
fn scenario_not_found() {
    let out = respond_text(decide("GET /nope HTTP/1.1\r\n\r\n", b"", false));
    assert_eq!(out, "HTTP/1.1 404 NOT FOUND\r\n\r\n");
}

#[test]
fn post_write_idempotent() {
    let text = "POST /files/same.txt HTTP/1.1\r\n\r\n";
    let first = decide(text, b"content", true);
    let second = decide(text, b"content", true);
    let once = match first {
        Some(RouteAction::WriteFile(name, data)) => (name, data),
        _ => panic!("expected a write"),
    };
    let twice = match second {
        Some(RouteAction::WriteFile(name, data)) => (name, data),
        _ => panic!("expected a write"),
    };
    assert_eq!(once.0, twice.0);
    assert_eq!(once.1, twice.1);
    let mut stored: Vec<u8> = Vec::new();
    stored.clear();
    stored.extend_from_slice(&once.1);
    let after_once = stored.clone();
    stored.clear();
    stored.extend_from_slice(&twice.1);
    assert_eq!(stored, after_once);
}

#[test]
fn serialization_round_trip() {
    let body = "hello";
    let out = HttpResponse::OkText(Some(body.to_string())).into_response();
    let boundary = out.find("\r\n\r\n").expect("a blank line separates headers and body");
    assert_eq!(&out[boundary + 4..], body);
    let head = &out[..boundary];
    let line = head
        .lines()
        .find(|l| l.starts_with("Content-Length:"))
        .expect("a Content-Length header is present");
    let value: usize = line["Content-Length:".len()..].trim().parse().unwrap();
    assert_eq!(value, body.len());
}

#[test]
fn parse_failure_sends_nothing() {
    // Documented legacy behavior: a request that fails structural parsing
    // produces no action at all, and the connection writes no bytes back.
    assert!(decide("garbage\r\n\r\n", b"", true).is_none());
}

#[test]
fn route_priority_echo_before_files() {
    // A path holding both markers is routed as echo: the checks run in a
    // fixed order and echo comes first.
    let action = decide("GET /echo/files/x HTTP/1.1\r\n\r\n", b"", true);
    let out = respond_text(action);
    assert_eq!(
        out,
        "HTTP/1.1 200 OK\r\nContent-Type: text/plain\r\nContent-Length: 7\r\n\r\nfiles/x"
    );
}

#[test]
fn route_priority_echo_inside_files_path() {
    // Even a path that starts with the files marker is routed as echo when
    // it also holds the echo marker: echo is checked first.
    let out = respond_text(decide("GET /files/echo/x HTTP/1.1\r\n\r\n", b"", true));
    assert_eq!(
        out,
        "HTTP/1.1 200 OK\r\nContent-Type: text/plain\r\nContent-Length: 1\r\n\r\nx"
    );
}

#[test]
fn files_marker_without_slash_is_not_found() {
    // The files family matches on the substring alone, but without a
    // `files/` segment there is no file name to extract.
    let out = respond_text(decide("GET /files HTTP/1.1\r\n\r\n", b"", true));
    assert_eq!(out, "HTTP/1.1 404 NOT FOUND\r\n\r\n");
}

#[test]
fn files_route_without_directory() {
    let out = respond_text(decide("GET /files/hello.txt HTTP/1.1\r\n\r\n", b"", false));
    assert_eq!(out, "HTTP/1.1 404 NOT FOUND\r\n\r\n");
    let out = respond_text(decide("POST /files/x HTTP/1.1\r\n\r\n", b"d", false));
    assert_eq!(out, "HTTP/1.1 404 NOT FOUND\r\n\r\n");
}

#[test]
fn user_agent_absent_is_not_found() {
    let out = respond_text(decide("GET /user-agent HTTP/1.1\r\n\r\n", b"", false));
    assert_eq!(out, "HTTP/1.1 404 NOT FOUND\r\n\r\n");
}

#[test]
fn user_agent_numeric_is_not_found() {
    // A User-Agent that reads as a number is stored as one, and the route
    // answers only for text values.
    let out = respond_text(decide("GET /user-agent HTTP/1.1\r\nUser-Agent: 17\r\n\r\n", b"", false));
    assert_eq!(out, "HTTP/1.1 404 NOT FOUND\r\n\r\n");
}

#[test]
fn stream_variant_without_body_serializes_empty() {
    let out = HttpResponse::OkStream(None).into_stream_response();
    assert!(out.is_empty());
}

#[test]
fn directory_flag_lookup() {
    let args: Vec<String> = vec![
        "server".to_string(),
        "--directory".to_string(),
        "/tmp/x".to_string(),
    ];
    assert_eq!(get_arg(&args, "--directory"), Some("/tmp/x".to_string()));
    let no_value: Vec<String> = vec!["server".to_string(), "--directory".to_string()];
    assert_eq!(get_arg(&no_value, "--directory"), None);
    let absent: Vec<String> = vec!["server".to_string()];
    assert_eq!(get_arg(&absent, "--directory"), None);
}
