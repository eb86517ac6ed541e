use httpcore::frame::find_frame_boundary;
use httpcore::headers::TypedHeader;
use httpcore::headers::typed_value;
use httpcore::numdec::parse_i32;
use httpcore::numdec::u64_to_string;
use httpcore::request::HttpRequest;
use httpcore::request::extract_path;
use httpcore::request::extract_path_echo;
use httpcore::request::extract_path_filename;
use httpcore::request::extract_user_agent;
use httpcore::strutil::find_sub;
use httpcore::strutil::trim;

#[test]
fn request_line_round_trip() {
    let req = HttpRequest::from_str("GET /abc/def HTTP/1.1\r\nHost: here\r\n\r\n").unwrap();
    assert_eq!(req.method, "GET");
    assert_eq!(req.path, "abc/def");
    assert!(req.body.is_none());
}

#[test]
fn request_line_root_path() {
    let req = HttpRequest::from_str("POST / HTTP/1.1\r\n\r\n").unwrap();
    assert_eq!(req.method, "POST");
    assert_eq!(req.path, "");
}

#[test]
fn request_line_malformed() {
    assert!(HttpRequest::from_str("nonsense\r\n\r\n").is_none());
    assert!(HttpRequest::from_str("GET nothing HTTP/1.1\r\n\r\n").is_none());
    assert!(HttpRequest::from_str("GET /x HTTP/2.0\r\n\r\n").is_none());
    assert!(HttpRequest::from_str("").is_none());
}

#[test]
fn header_numeric_value_is_typed() {
    let req = HttpRequest::from_str("GET /x HTTP/1.1\r\nX: 42\r\n\r\n").unwrap();
    match req.headers.get("X") {
        Some(TypedHeader::Number(n)) => assert_eq!(*n, 42),
        _ => panic!("X should be stored as the integer 42"),
    }
}

#[test]
fn header_mixed_value_stays_text() {
    let req = HttpRequest::from_str("GET /x HTTP/1.1\r\nX: 42a\r\n\r\n").unwrap();
    match req.headers.get("X") {
        Some(TypedHeader::Str(s)) => assert_eq!(s, "42a"),
        _ => panic!("X should be stored as the string 42a"),
    }
}

#[test]
fn header_duplicate_last_wins() {
    let req = HttpRequest::from_str("GET /x HTTP/1.1\r\nX: 1\r\nX: 2\r\n\r\n").unwrap();
    match req.headers.get("X") {
        Some(TypedHeader::Number(n)) => assert_eq!(*n, 2),
        _ => panic!("the later X should win"),
    }
}

#[test]
fn header_trimming_and_missing() {
    let req = HttpRequest::from_str("GET /x HTTP/1.1\r\n  Key  :   spaced value  \r\n\r\n").unwrap();
    match req.headers.get("Key") {
        Some(TypedHeader::Str(s)) => assert_eq!(s, "spaced value"),
        _ => panic!("Key should hold the trimmed text"),
    }
    assert!(req.headers.get("Absent").is_none());
}

#[test]
fn typed_value_classification() {
    match typed_value("-17".to_string()) {
        TypedHeader::Number(n) => assert_eq!(n, -17),
        _ => panic!("-17 is numeric"),
    }
    match typed_value("".to_string()) {
        TypedHeader::Str(s) => assert_eq!(s, ""),
        _ => panic!("the empty value is text"),
    }
}

#[test]
fn parse_i32_bounds() {
    assert_eq!(parse_i32("2147483647"), Some(2147483647));
    assert_eq!(parse_i32("-2147483648"), Some(-2147483648));
    assert_eq!(parse_i32("2147483648"), None);
    assert_eq!(parse_i32("-2147483649"), None);
}

#[test]
fn parse_i32_shapes() {
    assert_eq!(parse_i32("+42"), Some(42));
    assert_eq!(parse_i32("042"), Some(42));
    assert_eq!(parse_i32("-0"), Some(0));
    assert_eq!(parse_i32(""), None);
    assert_eq!(parse_i32("-"), None);
    assert_eq!(parse_i32("+"), None);
    assert_eq!(parse_i32(" 5"), None);
    assert_eq!(parse_i32("5 "), None);
    assert_eq!(parse_i32("12x"), None);
}

#[test]
fn numeral_printing() {
    assert_eq!(u64_to_string(0), "0");
    assert_eq!(u64_to_string(7), "7");
    assert_eq!(u64_to_string(10), "10");
    assert_eq!(u64_to_string(18446744073709551615), "18446744073709551615");
}

#[test]
fn echo_extraction() {
    assert_eq!(extract_path_echo("echo/abc"), Some("abc".to_string()));
    assert_eq!(extract_path_echo("xecho/tail more"), Some("tail".to_string()));
    assert_eq!(extract_path_echo("echo/"), Some("".to_string()));
    assert_eq!(extract_path_echo("nothing"), None);
}

#[test]
fn filename_extraction() {
    assert_eq!(extract_path_filename("files/hello.txt"), Some("hello.txt".to_string()));
    assert_eq!(extract_path_filename("files"), None);
    assert_eq!(extract_path_filename("dir/files/a b"), Some("a".to_string()));
}

#[test]
fn path_extraction() {
    assert_eq!(extract_path("GET /deep/path HTTP/1.1\r\n\r\n"), Some("deep/path".to_string()));
    assert_eq!(extract_path("broken"), None);
}

#[test]
fn user_agent_extraction() {
    assert_eq!(
        extract_user_agent("GET /x HTTP/1.1\r\nUser-Agent: test-client/1.0\r\n\r\n"),
        Some("test-client/1.0".to_string())
    );
    assert_eq!(extract_user_agent("GET /x HTTP/1.1\r\n\r\n"), None);
}

#[test]
fn frame_boundary_search() {
    assert_eq!(find_frame_boundary(b"GET / HTTP/1.1\r\n\r\nbody"), Some(18));
    assert_eq!(find_frame_boundary(b"\r\n\r\n"), Some(4));
    assert_eq!(find_frame_boundary(b"GET / HTTP/1.1\r\n"), None);
    assert_eq!(find_frame_boundary(b""), None);
    assert_eq!(find_frame_boundary(b"a\r\n\r\n\r\n\r\nb"), Some(5));
}

#[test]
fn substring_search() {
    assert_eq!(find_sub("abcabc", "cab"), Some(2));
    assert_eq!(find_sub("abc", "abcd"), None);
    assert_eq!(find_sub("abc", ""), Some(0));
}

#[test]
fn trimming() {
    assert_eq!(trim("  both ends\t"), "both ends");
    assert_eq!(trim("\t \t"), "");
    assert_eq!(trim("bare"), "bare");
}

#[test]
fn body_attachment() {
    let req = HttpRequest::from_str("POST /files/f HTTP/1.1\r\n\r\n").unwrap();
    let req = req.with_body(b"payload");
    assert_eq!(req.body.as_deref(), Some(&b"payload"[..]));
    assert_eq!(req.method, "POST");
}
