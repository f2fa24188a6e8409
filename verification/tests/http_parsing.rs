use embedded_web::http_utilities::{read_header_line, read_http_request_line, HeaderLine, HttpMethod};
use embedded_web::Error;

#[test]
fn test_read_http_request_line() {
    assert_eq!(read_http_request_line(&[]), Err(Error::InvalidRequestLine));
    assert_eq!(
        read_http_request_line(&b"\xe5\n"[..]),
        Err(Error::InvalidRequestLine)
    );
    assert_eq!(
        read_http_request_line(&b"GET /foo/bar HTTP/1.1\n"[..]).unwrap(),
        (HttpMethod::Get, "/foo/bar", &[][..])
    );
    assert_eq!(
        read_http_request_line(&b"GET this is a weird url HTTP/1.1\n"[..]).unwrap(),
        (HttpMethod::Get, "this is a weird url", &[][..])
    );
}

#[test]
fn request_line_all_methods() {
    let cases: [(&[u8], HttpMethod); 9] = [
        (b"GET / HTTP/1.1\n", HttpMethod::Get),
        (b"HEAD / HTTP/1.1\n", HttpMethod::Head),
        (b"POST / HTTP/1.1\n", HttpMethod::Post),
        (b"PUT / HTTP/1.1\n", HttpMethod::Put),
        (b"DELETE / HTTP/1.1\n", HttpMethod::Delete),
        (b"CONNECT / HTTP/1.1\n", HttpMethod::Connect),
        (b"OPTIONS / HTTP/1.1\n", HttpMethod::Options),
        (b"TRACE / HTTP/1.1\n", HttpMethod::Trace),
        (b"PATCH / HTTP/1.1\n", HttpMethod::Patch),
    ];
    for (line, method) in cases {
        assert_eq!(read_http_request_line(line).unwrap(), (method, "/", &[][..]));
    }
}

#[test]
fn request_line_keeps_trailing_bytes() {
    assert_eq!(
        read_http_request_line(&b"PUT /x HTTP/1.1\nHost: h\n"[..]).unwrap(),
        (HttpMethod::Put, "/x", &b"Host: h\n"[..])
    );
}

#[test]
fn request_line_rejects_unknown_method() {
    assert_eq!(
        read_http_request_line(&b"BREW /pot HTTP/1.1\n"[..]),
        Err(Error::InvalidHttpMethod)
    );
    assert_eq!(
        read_http_request_line(&b"gEt / HTTP/1.1\n"[..]),
        Err(Error::InvalidHttpMethod)
    );
}

#[test]
fn request_line_requires_line_feed_and_spaces() {
    assert_eq!(
        read_http_request_line(&b"GET / HTTP/1.1"[..]),
        Err(Error::InvalidRequestLine)
    );
    assert_eq!(
        read_http_request_line(&b"GET\n"[..]),
        Err(Error::InvalidRequestLine)
    );
    assert_eq!(
        read_http_request_line(&b"GET/\n"[..]),
        Err(Error::InvalidRequestLine)
    );
}

#[test]
fn method_from_str_accepts_listed_spellings() {
    let cases: [(&str, &str, &str, HttpMethod); 9] = [
        ("get", "Get", "GET", HttpMethod::Get),
        ("head", "Head", "HEAD", HttpMethod::Head),
        ("post", "Post", "POST", HttpMethod::Post),
        ("put", "Put", "PUT", HttpMethod::Put),
        ("delete", "Delete", "DELETE", HttpMethod::Delete),
        ("connect", "Connect", "CONNECT", HttpMethod::Connect),
        ("options", "Options", "OPTIONS", HttpMethod::Options),
        ("trace", "Trace", "TRACE", HttpMethod::Trace),
        ("patch", "Patch", "PATCH", HttpMethod::Patch),
    ];
    for (lower, capitalized, upper, method) in cases {
        assert_eq!(HttpMethod::from_str(lower).unwrap(), method);
        assert_eq!(HttpMethod::from_str(capitalized).unwrap(), method);
        assert_eq!(HttpMethod::from_str(upper).unwrap(), method);
    }
    assert_eq!(HttpMethod::from_str("GeT"), Err(Error::InvalidHttpMethod));
    assert_eq!(HttpMethod::from_str(""), Err(Error::InvalidHttpMethod));
    assert_eq!(HttpMethod::from_str("getx"), Err(Error::InvalidHttpMethod));
}

#[test]
fn header_line_blank_ends_headers() {
    match read_header_line(&b"\r\nbody"[..]) {
        HeaderLine::Whiteline { remaining } => assert_eq!(remaining, &b"body"[..]),
        _ => panic!("expected a blank line"),
    }
}

#[test]
fn header_line_parses_and_trims() {
    match read_header_line(&b"  Content-Type :  text/plain  \nrest"[..]) {
        HeaderLine::Header { key, value, remaining } => {
            assert_eq!(key, "Content-Type");
            assert_eq!(value, "text/plain");
            assert_eq!(remaining, &b"rest"[..]);
        }
        _ => panic!("expected a header"),
    }
}

#[test]
fn header_line_rejects_malformed_lines() {
    match read_header_line(&b"no colon here\n"[..]) {
        HeaderLine::Error(e) => assert_eq!(e, Error::InvalidHttpHeader),
        _ => panic!("expected an error for a missing colon"),
    }
    match read_header_line(&b"Key: value without line feed"[..]) {
        HeaderLine::Error(e) => assert_eq!(e, Error::InvalidHttpHeader),
        _ => panic!("expected an error for a missing line feed"),
    }
    match read_header_line(&b"K\xc3\xa9y: v\n"[..]) {
        HeaderLine::Error(e) => assert_eq!(e, Error::InvalidHttpHeader),
        _ => panic!("expected an error for a non-ASCII byte"),
    }
}
