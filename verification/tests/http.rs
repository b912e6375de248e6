use express_rs::http;

#[test]
fn request_from_string_valid_no_body() {
    let string = "GET / HTTP/1.1".to_string();

    let request = http::Request::from_string(string).unwrap();

    assert_eq!(request.method, http::Method::GET);
    assert_eq!(request.path, "/");
    assert_eq!(request.version, "HTTP/1.1".to_string());
    assert_eq!(request.body, None);
}

#[test]
fn request_from_string_valid_with_body() {
    let string = "GET / HTTP/1.1\r\n\r\nthis is the body".to_string();

    let request = http::Request::from_string(string).unwrap();

    assert_eq!(request.method, http::Method::GET);
    assert_eq!(request.path, "/");
    assert_eq!(request.version, "HTTP/1.1".to_string());
    assert_eq!(request.body, Some("this is the body".to_string()));
}

#[test]
fn request_from_string_invalid() {
    let string = "GET".to_string();
    let request = http::Request::from_string(string);
    assert_eq!(request.is_err(), true);
}

#[test]
fn request_from_string_headers_valid() {
    let string = "GET / HTTP/1.1\r\nContent-Type: text/plain\r\n\r\nthis is the body".to_string();
    let request = http::Request::from_string(string).unwrap();

    let header = request.headers.get(&"Content-Type".to_string());
    assert_eq!(header, Some(&"text/plain".to_string()));
}

/// The space after the colon and after the end of line are optional white
/// space and should therefore be parsed as such.
#[test]
fn request_from_string_headers_weird_spacing() {
    let string = "GET / HTTP/1.1\r\nContent-Type:text/plain \r\n\r\nthis is the body".to_string();
    let request = http::Request::from_string(string).unwrap();

    let header = request.headers.get(&"Content-Type".to_string());
    assert_eq!(header, Some(&"text/plain".to_string()));
}

/// Missing colon should render the request invalid
#[test]
fn request_from_string_headers_invalid() {
    let string = "GET / HTTP/1.1\r\nContent-Type text/plain \r\n\r\nthis is the body".to_string();
    let request = http::Request::from_string(string);

    assert_eq!(request.is_err(), true);
}

/// Space between field-name and colon should render request invalid
#[test]
fn request_from_string_headers_space_after_fieldname() {
    let string = "GET / HTTP/1.1\r\nContent-Type : text/plain \r\n\r\nthis is the body".to_string();
    let request = http::Request::from_string(string);

    assert_eq!(request.is_err(), true);
}

#[test]
fn header_round_trip() {
    let string = "GET / HTTP/1.1\r\nContent-Type: text/plain\r\n\r\nBODY".to_string();
    let request = http::Request::from_string(string).unwrap();

    assert_eq!(request.method, http::Method::GET);
    assert_eq!(request.path, "/");
    assert_eq!(request.version, "HTTP/1.1");
    assert_eq!(request.headers.get("Content-Type"), Some(&"text/plain".to_string()));
    assert_eq!(request.body, Some("BODY".to_string()));
}

#[test]
fn header_whitespace_tolerance_same_value() {
    let tight = http::Request::from_string(
        "GET / HTTP/1.1\r\nContent-Type:text/plain \r\n\r\nx".to_string(),
    )
    .unwrap();
    let spaced = http::Request::from_string(
        "GET / HTTP/1.1\r\nContent-Type: text/plain\r\n\r\nx".to_string(),
    )
    .unwrap();

    assert_eq!(tight.headers.get("Content-Type"), spaced.headers.get("Content-Type"));
    assert_eq!(tight.headers.get("Content-Type"), Some(&"text/plain".to_string()));
}

#[test]
fn header_whitespace_before_colon_error() {
    let request =
        http::Request::from_string("GET / HTTP/1.1\r\nContent-Type : text/plain\r\n\r\n".to_string());
    match request {
        Err(e) => assert_eq!(e, http::ParseError::ForbiddenWhitespaceBeforeColon),
        Ok(_) => panic!("a header name ending in whitespace must be rejected"),
    }
}

#[test]
fn header_missing_colon_error() {
    let request =
        http::Request::from_string("GET / HTTP/1.1\r\nContent-Type text/plain\r\n\r\n".to_string());
    match request {
        Err(e) => assert_eq!(e, http::ParseError::InvalidHeaderLine),
        Ok(_) => panic!("a header line without a colon must be rejected"),
    }
}

#[test]
fn short_request_line_error() {
    let request = http::Request::from_string("GET".to_string());
    match request {
        Err(e) => assert_eq!(e, http::ParseError::MalformedRequestLine),
        Ok(_) => panic!("a request line with fewer than three tokens must be rejected"),
    }
}

#[test]
fn path_without_slash_error() {
    let request = http::Request::from_string("GET nowhere HTTP/1.1".to_string());
    match request {
        Err(e) => assert_eq!(e, http::ParseError::MalformedRequestLine),
        Ok(_) => panic!("a path that does not begin with / must be rejected"),
    }
}

#[test]
fn no_body_is_absent_not_empty() {
    let request = http::Request::from_string("GET / HTTP/1.1".to_string()).unwrap();
    assert_eq!(request.body, None);

    let with_separator = http::Request::from_string("GET / HTTP/1.1\r\n\r\n".to_string()).unwrap();
    assert_eq!(with_separator.body, None);
}

#[test]
fn body_joins_further_separators() {
    let request =
        http::Request::from_string("GET / HTTP/1.1\r\n\r\nfirst\r\n\r\nsecond".to_string()).unwrap();
    assert_eq!(request.body, Some("firstsecond".to_string()));
}

#[test]
fn unknown_method_is_kept_verbatim() {
    let request = http::Request::from_string("FROB / HTTP/1.1".to_string()).unwrap();
    assert_eq!(request.method, http::Method::UNKNOWN("FROB".to_string()));
    assert_ne!(request.method, http::Method::UNKNOWN("BLORB".to_string()));
    assert_ne!(request.method, http::Method::GET);
}

#[test]
fn duplicate_header_last_occurrence_wins() {
    let request = http::Request::from_string(
        "GET / HTTP/1.1\r\nAccept: one\r\nAccept: two\r\n\r\n".to_string(),
    )
    .unwrap();
    assert_eq!(request.headers.get("Accept"), Some(&"two".to_string()));
}

#[test]
fn parse_helpers_pick_their_fields() {
    let fields = vec!["PUT".to_string(), "/a/b".to_string(), "HTTP/1.0".to_string()];
    assert_eq!(http::parse_method(&fields).unwrap(), http::Method::PUT);
    assert_eq!(http::parse_path(&fields).unwrap(), "/a/b");
    assert_eq!(http::parse_version(&fields).unwrap(), "HTTP/1.0");

    let short = vec!["GET".to_string(), "/".to_string()];
    assert_eq!(http::parse_version(&short), Err(http::ParseError::MalformedRequestLine));
}

#[test]
fn trailing_line_break_leaves_an_invalid_header_line() {
    let request = http::Request::from_string("GET / HTTP/1.1\r\n".to_string());
    match request {
        Err(e) => assert_eq!(e, http::ParseError::InvalidHeaderLine),
        Ok(_) => panic!("the empty line after the line break has no colon"),
    }
}

#[test]
fn parse_body_direct() {
    assert_eq!(http::parse_body("no separator here"), None);
    assert_eq!(http::parse_body("head\r\n\r\n"), None);
    assert_eq!(http::parse_body("head\r\n\r\ntail"), Some("tail".to_string()));
}
