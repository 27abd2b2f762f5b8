use http_head::request::{HttpVersion, Method, ParserError, Request};

#[test]
fn parse_request() {
    let request = Request::from_str(
        "GET \t/test/1234  HTTP/1.1\nHeader1 : it\nHeader2:   works  \n\n",
    )
    .unwrap();
    // The initial line
    assert_eq!(request.method, Method::GET);
    assert_eq!(request.url, "/test/1234");
    assert_eq!(request.version, HttpVersion { major: 1, minor: 1 });

    // Parser should handle spaces correctly and also make all headers lowercased
    assert_eq!(request.headers.get("header1"), Some(&"it".to_string()));
    // Note that spaces at the end of header values are preserved
    assert_eq!(request.headers.get("header2"), Some(&"works  ".to_string()));
}

#[test]
fn parser_headers() {
    let header_text = "Header1: 1234\nHeader2 : the\n\t fox jumped";
    let headers = Request::parse_headers(header_text).unwrap();

    assert_eq!(headers.get("header1"), Some(&"1234".to_string()));
    assert_eq!(headers.get("header2"), Some(&"the fox jumped".to_string()));
}

#[test]
fn parse_version() {
    let valid_version = Request::parse_version("HTTP/1.0").unwrap();
    let invalid_version1 = Request::parse_version("HTTP_1.0");
    let invalid_version2 = Request::parse_version("HTTP/1");

    assert_eq!(valid_version, HttpVersion { major: 1, minor: 0 });
    assert!(invalid_version1.is_err());
    assert!(invalid_version2.is_err());
}

#[test]
fn known_verbs_parse_exactly() {
    let cases = vec![
        ("DELETE", Method::DELETE),
        ("GET", Method::GET),
        ("POST", Method::POST),
        ("PUT", Method::PUT),
        ("UPDATE", Method::UPDATE),
    ];
    for (verb, expected) in cases {
        let text = format!("{} /res/42 HTTP/1.1\nHost: example\n\n", verb);
        let request = Request::from_str(&text).unwrap();
        assert_eq!(request.method, expected);
        assert_eq!(request.url, "/res/42");
        assert_eq!(request.version, HttpVersion { major: 1, minor: 1 });
    }
}

#[test]
fn unknown_verb_is_classified_not_rejected() {
    let request = Request::from_str("FETCH /x HTTP/1.1\nA: b\n\n").unwrap();
    assert_eq!(request.method, Method::UNSUPPORTED("FETCH".to_string()));
    assert_eq!(request.url, "/x");
}

#[test]
fn header_name_case_is_folded() {
    let request = Request::from_str("GET / HTTP/1.1\nHeader1: x\n\n").unwrap();
    assert_eq!(request.headers.get("header1"), Some(&"x".to_string()));
    assert_eq!(request.headers.get("Header1"), None);
}

#[test]
fn continuation_folding_joins_with_single_space() {
    let headers = Request::parse_headers("Header2 : the\n\tfox jumped").unwrap();
    assert_eq!(headers.get("header2"), Some(&"the fox jumped".to_string()));
}

#[test]
fn parsing_twice_gives_equal_requests() {
    let text = "PUT /same HTTP/1.2\nA: 1\nB: two\n\n";
    let first = Request::from_str(text).unwrap();
    let second = Request::from_str(text).unwrap();
    assert_eq!(first, second);
}

#[test]
fn version_rejection_and_acceptance() {
    assert_eq!(
        Request::parse_version("HTTP_1.0"),
        Err(ParserError::InvalidHttpVersion)
    );
    assert_eq!(
        Request::parse_version("HTTP/1"),
        Err(ParserError::InvalidHttpVersion)
    );
    assert_eq!(
        Request::parse_version("HTTP/1.0"),
        Ok(HttpVersion { major: 1, minor: 0 })
    );
}

#[test]
fn version_is_strict() {
    assert_eq!(
        Request::parse_version("HTTP/1.2.3"),
        Err(ParserError::InvalidHttpVersion)
    );
    assert_eq!(
        Request::parse_version("HTTP/+1.0"),
        Err(ParserError::InvalidHttpVersion)
    );
    assert_eq!(
        Request::parse_version("HTTP/256.0"),
        Err(ParserError::InvalidHttpVersion)
    );
    assert_eq!(
        Request::parse_version("HTTP/01.0"),
        Ok(HttpVersion { major: 1, minor: 0 })
    );
}

#[test]
fn malformed_initial_line_two_tokens() {
    let result = Request::from_str("GET /test");
    assert_eq!(
        result,
        Err(ParserError::InvalidInitialLine("GET /test".to_string()))
    );
}

#[test]
fn initial_line_with_four_tokens_is_invalid() {
    let result = Request::from_str("GET /test HTTP/1.1 extra\nA: b\n\n");
    assert_eq!(
        result,
        Err(ParserError::InvalidInitialLine(
            "GET /test HTTP/1.1 extra".to_string()
        ))
    );
}

#[test]
fn header_without_colon_is_invalid() {
    let result = Request::parse_headers("NoColonHere");
    assert_eq!(
        result,
        Err(ParserError::InvalidHeader("NoColonHere".to_string()))
    );
}

#[test]
fn missing_terminator_is_invalid_format() {
    let result = Request::from_str("GET / HTTP/1.1\nHeader: x");
    assert_eq!(result, Err(ParserError::InvalidFormat));
}

#[test]
fn later_header_overwrites_earlier() {
    let headers = Request::parse_headers("A: 1\nA: 2").unwrap();
    assert_eq!(headers.get("a"), Some(&"2".to_string()));
}

#[test]
fn empty_header_block_is_valid() {
    let request = Request::from_str("GET / HTTP/1.1\n\n\n").unwrap();
    assert_eq!(request.headers.get("host"), None);
    assert_eq!(request.url, "/");
}

#[test]
fn crlf_request_parses() {
    let request = Request::from_str("GET /crlf HTTP/1.0\r\nHost: h\r\nAccept: */*\r\n\r\n").unwrap();
    assert_eq!(request.url, "/crlf");
    assert_eq!(request.version, HttpVersion { major: 1, minor: 0 });
    assert_eq!(request.headers.get("host"), Some(&"h".to_string()));
    assert_eq!(request.headers.get("accept"), Some(&"*/*".to_string()));
}
