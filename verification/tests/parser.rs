use httper::model::AuthDirective;
use httper::model::Body;
use httper::model::Error;
use httper::model::Method;
use httper::model::Version;
use httper::parse::map_version;
use httper::parse::parse_request;

fn header_value(h: &httper::model::Headers, key: &str) -> Option<String> {
    h.get(key).cloned()
}

#[test]
fn get_https_defaults_to_http2() {
    let d = parse_request("GET https://example.com/x\n\n", ".").unwrap();
    assert_eq!(d.method, Method::Get);
    assert_eq!(d.url.raw, "https://example.com/x");
    assert_eq!(d.url.scheme, "https");
    assert_eq!(d.version, Version::Http2);
    assert_eq!(d.headers.len(), 0);
    assert!(matches!(d.auth, AuthDirective::Absent));
    assert!(d.content_type.is_none());
    assert!(d.body.is_none());
}

#[test]
fn post_json_with_explicit_version() {
    let d = parse_request(
        "POST http://a/b HTTP/1.0\nContent-Type: application/json\n\n{\"a\":1}",
        ".",
    )
    .unwrap();
    assert_eq!(d.method, Method::Post);
    assert_eq!(d.version, Version::Http10);
    assert_eq!(d.content_type.as_deref(), Some("application/json"));
    match d.body {
        Some(Body::Json(text)) => assert_eq!(text, "{\"a\":1}"),
        other => panic!("expected a JSON body, got {:?}", other),
    }
}

#[test]
fn http_scheme_defaults_to_http11() {
    let d = parse_request("GET http://example.com/x\n\n", ".").unwrap();
    assert_eq!(d.version, Version::Http11);
}

#[test]
fn unrecognized_version_falls_back_to_http11() {
    let d = parse_request("GET https://example.com/x HTTP/9.9\n\n", ".").unwrap();
    assert_eq!(d.version, Version::Http11);
}

#[test]
fn version_tokens_are_case_insensitive() {
    assert_eq!(map_version("http/0.9"), Version::Http09);
    assert_eq!(map_version("HTTP/1.0"), Version::Http10);
    assert_eq!(map_version(" http/2 "), Version::Http2);
    assert_eq!(map_version("HTTP/2.0"), Version::Http2);
    assert_eq!(map_version("http/3"), Version::Http3);
    assert_eq!(map_version("HTTP/3.0"), Version::Http3);
    assert_eq!(map_version("HTTP/1.1"), Version::Http11);
    assert_eq!(map_version("gopher"), Version::Http11);
}

#[test]
fn bearer_auth_is_extracted_and_removed_from_headers() {
    let d = parse_request(
        "GET https://example.com/x\nAuthorization: Bearer abc123\nX-Other: 1\n\n",
        ".",
    )
    .unwrap();
    match &d.auth {
        AuthDirective::Bearer(tok) => assert_eq!(tok, "abc123"),
        other => panic!("expected a bearer directive, got {:?}", other),
    }
    assert!(header_value(&d.headers, "authorization").is_none());
    assert_eq!(header_value(&d.headers, "x-other").as_deref(), Some("1"));
}

#[test]
fn basic_auth_splits_username_and_password() {
    let d = parse_request(
        "GET https://example.com/x\nAuthorization: Basic user secret\n\n",
        ".",
    )
    .unwrap();
    match &d.auth {
        AuthDirective::Basic(u, p) => {
            assert_eq!(u, "user");
            assert_eq!(p, "secret");
        }
        other => panic!("expected a basic directive, got {:?}", other),
    }
}

#[test]
fn basic_auth_without_space_is_invalid_header() {
    let e = parse_request(
        "GET https://example.com/x\nAuthorization: Basic nospace\n\n",
        ".",
    )
    .unwrap_err();
    assert!(matches!(e, Error::InvalidHeader(_)));
}

#[test]
fn unrecognized_auth_scheme_passes_through() {
    let d = parse_request(
        "GET https://example.com/x\nAuthorization: Digest abc\n\n",
        ".",
    )
    .unwrap();
    assert!(matches!(d.auth, AuthDirective::Absent));
    assert_eq!(
        header_value(&d.headers, "authorization").as_deref(),
        Some("Digest abc")
    );
}

#[test]
fn duplicate_header_keys_last_occurrence_wins() {
    let d = parse_request(
        "GET https://example.com/x\nX-Tag: one\nx-tag: two\n\n",
        ".",
    )
    .unwrap();
    assert_eq!(d.headers.len(), 1);
    assert_eq!(header_value(&d.headers, "x-tag").as_deref(), Some("two"));
}

#[test]
fn comment_lines_are_stripped_before_parsing() {
    let d = parse_request(
        "// a comment\nGET https://example.com/x\n# another\nX-Tag: kept\n\n",
        ".",
    )
    .unwrap();
    assert_eq!(d.method, Method::Get);
    assert_eq!(header_value(&d.headers, "x-tag").as_deref(), Some("kept"));
}

#[test]
fn header_line_without_colon_is_invalid() {
    let e = parse_request(
        "GET https://example.com/x\nBadHeaderNoColon\n\n",
        ".",
    )
    .unwrap_err();
    assert_eq!(e, Error::InvalidHeader("BadHeaderNoColon".to_string()));
}

#[test]
fn blank_input_is_empty_request() {
    assert_eq!(parse_request("", ".").unwrap_err(), Error::EmptyRequest);
    assert_eq!(parse_request("  \n \t\n", ".").unwrap_err(), Error::EmptyRequest);
    assert_eq!(
        parse_request("# only a comment\n", ".").unwrap_err(),
        Error::EmptyRequest
    );
}

#[test]
fn one_token_request_line_is_not_enough() {
    assert_eq!(
        parse_request("GETONLY\n\n", ".").unwrap_err(),
        Error::NotEnoughParts("GETONLY".to_string())
    );
}

#[test]
fn unknown_method_is_invalid() {
    assert_eq!(
        parse_request("FROB https://example.com/x\n\n", ".").unwrap_err(),
        Error::InvalidMethod("FROB".to_string())
    );
}

#[test]
fn relative_url_is_invalid() {
    assert_eq!(
        parse_request("GET not_a_url\n\n", ".").unwrap_err(),
        Error::InvalidUrl("not_a_url".to_string())
    );
}

#[test]
fn raw_body_for_other_content_types() {
    let d = parse_request(
        "POST https://example.com/x\nContent-Type: text/plain\n\nhello\nworld",
        ".",
    )
    .unwrap();
    match d.body {
        Some(Body::Raw(text)) => assert_eq!(text, "hello\nworld"),
        other => panic!("expected a raw body, got {:?}", other),
    }
}

#[test]
fn urlencoded_body_is_kept_literally() {
    let d = parse_request(
        "POST https://example.com/x\nContent-Type: application/x-www-form-urlencoded\n\na=1&b=2",
        ".",
    )
    .unwrap();
    match d.body {
        Some(Body::UrlEncodedForm(text)) => assert_eq!(text, "a=1&b=2"),
        other => panic!("expected a form body, got {:?}", other),
    }
}

#[test]
fn body_without_content_type_is_dropped() {
    let d = parse_request("GET https://example.com/x\nX-A: 1\n\nignored body", ".").unwrap();
    assert!(d.body.is_none());
    assert!(d.content_type.is_none());
}

#[test]
fn empty_body_error_state_is_representable() {
    let e = Error::EmptyBody;
    assert!(matches!(e, Error::EmptyBody));
    assert_eq!(e, Error::EmptyBody);
}

#[test]
fn method_tokens_round_trip() {
    let tok: Vec<char> = "POST".chars().collect();
    assert_eq!(Method::from_token(&tok), Some(Method::Post));
    let bad: Vec<char> = "post".chars().collect();
    assert_eq!(Method::from_token(&bad), None);
    assert_eq!(Method::Get.token(), "GET");
    assert_eq!(Method::Delete.token(), "DELETE");
}
