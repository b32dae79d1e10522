use httper::form::extract_form_part;
use httper::form::extract_part_headers;
use httper::form::parse_form_data;
use httper::model::Body;
use httper::model::Error;
use httper::model::Part;
use httper::model::PartContent;
use httper::parse::parse_request;

const CONTENT: &str = r#"--foo
    Content-Disposition: form-data; name="image"; filename="Cargo.lock"
    Content-Type: application/octet-stream

    < ../Cargo.lock
    --foo
    content-Disposition: form-data; name="title"
    Content-Type: text/plain

    test text

    foobar
    --foo--"#;

#[test]
fn test_extract_form_body() {
    let form = parse_form_data(
        " multipart/form-data; boundary=foo".to_string(),
        CONTENT.to_string(),
        "../testdata",
    );

    assert!(form.is_ok());
}

#[test]
fn test_extract_body_part() {
    let body = r#"Content-Disposition: form-data; name="image"; filename="Cargo.lock"
Content-Type: application/octet-stream

< ../Cargo.lock"#;

    let body_content = body.lines().map(String::from).collect::<Vec<String>>();

    let maybe_part = extract_form_part(body_content, "..");

    assert!(maybe_part.is_ok());
}

#[test]
fn two_named_text_parts_round_trip() {
    let body = "--b\nContent-Disposition: form-data; name=\"alpha\"\n\nfirst body\n--b\nContent-Disposition: form-data; name=\"beta\"\n\nsecond\nbody\n--b--";
    let form = parse_form_data(
        "multipart/form-data; boundary=b".to_string(),
        body.to_string(),
        ".",
    )
    .unwrap();
    assert_eq!(form.len(), 2);
    match &form.get("alpha").unwrap().content {
        PartContent::Text(t) => assert_eq!(t, "first body"),
        other => panic!("expected text content, got {:?}", other),
    }
    match &form.get("beta").unwrap().content {
        PartContent::Text(t) => assert_eq!(t, "second\nbody"),
        other => panic!("expected text content, got {:?}", other),
    }
}

#[test]
fn boundary_key_is_case_insensitive_and_position_independent() {
    let body = "--xyz\nContent-Disposition: form-data; name=\"n\"\n\nv\n--xyz--";
    let upper = parse_form_data(
        "multipart/form-data; BOUNDARY=xyz".to_string(),
        body.to_string(),
        ".",
    )
    .unwrap();
    assert!(upper.get("n").is_some());

    let surrounded = parse_form_data(
        "multipart/form-data; charset=utf-8; boundary=xyz; other=1".to_string(),
        body.to_string(),
        ".",
    )
    .unwrap();
    assert!(surrounded.get("n").is_some());
}

#[test]
fn missing_boundary_is_an_error() {
    let e = parse_form_data(
        "multipart/form-data; charset=utf-8".to_string(),
        "--b\n".to_string(),
        ".",
    )
    .unwrap_err();
    assert_eq!(
        e,
        Error::FormDataBoundaryMissing("multipart/form-data; charset=utf-8".to_string())
    );
}

#[test]
fn part_without_name_fails_the_assembly() {
    let body = "--b\nX-Meta: 1\n\nhello\n--b--";
    let e = parse_form_data(
        "multipart/form-data; boundary=b".to_string(),
        body.to_string(),
        ".",
    )
    .unwrap_err();
    assert_eq!(e, Error::FormPartNameMissing);
}

#[test]
fn part_with_only_ignored_headers_is_dropped() {
    let body = "--b\nContent-Type: text/plain\n\nhello\n--b--\n";
    let form = parse_form_data(
        "multipart/form-data; boundary=b".to_string(),
        body.to_string(),
        ".",
    )
    .unwrap();
    assert_eq!(form.len(), 0);
}

#[test]
fn part_header_line_without_colon_is_invalid() {
    let body = "--b\nBadPartHeader\n\nhello\n--b--";
    let e = parse_form_data(
        "multipart/form-data; boundary=b".to_string(),
        body.to_string(),
        ".",
    )
    .unwrap_err();
    assert_eq!(e, Error::InvalidHeader("BadPartHeader".to_string()));
}

#[test]
fn file_reference_resolves_against_directory() {
    let input = "POST https://example.com/u\nContent-Type: multipart/form-data; boundary=b\n\n--b\nContent-Disposition: form-data; name=\"f\"; filename=\"a.txt\"\n\n< a.txt\n--b--";
    let d = parse_request(input, "/tmp/req").unwrap();
    match d.body {
        Some(Body::Multipart(form)) => {
            let part = form.get("f").unwrap();
            assert_eq!(part.filename.as_deref(), Some("a.txt"));
            match &part.content {
                PartContent::FileReference(path) => assert_eq!(path, "/tmp/req/a.txt"),
                other => panic!("expected a file reference, got {:?}", other),
            }
        }
        other => panic!("expected a multipart body, got {:?}", other),
    }
}

#[test]
fn relative_path_resolution_keeps_subdirectories() {
    let body = "--b\nContent-Disposition: form-data; name=\"f\"\n\n< relative/path.bin\n--b--";
    let form = parse_form_data(
        "multipart/form-data; boundary=b".to_string(),
        body.to_string(),
        "/data/requests",
    )
    .unwrap();
    match &form.get("f").unwrap().content {
        PartContent::FileReference(path) => {
            assert_eq!(path, "/data/requests/relative/path.bin")
        }
        other => panic!("expected a file reference, got {:?}", other),
    }
}

#[test]
fn extract_part_headers_captures_name_filename_and_headers() {
    let lines = vec![
        "Content-Disposition: form-data; name=\"doc\"; filename=\"r.pdf\"; extra=skipped"
            .to_string(),
        "Content-Type: application/pdf".to_string(),
        "X-Custom: yes".to_string(),
    ];
    let (headers, name, filename) = extract_part_headers(lines).unwrap();
    assert_eq!(name.as_deref(), Some("doc"));
    assert_eq!(filename.as_deref(), Some("r.pdf"));
    assert_eq!(headers.len(), 1);
    let (k, v) = headers.entry(0);
    assert_eq!(k, "X-Custom");
    assert_eq!(v, "yes");
}

#[test]
fn duplicate_part_names_overwrite() {
    let body = "--b\nContent-Disposition: form-data; name=\"n\"\n\nfirst\n--b\nContent-Disposition: form-data; name=\"n\"\n\nsecond\n--b--";
    let form = parse_form_data(
        "multipart/form-data; boundary=b".to_string(),
        body.to_string(),
        ".",
    )
    .unwrap();
    assert_eq!(form.len(), 1);
    match &form.get("n").unwrap().content {
        PartContent::Text(t) => assert_eq!(t, "second"),
        other => panic!("expected text content, got {:?}", other),
    }
}

#[test]
fn empty_segment_body_is_an_empty_text_part() {
    let body = "--b\nContent-Disposition: form-data; name=\"empty\"\n\n--b--";
    let form = parse_form_data(
        "multipart/form-data; boundary=b".to_string(),
        body.to_string(),
        ".",
    )
    .unwrap();
    match &form.get("empty").unwrap().content {
        PartContent::Text(t) => assert_eq!(t, ""),
        other => panic!("expected text content, got {:?}", other),
    }
}

#[test]
fn part_builders_set_each_field() {
    let mut headers = httper::model::Headers::new();
    headers.insert("X-A".to_string(), "1".to_string());
    let p = Part::text("hello".to_string())
        .file_name("h.txt".to_string())
        .headers(headers);
    assert!(matches!(&p.content, PartContent::Text(t) if t == "hello"));
    assert_eq!(p.filename.as_deref(), Some("h.txt"));
    assert_eq!(p.headers.as_ref().unwrap().len(), 1);

    let b = Part::bytes(vec![1u8, 2, 3]);
    assert!(matches!(&b.content, PartContent::Bytes(v) if v == &vec![1u8, 2, 3]));

    let r = Part::reader("/tmp/x.bin".to_string());
    assert!(matches!(&r.content, PartContent::FileReference(p) if p == "/tmp/x.bin"));
}

#[test]
fn form_insert_replaces_by_exact_name() {
    let mut form = httper::model::Form::new();
    form.part("k".to_string(), Part::text("one".to_string()));
    form.part("k".to_string(), Part::text("two".to_string()));
    form.part("K".to_string(), Part::text("upper".to_string()));
    assert_eq!(form.len(), 2);
    assert!(matches!(
        &form.get("k").unwrap().content,
        PartContent::Text(t) if t == "two"
    ));
    assert!(matches!(
        &form.get("K").unwrap().content,
        PartContent::Text(t) if t == "upper"
    ));
    assert!(form.get("missing").is_none());
}

#[test]
fn disposition_values_lose_exactly_one_quote_layer() {
    let lines = vec![
        "Content-Disposition: form-data; name=unquoted; filename=\"\"inner\"\"".to_string(),
    ];
    let (_, name, filename) = extract_part_headers(lines).unwrap();
    assert_eq!(name.as_deref(), Some("unquoted"));
    assert_eq!(filename.as_deref(), Some("\"inner\""));
}

#[test]
fn part_body_blank_lines_are_kept_verbatim() {
    let body = "--b\nContent-Disposition: form-data; name=\"n\"\n\nfirst\n\nthird\n--b--";
    let form = parse_form_data(
        "multipart/form-data; boundary=b".to_string(),
        body.to_string(),
        ".",
    )
    .unwrap();
    match &form.get("n").unwrap().content {
        PartContent::Text(t) => assert_eq!(t, "first\n\nthird"),
        other => panic!("expected text content, got {:?}", other),
    }
}
