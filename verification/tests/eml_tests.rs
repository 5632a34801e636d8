use rulefront::eml::{EmlParser, content_type_boundary};

#[test]
fn parses_headers_and_body() {
    let input = b"From: a@example.com\r\nTo: b@example.com\r\nSubject: hi\r\n\r\nHello there\r\n"
        .to_vec();
    let eml = EmlParser::new().parse(&input);
    assert_eq!(eml.is_eml, Some(true));
    assert_eq!(eml.headers.len(), 3);
    assert_eq!(eml.headers[0].key.as_deref(), Some(&b"From"[..]));
    assert_eq!(eml.headers[0].value.as_deref(), Some(&b"a@example.com"[..]));
    assert_eq!(eml.headers[2].key.as_deref(), Some(&b"Subject"[..]));
    assert_eq!(eml.body.as_deref(), Some(&b"Hello there"[..]));
    assert_eq!(eml.decoded_body, None);
}

#[test]
fn splits_on_bare_newlines() {
    let input = b"A: 1\nB: 2\n\nbody text".to_vec();
    let eml = EmlParser::new().parse(&input);
    assert_eq!(eml.headers.len(), 2);
    assert_eq!(eml.body.as_deref(), Some(&b"body text"[..]));
}

#[test]
fn no_separator_means_no_body() {
    let input = b"A: 1\nB: 2\n".to_vec();
    let eml = EmlParser::new().parse(&input);
    assert_eq!(eml.headers.len(), 2);
    assert_eq!(eml.body.as_deref(), Some(&b""[..]));
}

#[test]
fn continuation_lines_join_values() {
    let input = b"Subject: a very\n  long subject\nX: y\n\nbody".to_vec();
    let eml = EmlParser::new().parse(&input);
    assert_eq!(eml.headers.len(), 2);
    assert_eq!(eml.headers[0].value.as_deref(), Some(&b"a very long subject"[..]));
}

#[test]
fn base64_body_is_decoded() {
    let input =
        b"Content-Transfer-Encoding: base64\r\n\r\naGVs\r\nbG8g\r\nd29ybGQ=\r\n".to_vec();
    let eml = EmlParser::new().parse(&input);
    // Decoding strips the interleaved whitespace first, so the wrapper gets
    // the joined alphabet bytes and must really decode them.
    assert_eq!(eml.decoded_body.as_deref(), Some(&b"hello world"[..]));
}

#[test]
fn invalid_base64_leaves_decoded_body_absent() {
    let input = b"Content-Transfer-Encoding: base64\r\n\r\n!!!not base64!!!\r\n".to_vec();
    let eml = EmlParser::new().parse(&input);
    assert_eq!(eml.decoded_body, None);
    assert!(eml.body.is_some());
}

#[test]
fn boundary_extraction() {
    let quoted = b"multipart/mixed; boundary=\"XYZ 123\"".to_vec();
    assert_eq!(content_type_boundary(&quoted).as_deref(), Some(&b"XYZ 123"[..]));
    let bare = b"multipart/alternative; boundary=abc; charset=utf-8".to_vec();
    assert_eq!(content_type_boundary(&bare).as_deref(), Some(&b"abc"[..]));
    let not_multipart = b"text/plain; boundary=abc".to_vec();
    assert_eq!(content_type_boundary(&not_multipart), None);
    let no_boundary = b"multipart/mixed".to_vec();
    assert_eq!(content_type_boundary(&no_boundary), None);
}

#[test]
fn duplicate_header_key_keeps_one_entry() {
    // Two lines with the same key, surrounded by others: one entry, at the
    // first key's position, carrying the later line's value.
    let input = b"A: 1\ntest: first\nB: 2\ntest: second\nC: 3\n\nbody".to_vec();
    let eml = EmlParser::new().parse(&input);
    assert_eq!(eml.headers.len(), 4);
    assert_eq!(eml.headers[0].key.as_deref(), Some(&b"A"[..]));
    assert_eq!(eml.headers[1].key.as_deref(), Some(&b"test"[..]));
    assert_eq!(eml.headers[1].value.as_deref(), Some(&b"second"[..]));
    assert_eq!(eml.headers[2].key.as_deref(), Some(&b"B"[..]));
    assert_eq!(eml.headers[3].key.as_deref(), Some(&b"C"[..]));
}

#[test]
fn crlf_separator_takes_precedence() {
    // An LF-LF pair before the CRLF-CRLF pair: the splitter still uses the
    // first CRLF-CRLF separator.
    let input = b"A: 1\r\n\r\nbody\n\nmore".to_vec();
    let eml = EmlParser::new().parse(&input);
    assert_eq!(eml.headers.len(), 1);
    assert_eq!(eml.body.as_deref(), Some(&b"body\n\nmore"[..]));
}

#[test]
fn header_order_is_first_occurrence() {
    let a = EmlParser::new().parse(&b"X: 1\nY: 2\n\nbody".to_vec());
    let b = EmlParser::new().parse(&b"Y: 2\nX: 1\n\nbody".to_vec());
    let keys_a: Vec<_> = a.headers.iter().map(|h| h.key.clone().unwrap()).collect();
    let keys_b: Vec<_> = b.headers.iter().map(|h| h.key.clone().unwrap()).collect();
    assert_eq!(keys_a, vec![b"X".to_vec(), b"Y".to_vec()]);
    assert_eq!(keys_b, vec![b"Y".to_vec(), b"X".to_vec()]);
    // The lookup-driven fields agree regardless of declaration order.
    assert_eq!(a.body, b.body);
    assert_eq!(a.decoded_body, b.decoded_body);
}

#[test]
fn header_rules_stop_at_the_blank_line() {
    // Bytes before the first blank line are headers; header-shaped text in
    // the body stays body text.
    let input = b"A: 1\n\nB: 2".to_vec();
    let eml = EmlParser::new().parse(&input);
    assert_eq!(eml.is_eml, Some(true));
    assert_eq!(eml.headers.len(), 1);
    assert_eq!(eml.headers[0].key.as_deref(), Some(&b"A"[..]));
    assert_eq!(eml.headers[0].value.as_deref(), Some(&b"1"[..]));
    assert_eq!(eml.body.as_deref(), Some(&b"B: 2"[..]));
    assert_eq!(eml.decoded_body, None);
}

#[test]
fn whole_pipeline_base64_message() {
    let input = b"Content-Transfer-Encoding: base64\n\naGVsbG8=".to_vec();
    let eml = EmlParser::new().parse(&input);
    assert_eq!(eml.is_eml, Some(true));
    assert_eq!(eml.headers.len(), 1);
    assert_eq!(
        eml.headers[0].key.as_deref(),
        Some(&b"Content-Transfer-Encoding"[..])
    );
    assert_eq!(eml.headers[0].value.as_deref(), Some(&b"base64"[..]));
    assert_eq!(eml.body.as_deref(), Some(&b"aGVsbG8="[..]));
    assert_eq!(eml.decoded_body.as_deref(), Some(&b"hello"[..]));
}
