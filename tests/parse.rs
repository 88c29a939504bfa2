use reqparse::{
    Header, ParseError, ParseOutcome, ParsedRequest, ReferenceStatus, SizeClass, Span,
    build_request, generate_request, header_length_total, is_token_byte, is_visible_byte,
    lengths_total, parse, parse_header, parse_request_line, reference_parse, size_class,
};

fn complete(buf: &[u8], max: usize) -> (ParsedRequest, usize) {
    match parse(buf, max) {
        ParseOutcome::Complete(req, n) => (req, n),
        other => panic!("expected a complete head, got {:?}", other),
    }
}

fn text<'a>(buf: &'a [u8], s: Span) -> &'a [u8] {
    &buf[s.start..s.start + s.len]
}

fn failed(buf: &[u8], max: usize) -> ParseError {
    match parse(buf, max) {
        ParseOutcome::Failed(e) => e,
        other => panic!("expected an error, got {:?}", other),
    }
}

#[test]
fn small_request_has_host_and_three_headers() {
    let buf = generate_request("sm");
    let (req, n) = complete(&buf, 2048);
    assert_eq!(req.headers.len(), 1 + 3);
    assert_eq!(n, buf.len());
    assert_eq!(text(&buf, req.headers[0].name), b"Host");
    assert_eq!(text(&buf, req.headers[0].value), b"api.example.com");
    assert_eq!(text(&buf, req.headers[3].name), b"Connection");
    assert_eq!(text(&buf, req.headers[3].value), b"keep-alive");
}

#[test]
fn large_request_has_host_and_fifty_headers() {
    let buf = generate_request("lg");
    let (req, n) = complete(&buf, 2048);
    assert_eq!(req.headers.len(), 1 + 50);
    assert_eq!(n, buf.len());
    assert_eq!(text(&buf, req.headers[50].name), b"X-Custom-Header-49");
    assert_eq!(text(&buf, req.headers[50].value), b"some-value-49");
}

#[test]
fn extra_large_request_has_host_and_thousand_headers() {
    let buf = generate_request("xl");
    let (req, n) = complete(&buf, 2048);
    assert_eq!(req.headers.len(), 1 + 1000);
    assert_eq!(n, buf.len());
    assert_eq!(text(&buf, req.headers[1000].name), b"X-Large-Header-999");
    assert_eq!(text(&buf, req.headers[1000].value), [b'X'; 50].as_slice());
}

#[test]
fn exact_limit_is_enough() {
    let buf = generate_request("lg");
    let (req, _) = complete(&buf, 51);
    assert_eq!(req.headers.len(), 51);
}

#[test]
fn unknown_tag_gives_minimal_request() {
    let buf = generate_request("medium");
    assert_eq!(buf, b"GET /api/v1/users/123 HTTP/1.1\r\nHost: api.example.com\r\n\r\n".to_vec());
    let (req, _) = complete(&buf, 2048);
    assert_eq!(req.headers.len(), 1);
    assert_eq!(size_class(""), SizeClass::Minimal);
    assert_eq!(size_class("SM"), SizeClass::Minimal);
}

#[test]
fn small_request_bytes_are_exact() {
    let expected = b"GET /api/v1/users/123 HTTP/1.1\r\nHost: api.example.com\r\n\
User-Agent: Benchmark/1.0\r\nAccept: application/json\r\nConnection: keep-alive\r\n\r\n";
    assert_eq!(generate_request("sm"), expected.to_vec());
    assert_eq!(build_request(SizeClass::Small), expected.to_vec());
}

#[test]
fn large_request_lines_are_numbered() {
    let buf = String::from_utf8(generate_request("lg")).unwrap();
    assert!(buf.contains("\r\nX-Custom-Header-0: some-value-0\r\nX-Custom-Header-1: some-value-1\r\n"));
    assert!(buf.ends_with("X-Custom-Header-49: some-value-49\r\n\r\n"));
}

#[test]
fn extra_large_request_lines_have_filler() {
    let buf = String::from_utf8(generate_request("xl")).unwrap();
    let filler = "X".repeat(50);
    assert!(buf.contains(&format!("\r\nX-Large-Header-0: {}\r\n", filler)));
    assert!(buf.ends_with(&format!("X-Large-Header-999: {}\r\n\r\n", filler)));
}

#[test]
fn size_tags_select_classes() {
    assert_eq!(size_class("sm"), SizeClass::Small);
    assert_eq!(size_class("lg"), SizeClass::Large);
    assert_eq!(size_class("xl"), SizeClass::ExtraLarge);
}

#[test]
fn truncation_before_blank_line_is_incomplete() {
    for tag in ["sm", "lg"] {
        let buf = generate_request(tag);
        let (_, n) = complete(&buf, 2048);
        for k in 0..n {
            assert!(matches!(parse(&buf[..k], 2048), ParseOutcome::Incomplete), "cut at {}", k);
        }
    }
}

#[test]
fn empty_buffer_is_incomplete() {
    assert!(matches!(parse(b"", 10), ParseOutcome::Incomplete));
}

#[test]
fn missing_version_is_invalid_request_line() {
    assert_eq!(failed(b"GET /x\r\n\r\n", 10), ParseError::InvalidRequestLine);
}

#[test]
fn bad_request_lines() {
    assert_eq!(failed(b"GET /x HTTP/1.1 \r\n\r\n", 10), ParseError::InvalidRequestLine);
    assert_eq!(failed(b"GET  /x HTTP/1.1\r\n\r\n", 10), ParseError::InvalidRequestLine);
    assert_eq!(failed(b" GET /x HTTP/1.1\r\n\r\n", 10), ParseError::InvalidRequestLine);
    assert_eq!(failed(b"GET /x HTTP/x.1\r\n\r\n", 10), ParseError::InvalidRequestLine);
    assert_eq!(failed(b"GET /x HTTQ/1.1\r\n\r\n", 10), ParseError::InvalidRequestLine);
    assert_eq!(failed(b"G\x01T /x HTTP/1.1\r\n\r\n", 10), ParseError::InvalidRequestLine);
    assert_eq!(failed(b"GET /\x7f HTTP/1.1\r\n\r\n", 10), ParseError::InvalidRequestLine);
}

#[test]
fn header_without_colon_is_invalid_header() {
    assert_eq!(failed(b"GET / HTTP/1.1\r\nBadHeader\r\n\r\n", 10), ParseError::InvalidHeader);
}

#[test]
fn bad_header_lines() {
    assert_eq!(failed(b"GET / HTTP/1.1\r\n: v\r\n\r\n", 10), ParseError::InvalidHeader);
    assert_eq!(failed(b"GET / HTTP/1.1\r\nBad Name: v\r\n\r\n", 10), ParseError::InvalidHeader);
    assert_eq!(failed(b"GET / HTTP/1.1\r\nName : v\r\n\r\n", 10), ParseError::InvalidHeader);
    assert_eq!(failed(b"GET / HTTP/1.1\r\nA: b\rc\r\n\r\n", 10), ParseError::InvalidHeader);
    assert_eq!(failed(b"GET / HTTP/1.1\r\n\rX\r\n", 10), ParseError::InvalidHeader);
}

#[test]
fn bare_line_feed_is_rejected() {
    assert_eq!(failed(b"GET / HTTP/1.1\nHost: a\n\n", 10), ParseError::InvalidRequestLine);
    assert_eq!(failed(b"GET / HTTP/1.1\r\nHost: a\n\r\n", 10), ParseError::InvalidHeader);
    assert_eq!(failed(b"GET / HTTP/1.1\r\n\n", 10), ParseError::InvalidHeader);
}

#[test]
fn limit_below_count_is_too_many_headers() {
    let buf = generate_request("lg");
    assert_eq!(failed(&buf, 10), ParseError::TooManyHeaders);
    assert_eq!(failed(&buf, 50), ParseError::TooManyHeaders);
    assert_eq!(failed(b"GET / HTTP/1.1\r\nA: b\r\n\r\n", 0), ParseError::TooManyHeaders);
}

#[test]
fn zero_limit_without_headers_is_complete() {
    let (req, n) = complete(b"GET / HTTP/1.1\r\n\r\n", 0);
    assert!(req.headers.is_empty());
    assert_eq!(n, 18);
}

#[test]
fn consumed_is_end_of_blank_line() {
    let mut buf = generate_request("sm");
    let head_len = buf.len();
    buf.extend_from_slice(b"body bytes\r\n\r\n");
    let (req, n) = complete(&buf, 2048);
    assert_eq!(n, head_len);
    assert_eq!(req.body_start, head_len);
    assert_eq!(&buf[n - 4..n], b"\r\n\r\n");
}

#[test]
fn small_request_header_total() {
    let buf = generate_request("sm");
    let (req, _) = complete(&buf, 2048);
    assert_eq!(header_length_total(&req), Some(84));
}

#[test]
fn header_totals_of_large_requests() {
    let buf = generate_request("lg");
    let (req, _) = complete(&buf, 2048);
    // Host (19), then 50 names of 17 or 18 bytes and values of 12 or 13 bytes.
    assert_eq!(header_length_total(&req), Some(19 + 10 * (17 + 12) + 40 * (18 + 13)));
    let buf = generate_request("xl");
    let (req, _) = complete(&buf, 2048);
    assert_eq!(
        header_length_total(&req),
        Some(19 + 10 * (16 + 50) + 90 * (17 + 50) + 900 * (18 + 50))
    );
}

#[test]
fn parsing_twice_gives_same_result() {
    let buf = generate_request("lg");
    let (a, n) = complete(&buf, 2048);
    let (b, m) = complete(&buf, 2048);
    assert_eq!(n, m);
    assert_eq!(a.line, b.line);
    assert_eq!(a.headers, b.headers);
    assert_eq!(a.body_start, b.body_start);
}

#[test]
fn request_line_fields() {
    let buf = b"POST /submit?x=1 HTTP/1.0\r\n\r\n";
    let (req, _) = complete(buf, 4);
    assert_eq!(text(buf, req.line.method), b"POST");
    assert_eq!(text(buf, req.line.target), b"/submit?x=1");
    assert_eq!((req.line.major, req.line.minor), (1, 0));
    let line = parse_request_line(buf, 25).unwrap();
    assert_eq!(line, req.line);
    assert_eq!(parse_request_line(buf, 24), None);
}

#[test]
fn header_values_are_trimmed_and_may_be_empty() {
    let buf = b"GET / HTTP/1.1\r\nA:  v w \t\r\nB:\r\nC: \t \r\n\r\n";
    let (req, _) = complete(buf, 8);
    assert_eq!(text(buf, req.headers[0].value), b"v w");
    assert_eq!(req.headers[1].value.len, 0);
    assert_eq!(req.headers[2].value.len, 0);
    let h = parse_header(buf, 16, 25).unwrap();
    assert_eq!(h, req.headers[0]);
    assert_eq!(h, Header { name: Span { start: 16, len: 1 }, value: Span { start: 20, len: 3 } });
}

#[test]
fn duplicate_names_stay_separate() {
    let buf = b"GET / HTTP/1.1\r\nA: 1\r\nA: 2\r\n\r\n";
    let (req, _) = complete(buf, 8);
    assert_eq!(req.headers.len(), 2);
    assert_eq!(text(buf, req.headers[0].value), b"1");
    assert_eq!(text(buf, req.headers[1].value), b"2");
}

#[test]
fn byte_classes() {
    assert!(is_token_byte(b'a') && is_token_byte(b'Z') && is_token_byte(b'7') && is_token_byte(b'~'));
    assert!(!is_token_byte(b':') && !is_token_byte(b' ') && !is_token_byte(b'(') && !is_token_byte(0));
    assert!(is_visible_byte(b'/') && is_visible_byte(0xC3));
    assert!(!is_visible_byte(b' ') && !is_visible_byte(0x7f) && !is_visible_byte(b'\r'));
}

#[test]
fn reference_parser_agrees_on_synthetic_requests() {
    for tag in ["sm", "lg", "xl"] {
        let buf = generate_request(tag);
        let (req, n) = complete(&buf, 2048);
        match reference_parse(&buf, 2048) {
            ReferenceStatus::Complete(m, lens) => {
                assert_eq!(m, n);
                assert_eq!(lens.len(), req.headers.len());
                assert_eq!(lengths_total(&lens), header_length_total(&req));
            }
            other => panic!("reference parse of {} gave {:?}", tag, other),
        }
    }
}

#[test]
fn reference_parser_partial_and_too_many() {
    let buf = generate_request("sm");
    assert!(matches!(reference_parse(&buf[..buf.len() - 1], 16), ReferenceStatus::Partial));
    assert!(matches!(reference_parse(&buf, 2), ReferenceStatus::Invalid));
}

#[test]
fn lengths_total_sums_and_overflows() {
    assert_eq!(lengths_total(&vec![(4, 15), (10, 13)]), Some(42));
    assert_eq!(lengths_total(&vec![]), Some(0));
    assert_eq!(lengths_total(&vec![(usize::MAX, 1)]), None);
}

#[test]
fn truncation_of_extra_large_request_is_incomplete() {
    let buf = generate_request("xl");
    let (_, n) = complete(&buf, 2048);
    let mut k = 0;
    while k < n {
        assert!(matches!(parse(&buf[..k], 2048), ParseOutcome::Incomplete), "cut at {}", k);
        k += 997;
    }
    for k in n - 4..n {
        assert!(matches!(parse(&buf[..k], 2048), ParseOutcome::Incomplete), "cut at {}", k);
    }
}
