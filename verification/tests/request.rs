use http_server::request::{
    parse_header, parse_header_block, parse_header_section, parse_headers, parse_path_segment,
    parse_path_segments,
    parse_request, parse_request_head, parse_request_type, parse_status_line, Method, ParseError,
    Request,
};

fn owned(parts: &[&[u8]]) -> Vec<Vec<u8>> {
    parts.iter().map(|p| p.to_vec()).collect()
}

fn pairs(parts: &[(&[u8], &[u8])]) -> Vec<(Vec<u8>, Vec<u8>)> {
    parts.iter().map(|(n, v)| (n.to_vec(), v.to_vec())).collect()
}

fn rebuild_path(segments: &[Vec<u8>]) -> Vec<u8> {
    let mut path: Vec<u8> = vec![b'/'];
    path.extend_from_slice(&segments.join(&b'/'));
    path
}

#[test]
fn method_get() {
    assert_eq!(parse_request_type(b"GET /index"), Ok((&b"/index"[..], Method::Get)));
}

#[test]
fn method_post() {
    assert_eq!(parse_request_type(b"POST /files/x"), Ok((&b"/files/x"[..], Method::Post)));
}

#[test]
fn method_other_is_rejected() {
    assert_eq!(parse_request_type(b"DELETE /files/x"), Err(ParseError::UnrecognizedMethod));
    assert_eq!(parse_request_type(b"PUT /"), Err(ParseError::UnrecognizedMethod));
    assert_eq!(parse_request_type(b"HEAD /"), Err(ParseError::UnrecognizedMethod));
}

#[test]
fn method_needs_its_space_and_its_case() {
    assert_eq!(parse_request_type(b"GET"), Err(ParseError::UnrecognizedMethod));
    assert_eq!(parse_request_type(b"GET\t/"), Err(ParseError::UnrecognizedMethod));
    assert_eq!(parse_request_type(b"get /"), Err(ParseError::UnrecognizedMethod));
    assert_eq!(parse_request_type(b" GET /"), Err(ParseError::UnrecognizedMethod));
    assert_eq!(parse_request_type(b""), Err(ParseError::UnrecognizedMethod));
    assert_eq!(parse_request_type(b"POST"), Err(ParseError::UnrecognizedMethod));
}

#[test]
fn segment_ends_at_slash() {
    assert_eq!(parse_path_segment(b"/abc/def"), Some((&b"/def"[..], &b"abc"[..])));
}

#[test]
fn segment_ends_at_space() {
    assert_eq!(parse_path_segment(b"/abc HTTP/1.1"), Some((&b" HTTP/1.1"[..], &b"abc"[..])));
}

#[test]
fn segment_ends_with_the_input() {
    assert_eq!(parse_path_segment(b"/abc"), Some((&b""[..], &b"abc"[..])));
}

#[test]
fn segment_may_be_empty() {
    assert_eq!(parse_path_segment(b"/ HTTP/1.1"), Some((&b" HTTP/1.1"[..], &b""[..])));
    assert_eq!(parse_path_segment(b"//x"), Some((&b"/x"[..], &b""[..])));
    assert_eq!(parse_path_segment(b"/"), Some((&b""[..], &b""[..])));
}

#[test]
fn segment_needs_its_slash() {
    assert_eq!(parse_path_segment(b"abc/def"), None);
    assert_eq!(parse_path_segment(b" /abc"), None);
    assert_eq!(parse_path_segment(b""), None);
}

#[test]
fn segment_holds_tabs_and_line_breaks() {
    assert_eq!(parse_path_segment(b"/a\tb\r\nc d"), Some((&b" d"[..], &b"a\tb\r\nc"[..])));
}

#[test]
fn segments_of_a_path() {
    let (rest, segments) = parse_path_segments(b"/echo/a/b HTTP/1.1");
    assert_eq!(rest, b" HTTP/1.1");
    assert_eq!(segments, vec![&b"echo"[..], &b"a"[..], &b"b"[..]]);
}

#[test]
fn segments_of_the_root_path() {
    let (rest, segments) = parse_path_segments(b"/ HTTP/1.1");
    assert_eq!(rest, b" HTTP/1.1");
    assert_eq!(segments, vec![&b""[..]]);
}

#[test]
fn segments_of_no_path() {
    let (rest, segments) = parse_path_segments(b" HTTP/1.1");
    assert_eq!(rest, b" HTTP/1.1");
    assert!(segments.is_empty());
    let (rest, segments) = parse_path_segments(b"");
    assert_eq!(rest, b"");
    assert!(segments.is_empty());
}

#[test]
fn segments_keep_empty_ones() {
    let (rest, segments) = parse_path_segments(b"//a// x");
    assert_eq!(rest, b" x");
    assert_eq!(segments, vec![&b""[..], &b"a"[..], &b""[..], &b""[..]]);
}

#[test]
fn segments_never_hold_a_slash_or_a_space() {
    let (_, segments) = parse_path_segments(b"/a/b c/d/e//f g");
    for segment in segments {
        assert!(!segment.contains(&b'/'));
        assert!(!segment.contains(&b' '));
    }
}

#[test]
fn status_line_of_a_get() {
    let (rest, (method, segments)) =
        parse_status_line(b"GET /echo/abc HTTP/1.1\r\nHost: x\r\n\r\n").unwrap();
    assert_eq!(rest, b"Host: x\r\n\r\n");
    assert_eq!(method, Method::Get);
    assert_eq!(segments, vec![&b"echo"[..], &b"abc"[..]]);
}

#[test]
fn status_line_of_a_post() {
    let (rest, (method, segments)) = parse_status_line(b"POST /files/n HTTP/1.1\r\n").unwrap();
    assert_eq!(rest, b"");
    assert_eq!(method, Method::Post);
    assert_eq!(segments, vec![&b"files"[..], &b"n"[..]]);
}

#[test]
fn status_line_without_a_path() {
    let (rest, (method, segments)) = parse_status_line(b"GET  HTTP/1.1\r\nx").unwrap();
    assert_eq!(rest, b"x");
    assert_eq!(method, Method::Get);
    assert!(segments.is_empty());
}

#[test]
fn status_line_rejects_other_methods() {
    assert_eq!(
        parse_status_line(b"DELETE /files/x HTTP/1.1\r\n\r\n"),
        Err(ParseError::UnrecognizedMethod)
    );
}

#[test]
fn status_line_rejects_other_protocols() {
    assert_eq!(parse_status_line(b"GET / HTTP/1.0\r\n\r\n"), Err(ParseError::MalformedRequestLine));
    assert_eq!(parse_status_line(b"GET / HTTP/2\r\n\r\n"), Err(ParseError::MalformedRequestLine));
    assert_eq!(parse_status_line(b"GET / http/1.1\r\n\r\n"), Err(ParseError::MalformedRequestLine));
}

#[test]
fn status_line_needs_crlf() {
    assert_eq!(parse_status_line(b"GET / HTTP/1.1\n\n"), Err(ParseError::MalformedRequestLine));
    assert_eq!(parse_status_line(b"GET / HTTP/1.1"), Err(ParseError::MalformedRequestLine));
    assert_eq!(parse_status_line(b"GET / HTTP/1.1\r"), Err(ParseError::MalformedRequestLine));
}

#[test]
fn status_line_rejects_a_path_without_slash() {
    assert_eq!(parse_status_line(b"GET index HTTP/1.1\r\n"), Err(ParseError::MalformedRequestLine));
}

#[test]
fn status_line_rejects_two_spaces_after_the_path() {
    assert_eq!(parse_status_line(b"GET /a  HTTP/1.1\r\n"), Err(ParseError::MalformedRequestLine));
}

#[test]
fn status_line_rejects_truncated_input() {
    assert_eq!(parse_status_line(b"GET /abc"), Err(ParseError::MalformedRequestLine));
    assert_eq!(parse_status_line(b"GET "), Err(ParseError::MalformedRequestLine));
    assert_eq!(parse_status_line(b"GE"), Err(ParseError::UnrecognizedMethod));
}

#[test]
fn header_with_crlf() {
    assert_eq!(
        parse_header(b"Host: example.org\r\nNext: 1\r\n"),
        Some((&b"Next: 1\r\n"[..], (&b"Host"[..], &b"example.org"[..])))
    );
}

#[test]
fn header_with_lf() {
    assert_eq!(parse_header(b"Host: h\nrest"), Some((&b"rest"[..], (&b"Host"[..], &b"h"[..]))));
}

#[test]
fn header_takes_every_line_ending_that_follows() {
    assert_eq!(
        parse_header(b"Host: h\r\n\r\nbody"),
        Some((&b"body"[..], (&b"Host"[..], &b"h"[..])))
    );
    assert_eq!(
        parse_header(b"A: b\r\n\r\n"),
        Some((&b""[..], (&b"A"[..], &b"b"[..])))
    );
    assert_eq!(
        parse_header(b"A: b\n\r\n\n\nC: d\r\n"),
        Some((&b"C: d\r\n"[..], (&b"A"[..], &b"b"[..])))
    );
}

#[test]
fn header_leaves_nothing_that_starts_with_a_line_ending() {
    let texts: [&[u8]; 5] = [
        b"A: b\r\n",
        b"A: b\n\n\n",
        b"A: b\r\n\r\n\r\nrest",
        b"A: b\n\rrest",
        b"A: b\r\n\r",
    ];
    for text in texts {
        let (rest, _) = parse_header(text).unwrap();
        assert!(!rest.starts_with(b"\n"));
        assert!(!rest.starts_with(b"\r\n"));
        assert!(text.ends_with(rest));
    }
    assert_eq!(parse_header(b"A: b\n\rrest").unwrap().0, b"\rrest");
}

#[test]
fn header_value_may_hold_colons_and_spaces() {
    assert_eq!(
        parse_header(b"User-Agent: foo/1.0 (a: b)\r\n"),
        Some((&b""[..], (&b"User-Agent"[..], &b"foo/1.0 (a: b)"[..])))
    );
}

#[test]
fn header_value_keeps_its_spaces() {
    assert_eq!(parse_header(b"A:  b \r\n"), Some((&b""[..], (&b"A"[..], &b" b "[..]))));
}

#[test]
fn header_name_and_value_may_be_empty() {
    assert_eq!(parse_header(b": v\r\n"), Some((&b""[..], (&b""[..], &b"v"[..]))));
    assert_eq!(parse_header(b"N: \r\n"), Some((&b""[..], (&b"N"[..], &b""[..]))));
    assert_eq!(parse_header(b": \n"), Some((&b""[..], (&b""[..], &b""[..]))));
}

#[test]
fn header_needs_colon_and_space() {
    assert_eq!(parse_header(b"Host:example.org\r\n"), None);
    assert_eq!(parse_header(b"Host example.org\r\n"), None);
    assert_eq!(parse_header(b"Host:\r\n"), None);
    assert_eq!(parse_header(b"Host"), None);
    assert_eq!(parse_header(b""), None);
}

#[test]
fn header_needs_its_line_ending() {
    assert_eq!(parse_header(b"Host: example.org"), None);
    assert_eq!(parse_header(b"Host: example.org\r"), None);
    assert_eq!(parse_header(b"Host: example.org\rX"), None);
}

#[test]
fn header_name_does_not_span_lines() {
    assert_eq!(parse_header(b"\r\nHost: h\r\n"), None);
    assert_eq!(parse_header(b"abc\r\nHost: h\r\n"), None);
    assert_eq!(parse_header(b"abc\nHost: h\r\n"), None);
}

#[test]
fn headers_in_order() {
    let (rest, headers) = parse_headers(b"A: 1\r\nB: 2\r\nA: 3\r\n\r\nbody").unwrap();
    assert_eq!(rest, b"body");
    assert_eq!(
        headers,
        vec![(&b"A"[..], &b"1"[..]), (&b"B"[..], &b"2"[..]), (&b"A"[..], &b"3"[..])]
    );
}

#[test]
fn headers_stop_at_a_malformed_line() {
    let (rest, headers) = parse_headers(b"A: 1\r\nB 2\r\nC: 3\r\n").unwrap();
    assert_eq!(rest, b"B 2\r\nC: 3\r\n");
    assert_eq!(headers, vec![(&b"A"[..], &b"1"[..])]);
}

#[test]
fn headers_without_a_header_consume_nothing() {
    let texts: [&[u8]; 6] = [b"\r\n", b"\r\nbody", b"", b"body", b"A:1\r\n\r\n", b"\nA: 1\r\n"];
    for text in texts {
        let (rest, headers) = parse_headers(text).unwrap();
        assert_eq!(rest, text);
        assert!(headers.is_empty());
    }
}

#[test]
fn headers_never_fail() {
    let texts: [&[u8]; 7] = [
        b"",
        b"A: 1",
        b"A: 1\r\n",
        b"A: 1\r\nB 2\r\n\r\n",
        b"\r\n",
        b"\x00\xff: \r",
        b"A: 1\r\n\r\nB: 2\r\n",
    ];
    for text in texts {
        assert!(parse_headers(text).is_ok());
    }
}

#[test]
fn headers_end_at_the_blank_line() {
    let (rest, headers) = parse_headers(b"A: 1\r\nB: 2\r\n\r\nbody").unwrap();
    assert_eq!(rest, b"body");
    assert_eq!(headers, vec![(&b"A"[..], &b"1"[..]), (&b"B"[..], &b"2"[..])]);
}

#[test]
fn headers_end_at_the_first_blank_line() {
    let (rest, headers) = parse_headers(b"A: 1\r\n\r\nB: 2\r\n\r\n").unwrap();
    assert_eq!(rest, b"B: 2\r\n\r\n");
    assert_eq!(headers, vec![(&b"A"[..], &b"1"[..])]);
}

#[test]
fn headers_take_every_line_ending_that_follows() {
    let (rest, headers) = parse_headers(b"A: 1\r\n\r\n\n\r\nbody\r\n").unwrap();
    assert_eq!(rest, b"body\r\n");
    assert_eq!(headers, vec![(&b"A"[..], &b"1"[..])]);
}

#[test]
fn headers_accept_bare_line_feeds() {
    let (rest, headers) = parse_headers(b"A: 1\nB: 2\n\nbody").unwrap();
    assert_eq!(rest, b"body");
    assert_eq!(headers, vec![(&b"A"[..], &b"1"[..]), (&b"B"[..], &b"2"[..])]);
}

#[test]
fn headers_without_blank_line_end_with_the_input() {
    let (rest, headers) = parse_headers(b"A: 1\r\nB: 2\r\n").unwrap();
    assert_eq!(rest, b"");
    assert_eq!(headers, vec![(&b"A"[..], &b"1"[..]), (&b"B"[..], &b"2"[..])]);
    let (rest, headers) = parse_headers(b"A: 1\r\nB: 2").unwrap();
    assert_eq!(rest, b"B: 2");
    assert_eq!(headers, vec![(&b"A"[..], &b"1"[..])]);
}

#[test]
fn headers_first_is_the_header_at_the_head() {
    let texts: [&[u8]; 3] = [b"A: 1\r\nB: 2\r\n\r\n", b"X: y\n\nZ: 1\n", b": \n"];
    for text in texts {
        let (_, headers) = parse_headers(text).unwrap();
        let (_, first) = parse_header(text).unwrap();
        assert_eq!(headers[0], first);
    }
}

#[test]
fn header_block_says_whether_a_blank_line_ended_it() {
    let (rest, headers, closed) = parse_header_block(b"A: 1\r\nB: 2\r\n\r\nbody");
    assert_eq!(rest, b"body");
    assert_eq!(headers.len(), 2);
    assert!(closed);
    let (rest, headers, closed) = parse_header_block(b"A: 1\r\nB: 2\r\nbody");
    assert_eq!(rest, b"body");
    assert_eq!(headers.len(), 2);
    assert!(!closed);
    let (rest, headers, closed) = parse_header_block(b"\r\nbody");
    assert_eq!(rest, b"\r\nbody");
    assert!(headers.is_empty());
    assert!(!closed);
    let (rest, headers, closed) = parse_header_block(b"A: 1\n\n");
    assert_eq!(rest, b"");
    assert_eq!(headers.len(), 1);
    assert!(closed);
    let (_, _, closed) = parse_header_block(b"A: 1\r\n");
    assert!(!closed);
}

#[test]
fn header_section_ends_behind_the_blank_line() {
    let (rest, headers) = parse_header_section(b"A: 1\r\nB: 2\r\n\r\nbody").unwrap();
    assert_eq!(rest, b"body");
    assert_eq!(headers, vec![(&b"A"[..], &b"1"[..]), (&b"B"[..], &b"2"[..])]);
}

#[test]
fn header_section_ends_at_the_first_blank_line() {
    let (rest, headers) = parse_header_section(b"A: 1\r\n\r\nB: 2\r\n\r\n").unwrap();
    assert_eq!(rest, b"B: 2\r\n\r\n");
    assert_eq!(headers, vec![(&b"A"[..], &b"1"[..])]);
}

#[test]
fn header_section_may_hold_no_header() {
    let (rest, headers) = parse_header_section(b"\r\nbody").unwrap();
    assert_eq!(rest, b"body");
    assert!(headers.is_empty());
    let (rest, headers) = parse_header_section(b"\n\r\n\nbody").unwrap();
    assert_eq!(rest, b"body");
    assert!(headers.is_empty());
}

#[test]
fn header_section_takes_every_line_ending_that_follows() {
    let (rest, headers) = parse_header_section(b"A: 1\r\n\r\n\n\r\nbody\r\n").unwrap();
    assert_eq!(rest, b"body\r\n");
    assert_eq!(headers, vec![(&b"A"[..], &b"1"[..])]);
}

#[test]
fn header_section_needs_the_blank_line() {
    assert_eq!(parse_header_section(b"A: 1\r\n"), Err(ParseError::UnterminatedHeaders));
    assert_eq!(parse_header_section(b""), Err(ParseError::UnterminatedHeaders));
    assert_eq!(parse_header_section(b"A: 1"), Err(ParseError::UnterminatedHeaders));
}

#[test]
fn header_section_rejects_a_malformed_line() {
    assert_eq!(
        parse_header_section(b"A: 1\r\nB 2\r\n\r\n"),
        Err(ParseError::UnterminatedHeaders)
    );
    assert_eq!(parse_header_section(b"A:1\r\n\r\n"), Err(ParseError::UnterminatedHeaders));
    assert_eq!(parse_header_section(b"body"), Err(ParseError::UnterminatedHeaders));
}

#[test]
fn head_of_a_request() {
    let (rest, ((method, segments), headers)) =
        parse_request_head(b"POST /files/n HTTP/1.1\r\nContent-Length: 4\r\n\r\ndata").unwrap();
    assert_eq!(rest, b"data");
    assert_eq!(method, Method::Post);
    assert_eq!(segments, vec![&b"files"[..], &b"n"[..]]);
    assert_eq!(headers, vec![(&b"Content-Length"[..], &b"4"[..])]);
}

#[test]
fn head_fails_as_its_parts_fail() {
    assert_eq!(parse_request_head(b"PUT / HTTP/1.1\r\n\r\n"), Err(ParseError::UnrecognizedMethod));
    assert_eq!(
        parse_request_head(b"GET / HTTP/1.2\r\n\r\n"),
        Err(ParseError::MalformedRequestLine)
    );
    assert_eq!(parse_request_head(b"GET / HTTP/1.1\r\n"), Err(ParseError::UnterminatedHeaders));
}

#[test]
fn request_for_the_root() {
    assert_eq!(
        parse_request(b"GET / HTTP/1.1\r\n\r\n"),
        Ok(Request {
            method: Method::Get,
            path_segments: owned(&[b""]),
            headers: Vec::new(),
            remainder: Vec::new(),
        })
    );
}

#[test]
fn request_with_headers_and_body() {
    assert_eq!(
        parse_request(
            b"POST /files/new.txt HTTP/1.1\r\nHost: localhost:4221\r\nContent-Length: 4\r\n\r\ndata"
        ),
        Ok(Request {
            method: Method::Post,
            path_segments: owned(&[b"files", b"new.txt"]),
            headers: pairs(&[(b"Host", b"localhost:4221"), (b"Content-Length", b"4")]),
            remainder: b"data".to_vec(),
        })
    );
}

#[test]
fn request_keeps_duplicate_headers_and_their_case() {
    let request =
        parse_request(b"GET /x HTTP/1.1\r\naccept: a\r\nAccept: b\r\naccept: c\r\n\r\n").unwrap();
    assert_eq!(
        request.headers,
        pairs(&[(b"accept", b"a"), (b"Accept", b"b"), (b"accept", b"c")])
    );
}

#[test]
fn request_in_a_zero_filled_buffer() {
    let mut buffer: [u8; 1024] = [0; 1024];
    let text = b"GET /user-agent HTTP/1.1\r\nUser-Agent: foo/1.0\r\n\r\n";
    buffer[..text.len()].copy_from_slice(text);
    let request = parse_request(&buffer).unwrap();
    assert_eq!(request.method, Method::Get);
    assert_eq!(request.path_segments, owned(&[b"user-agent"]));
    assert_eq!(request.headers, pairs(&[(b"User-Agent", b"foo/1.0")]));
    assert_eq!(request.remainder, vec![0u8; 1024 - text.len()]);
}

#[test]
fn request_remainder_is_not_framed() {
    let request =
        parse_request(b"POST /files/f HTTP/1.1\r\nContent-Length: 2\r\n\r\nabcdef: g\r\n").unwrap();
    assert_eq!(request.headers, pairs(&[(b"Content-Length", b"2")]));
    assert_eq!(request.remainder, b"abcdef: g\r\n");
}

#[test]
fn request_body_that_looks_like_a_header_stays_body() {
    let request = parse_request(b"POST /files/f HTTP/1.1\r\nA: 1\r\n\r\nB: 2\r\n").unwrap();
    assert_eq!(request.headers, pairs(&[(b"A", b"1")]));
    assert_eq!(request.remainder, b"B: 2\r\n");
}

#[test]
fn request_with_an_unsupported_method_fails() {
    assert_eq!(
        parse_request(b"DELETE /files/x HTTP/1.1\r\n\r\n"),
        Err(ParseError::UnrecognizedMethod)
    );
}

#[test]
fn request_with_a_malformed_line_fails() {
    assert_eq!(parse_request(b"GET /a b HTTP/1.1\r\n\r\n"), Err(ParseError::MalformedRequestLine));
    assert_eq!(parse_request(b"GET /a"), Err(ParseError::MalformedRequestLine));
}

#[test]
fn request_without_blank_line_fails() {
    assert_eq!(parse_request(b"GET / HTTP/1.1\r\n"), Err(ParseError::UnterminatedHeaders));
    assert_eq!(
        parse_request(b"GET / HTTP/1.1\r\nHost: x\r\n"),
        Err(ParseError::UnterminatedHeaders)
    );
    assert_eq!(
        parse_request(b"GET / HTTP/1.1\r\nHost x\r\n\r\n"),
        Err(ParseError::UnterminatedHeaders)
    );
}

#[test]
fn request_of_nothing_fails() {
    assert_eq!(parse_request(b""), Err(ParseError::UnrecognizedMethod));
    assert_eq!(parse_request(&[0u8; 1024]), Err(ParseError::UnrecognizedMethod));
}

#[test]
fn segments_rebuild_the_path() {
    let paths: [&[u8]; 8] = [
        b"/",
        b"/echo/abc",
        b"/echo/a/b",
        b"/files/test.txt",
        b"//",
        b"/a//b/",
        b"/user-agent",
        b"/a\tb/%20/c?d=e&f#g",
    ];
    for path in paths {
        let mut text: Vec<u8> = b"GET ".to_vec();
        text.extend_from_slice(path);
        text.extend_from_slice(b" HTTP/1.1\r\n\r\n");
        let request = parse_request(&text).unwrap();
        assert_eq!(rebuild_path(&request.path_segments), path);
    }
}

#[test]
fn segments_of_an_empty_path_rebuild_nothing() {
    let request = parse_request(b"GET  HTTP/1.1\r\n\r\n").unwrap();
    assert!(request.path_segments.is_empty());
}
