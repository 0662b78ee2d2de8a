use http_server::request::{parse_request, Method, Request};
use http_server::response::{Response, Status};
use http_server::router::{find_header, join, route, HandlerError, Outcome};

fn request(method: Method, segments: &[&[u8]], headers: &[(&[u8], &[u8])], body: &[u8]) -> Request {
    Request {
        method,
        path_segments: segments.iter().map(|s| s.to_vec()).collect(),
        headers: headers.iter().map(|(n, v)| (n.to_vec(), v.to_vec())).collect(),
        remainder: body.to_vec(),
    }
}

fn text_reply(body: &[u8]) -> Outcome {
    Outcome::Reply(Response::with_body(Status::Okay, b"text/plain", body.to_vec()))
}

fn routed(text: &[u8], serving: bool) -> Outcome {
    route(&parse_request(text).unwrap(), serving)
}

#[test]
fn root_gives_200() {
    assert_eq!(
        routed(b"GET / HTTP/1.1\r\n\r\n", false),
        Outcome::Reply(Response::empty(Status::Okay))
    );
}

#[test]
fn root_gives_200_for_any_method() {
    for method in [Method::Get, Method::Post, Method::Unsupported] {
        assert_eq!(
            route(&request(method, &[b""], &[], b""), true),
            Outcome::Reply(Response::empty(Status::Okay))
        );
    }
}

#[test]
fn echo_gives_the_segment_back() {
    let outcome = routed(b"GET /echo/abc HTTP/1.1\r\n\r\n", false);
    assert_eq!(outcome, text_reply(b"abc"));
    match outcome {
        Outcome::Reply(response) => {
            assert_eq!(response.status, Status::Okay);
            assert_eq!(
                response.headers,
                vec![
                    (b"Content-Type".to_vec(), b"text/plain".to_vec()),
                    (b"Content-Length".to_vec(), b"3".to_vec()),
                ]
            );
            assert_eq!(response.body, b"abc");
        }
        other => panic!("{:?}", other),
    }
}

#[test]
fn echo_joins_the_rest_with_slashes() {
    let outcome = routed(b"GET /echo/a/b HTTP/1.1\r\n\r\n", false);
    match outcome {
        Outcome::Reply(response) => {
            assert_eq!(response.body, b"a/b");
            assert_eq!(response.headers[1], (b"Content-Length".to_vec(), b"3".to_vec()));
        }
        other => panic!("{:?}", other),
    }
}

#[test]
fn echo_of_nothing_is_empty() {
    assert_eq!(routed(b"GET /echo HTTP/1.1\r\n\r\n", false), text_reply(b""));
    assert_eq!(routed(b"GET /echo/ HTTP/1.1\r\n\r\n", false), text_reply(b""));
}

#[test]
fn echo_keeps_empty_segments() {
    assert_eq!(routed(b"GET /echo/a//b/ HTTP/1.1\r\n\r\n", false), text_reply(b"a//b/"));
    assert_eq!(routed(b"GET /echo// HTTP/1.1\r\n\r\n", false), text_reply(b"/"));
}

#[test]
fn echo_answers_any_method() {
    assert_eq!(routed(b"POST /echo/x HTTP/1.1\r\n\r\n", true), text_reply(b"x"));
    let other = request(Method::Unsupported, &[b"echo", b"x"], &[], b"");
    assert_eq!(route(&other, true), text_reply(b"x"));
}

#[test]
fn echo_needs_the_whole_segment() {
    let not_found = Outcome::Reply(Response::empty(Status::NotFound));
    assert_eq!(routed(b"GET /echoes/abc HTTP/1.1\r\n\r\n", false), not_found);
    assert_eq!(routed(b"GET /ech HTTP/1.1\r\n\r\n", false), not_found);
    assert_eq!(routed(b"GET /Echo/abc HTTP/1.1\r\n\r\n", false), not_found);
    assert_eq!(routed(b"GET //echo/abc HTTP/1.1\r\n\r\n", false), not_found);
}

#[test]
fn user_agent_gives_the_header_back() {
    let outcome = routed(b"GET /user-agent HTTP/1.1\r\nUser-Agent: foo/1.0\r\n\r\n", false);
    assert_eq!(outcome, text_reply(b"foo/1.0"));
}

#[test]
fn user_agent_takes_the_first_of_several() {
    let outcome = routed(
        b"GET /user-agent HTTP/1.1\r\nHost: h\r\nUser-Agent: one\r\nUser-Agent: two\r\n\r\n",
        false,
    );
    assert_eq!(outcome, text_reply(b"one"));
}

#[test]
fn user_agent_name_is_case_sensitive() {
    assert_eq!(
        routed(b"GET /user-agent HTTP/1.1\r\nuser-agent: foo\r\n\r\n", false),
        Outcome::Failed(HandlerError::MissingUserAgent)
    );
}

#[test]
fn user_agent_missing_fails() {
    assert_eq!(
        routed(b"GET /user-agent HTTP/1.1\r\nHost: h\r\n\r\n", false),
        Outcome::Failed(HandlerError::MissingUserAgent)
    );
    assert_eq!(
        routed(b"GET /user-agent HTTP/1.1\r\n\r\n", true),
        Outcome::Failed(HandlerError::MissingUserAgent)
    );
}

#[test]
fn user_agent_with_more_segments_is_not_found() {
    assert_eq!(
        routed(b"GET /user-agent/x HTTP/1.1\r\nUser-Agent: foo\r\n\r\n", false),
        Outcome::Reply(Response::empty(Status::NotFound))
    );
}

#[test]
fn get_file_reads_when_serving() {
    assert_eq!(
        routed(b"GET /files/test.txt HTTP/1.1\r\n\r\n", true),
        Outcome::ReadFile { name: b"test.txt".to_vec() }
    );
}

#[test]
fn get_file_is_silent_without_directory() {
    assert_eq!(routed(b"GET /files/test.txt HTTP/1.1\r\n\r\n", false), Outcome::NoReply);
}

#[test]
fn post_file_stores_the_announced_bytes() {
    assert_eq!(
        routed(b"POST /files/new.txt HTTP/1.1\r\nContent-Length: 4\r\n\r\ndata", true),
        Outcome::WriteFile { name: b"new.txt".to_vec(), contents: b"data".to_vec() }
    );
}

#[test]
fn post_file_cuts_the_remainder_to_length() {
    assert_eq!(
        routed(b"POST /files/n HTTP/1.1\r\nContent-Length: 2\r\n\r\ndata", true),
        Outcome::WriteFile { name: b"n".to_vec(), contents: b"da".to_vec() }
    );
    assert_eq!(
        routed(b"POST /files/n HTTP/1.1\r\nContent-Length: 0\r\n\r\ndata", true),
        Outcome::WriteFile { name: b"n".to_vec(), contents: Vec::new() }
    );
}

#[test]
fn post_file_takes_the_first_content_length() {
    assert_eq!(
        routed(
            b"POST /files/n HTTP/1.1\r\nContent-Length: 1\r\nContent-Length: 3\r\n\r\ndata",
            true
        ),
        Outcome::WriteFile { name: b"n".to_vec(), contents: b"d".to_vec() }
    );
}

#[test]
fn post_file_is_silent_without_directory() {
    assert_eq!(
        routed(b"POST /files/new.txt HTTP/1.1\r\nContent-Length: 4\r\n\r\ndata", false),
        Outcome::NoReply
    );
    assert_eq!(routed(b"POST /files/new.txt HTTP/1.1\r\n\r\n", false), Outcome::NoReply);
}

#[test]
fn post_file_without_content_length_fails() {
    assert_eq!(
        routed(b"POST /files/new.txt HTTP/1.1\r\nHost: h\r\n\r\ndata", true),
        Outcome::Failed(HandlerError::MissingContentLength)
    );
    assert_eq!(
        routed(b"POST /files/new.txt HTTP/1.1\r\ncontent-length: 4\r\n\r\ndata", true),
        Outcome::Failed(HandlerError::MissingContentLength)
    );
}

#[test]
fn post_file_with_a_bad_content_length_fails() {
    for value in [&b"four"[..], &b""[..], &b"-4"[..], &b"4 "[..], &b"4.0"[..]] {
        let outcome = route(
            &request(Method::Post, &[b"files", b"n"], &[(b"Content-Length", value)], b"data"),
            true,
        );
        assert_eq!(outcome, Outcome::Failed(HandlerError::InvalidContentLength));
    }
}

#[test]
fn post_file_with_a_short_body_fails() {
    assert_eq!(
        routed(b"POST /files/n HTTP/1.1\r\nContent-Length: 5\r\n\r\ndata", true),
        Outcome::Failed(HandlerError::IncompleteBody)
    );
    assert_eq!(
        routed(
            b"POST /files/n HTTP/1.1\r\nContent-Length: 99999999999999999999999999\r\n\r\ndata",
            true
        ),
        Outcome::Failed(HandlerError::IncompleteBody)
    );
}

#[test]
fn other_method_on_files_gives_405() {
    let outcome = route(&request(Method::Unsupported, &[b"files", b"x"], &[], b""), true);
    assert_eq!(outcome, Outcome::Reply(Response::empty(Status::MethodNotAllowed)));
    let outcome = route(&request(Method::Unsupported, &[b"files", b"x"], &[], b""), false);
    assert_eq!(outcome, Outcome::Reply(Response::empty(Status::MethodNotAllowed)));
}

#[test]
fn files_needs_exactly_one_name() {
    let not_found = Outcome::Reply(Response::empty(Status::NotFound));
    assert_eq!(routed(b"GET /files HTTP/1.1\r\n\r\n", true), not_found);
    assert_eq!(routed(b"GET /files/a/b HTTP/1.1\r\n\r\n", true), not_found);
    assert_eq!(routed(b"POST /files/a/b HTTP/1.1\r\nContent-Length: 0\r\n\r\n", true), not_found);
    assert_eq!(
        route(&request(Method::Unsupported, &[b"files"], &[], b""), true),
        not_found
    );
}

#[test]
fn files_with_an_empty_name_is_a_file_route() {
    assert_eq!(
        routed(b"GET /files/ HTTP/1.1\r\n\r\n", true),
        Outcome::ReadFile { name: Vec::new() }
    );
}

#[test]
fn unknown_path_gives_404() {
    assert_eq!(
        routed(b"GET /unknown HTTP/1.1\r\n\r\n", false),
        Outcome::Reply(Response::empty(Status::NotFound))
    );
}

#[test]
fn unknown_paths_give_404_for_any_method() {
    let not_found = Outcome::Reply(Response::empty(Status::NotFound));
    assert_eq!(routed(b"POST /unknown HTTP/1.1\r\n\r\n", true), not_found);
    assert_eq!(route(&request(Method::Unsupported, &[b"x"], &[], b""), true), not_found);
    assert_eq!(routed(b"GET // HTTP/1.1\r\n\r\n", true), not_found);
    assert_eq!(routed(b"GET /index.html HTTP/1.1\r\n\r\n", true), not_found);
}

#[test]
fn empty_path_gives_404() {
    assert_eq!(
        routed(b"GET  HTTP/1.1\r\n\r\n", false),
        Outcome::Reply(Response::empty(Status::NotFound))
    );
}

#[test]
fn join_puts_slashes_between_segments() {
    let segments: Vec<Vec<u8>> = vec![b"echo".to_vec(), b"a".to_vec(), b"".to_vec(), b"b".to_vec()];
    assert_eq!(join(&segments), b"echo/a//b");
    assert_eq!(join(&segments[1..]), b"a//b");
    assert_eq!(join(&segments[3..]), b"b");
    assert_eq!(join(&segments[4..]), b"");
}

#[test]
fn find_header_gives_the_first_position() {
    let headers: Vec<(Vec<u8>, Vec<u8>)> = vec![
        (b"Host".to_vec(), b"h".to_vec()),
        (b"Accept".to_vec(), b"1".to_vec()),
        (b"Accept".to_vec(), b"2".to_vec()),
    ];
    assert_eq!(find_header(&headers, b"Host"), Some(0));
    assert_eq!(find_header(&headers, b"Accept"), Some(1));
    assert_eq!(find_header(&headers, b"accept"), None);
    assert_eq!(find_header(&headers, b"Acc"), None);
    assert_eq!(find_header(&Vec::new(), b"Host"), None);
}
