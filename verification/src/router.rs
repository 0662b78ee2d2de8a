//! The route table: from a parsed request to what the server does with it.
//!
//! | path segments      | method | outcome                                   |
//! |--------------------|--------|-------------------------------------------|
//! | `[""]`             | any    | 200, no body                              |
//! | `["echo", rest..]` | any    | 200, `text/plain`, the rest joined by `/` |
//! | `["user-agent"]`   | any    | 200, `text/plain`, the `User-Agent` value |
//! | `["files", name]`  | GET    | the file's contents, or 404               |
//! | `["files", name]`  | POST   | the body is stored, then 201              |
//! | `["files", name]`  | other  | 405, no body                              |
//! | anything else      | any    | 404, no body                              |
//!
//! The rows are tried from the top, and the first whose shape fits decides.
//! Segments are compared whole and the count has to fit: no row matches a
//! prefix of a segment.

use crate::decimal::{is_decimal, parse_decimal, spec_parse_decimal};
use crate::files::{first_match, lemma_first_match_absent, lemma_first_match_found};
use crate::grammar::SLASH;
use crate::request::{
    join_segments, vec_pair_views, vec_views, Method, Request, RequestView,
};
use crate::response::{
    lemma_built_responses_framed, spec_empty, spec_with_body, Response, ResponseView, Status,
};
use crate::text::{
    append, bytes_eq, content_length, echo, files, lit_content_length, lit_echo, lit_files,
    lit_text_plain, lit_user_agent, lit_user_agent_route, text_plain, user_agent,
    user_agent_route,
};
use vstd::prelude::*;

verus! {

/// Why a handler gave up. No response goes out in any of these cases.
#[derive(Clone, Copy, Debug, PartialEq, Eq, Structural)]
pub enum HandlerError {
    /// The header reflection route found no `User-Agent` header.
    MissingUserAgent,
    /// A file upload came without a `Content-Length` header.
    MissingContentLength,
    /// The `Content-Length` value is no decimal number.
    InvalidContentLength,
    /// The remainder holds fewer bytes than `Content-Length` announces.
    IncompleteBody,
}

/// What the server does with a request.
#[derive(Clone, Debug, PartialEq, Eq)]
pub enum Outcome {
    /// Send this response.
    Reply(Response),
    /// Look the file up in the serving directory and send its contents.
    ReadFile { name: Vec<u8> },
    /// Store `contents` under `name` in the serving directory.
    WriteFile { name: Vec<u8>, contents: Vec<u8> },
    /// Send nothing.
    NoReply,
    /// Give up without a response.
    Failed(HandlerError),
}

/// The mathematical value of an [`Outcome`].
pub enum OutcomeView {
    Reply(ResponseView),
    ReadFile { name: Seq<u8> },
    WriteFile { name: Seq<u8>, contents: Seq<u8> },
    NoReply,
    Failed(HandlerError),
}

impl View for Outcome {
    type V = OutcomeView;

    open spec fn view(&self) -> OutcomeView {
        match self {
            Outcome::Reply(response) => OutcomeView::Reply(response@),
            Outcome::ReadFile { name } => OutcomeView::ReadFile { name: name@ },
            Outcome::WriteFile { name, contents } => OutcomeView::WriteFile {
                name: name@,
                contents: contents@,
            },
            Outcome::NoReply => OutcomeView::NoReply,
            Outcome::Failed(e) => OutcomeView::Failed(*e),
        }
    }
}

/// The names of a list of headers, in order.
pub open spec fn header_names(headers: Seq<(Seq<u8>, Seq<u8>)>) -> Seq<Seq<u8>> {
    Seq::new(headers.len(), |i: int| headers[i].0)
}

/// The value of the first header whose name is exactly `name`.
pub open spec fn header_value(headers: Seq<(Seq<u8>, Seq<u8>)>, name: Seq<u8>) -> Option<Seq<u8>> {
    match first_match(header_names(headers), name) {
        Some(i) => Some(headers[i].1),
        None => None,
    }
}

/// What a file upload leads to: the first `Content-Length` header decides
/// how many bytes of the remainder are the file's contents.
pub open spec fn spec_upload(request: RequestView) -> OutcomeView {
    match header_value(request.headers, lit_content_length()) {
        None => OutcomeView::Failed(HandlerError::MissingContentLength),
        Some(text) => match spec_parse_decimal(text) {
            None => OutcomeView::Failed(HandlerError::InvalidContentLength),
            Some(n) => if n <= request.remainder.len() {
                OutcomeView::WriteFile {
                    name: request.path_segments[1],
                    contents: request.remainder.take(n as int),
                }
            } else {
                OutcomeView::Failed(HandlerError::IncompleteBody)
            },
        },
    }
}

/// The route table. `serving` says whether a directory to serve files from
/// is configured.
pub open spec fn spec_route(request: RequestView, serving: bool) -> OutcomeView {
    let segments = request.path_segments;
    if segments.len() == 1 && segments[0].len() == 0 {
        OutcomeView::Reply(spec_empty(Status::Okay))
    } else if segments.len() >= 1 && segments[0] == lit_echo() {
        OutcomeView::Reply(
            spec_with_body(Status::Okay, lit_text_plain(), join_segments(segments.skip(1))),
        )
    } else if segments.len() == 1 && segments[0] == lit_user_agent_route() {
        match header_value(request.headers, lit_user_agent()) {
            Some(value) => OutcomeView::Reply(
                spec_with_body(Status::Okay, lit_text_plain(), value),
            ),
            None => OutcomeView::Failed(HandlerError::MissingUserAgent),
        }
    } else if segments.len() == 2 && segments[0] == lit_files() {
        match request.method {
            Method::Get => if serving {
                OutcomeView::ReadFile { name: segments[1] }
            } else {
                OutcomeView::NoReply
            },
            Method::Post => if serving {
                spec_upload(request)
            } else {
                OutcomeView::NoReply
            },
            Method::Unsupported => OutcomeView::Reply(spec_empty(Status::MethodNotAllowed)),
        }
    } else {
        OutcomeView::Reply(spec_empty(Status::NotFound))
    }
}

/// Joining one more segment appends it, behind a `/` unless it is the
/// first.
pub proof fn lemma_join_push(segments: Seq<Seq<u8>>, last: Seq<u8>)
    ensures
        join_segments(segments.push(last)) == if segments.len() == 0 {
            last
        } else {
            join_segments(segments) + seq![SLASH] + last
        },
    decreases segments.len(),
{
    let all = segments.push(last);
    if segments.len() == 0 {
    } else {
        let tail = segments.skip(1);
        assert(all.skip(1) =~= tail.push(last));
        lemma_join_push(tail, last);
        if tail.len() == 0 {
            assert(join_segments(all) =~= segments[0] + seq![SLASH] + last);
        } else {
            assert(join_segments(all) =~= segments[0] + seq![SLASH] + (join_segments(tail)
                + seq![SLASH] + last));
            assert(join_segments(all) =~= join_segments(segments) + seq![SLASH] + last);
        }
    }
}

/// Joins the segments with `/` between them.
pub fn join(segments: &[Vec<u8>]) -> (r: Vec<u8>)
    ensures
        r@ == join_segments(vec_views(segments@)),
{
    let ghost all = vec_views(segments@);
    let mut out: Vec<u8> = Vec::new();
    let mut i: usize = 0;
    assert(all.take(0) =~= Seq::<Seq<u8>>::empty());
    while i < segments.len()
        invariant
            i <= segments.len(),
            all == vec_views(segments@),
            out@ == join_segments(all.take(i as int)),
        decreases segments.len() - i,
    {
        proof {
            lemma_join_push(all.take(i as int), segments@[i as int]@);
            assert(all.take(i + 1) =~= all.take(i as int).push(segments@[i as int]@));
        }
        if i > 0 {
            out.push(SLASH);
        }
        append(&mut out, segments[i].as_slice());
        i += 1;
    }
    assert(all.take(i as int) =~= all);
    out
}

/// Finds the first header whose name is exactly `name`.
pub fn find_header(headers: &Vec<(Vec<u8>, Vec<u8>)>, name: &[u8]) -> (r: Option<usize>)
    ensures
        match first_match(header_names(vec_pair_views(headers@)), name@) {
            Some(i) => r == Some(i as usize) && i < headers.len(),
            None => r is None,
        },
{
    let ghost names = header_names(vec_pair_views(headers@));
    let mut i: usize = 0;
    while i < headers.len()
        invariant
            i <= headers.len(),
            names == header_names(vec_pair_views(headers@)),
            forall|j: int| 0 <= j < i ==> #[trigger] names[j] != name@,
        decreases headers.len() - i,
    {
        if bytes_eq(headers[i].0.as_slice(), name) {
            proof {
                lemma_first_match_found(names, name@, i as int);
            }
            return Some(i);
        }
        i += 1;
    }
    proof {
        lemma_first_match_absent(names, name@);
    }
    None
}

/// Copies the first `n` bytes of `bytes`.
fn copy_prefix(bytes: &Vec<u8>, n: usize) -> (r: Vec<u8>)
    requires
        n <= bytes.len(),
    ensures
        r@ == bytes@.take(n as int),
{
    let part = vstd::slice::slice_subrange(bytes.as_slice(), 0, n);
    vstd::slice::slice_to_vec(part)
}

/// Handles a file upload: takes as many bytes of the remainder as the first
/// `Content-Length` header announces.
fn upload(request: &Request) -> (r: Outcome)
    requires
        request.path_segments.len() == 2,
    ensures
        r@ == spec_upload(request@),
{
    match find_header(&request.headers, content_length().as_slice()) {
        None => Outcome::Failed(HandlerError::MissingContentLength),
        Some(i) => {
            let text = request.headers[i].1.as_slice();
            let available = request.remainder.len();
            assert(header_value(request@.headers, lit_content_length()) == Some(text@));
            assert(request@.path_segments[1] == request.path_segments@[1]@);
            match parse_decimal(text) {
                Some(n) => {
                    if n <= available {
                        Outcome::WriteFile {
                            name: request.path_segments[1].clone(),
                            contents: copy_prefix(&request.remainder, n),
                        }
                    } else {
                        Outcome::Failed(HandlerError::IncompleteBody)
                    }
                },
                None => {
                    if is_decimal(text) {
                        // A number that no `usize` holds is larger than any remainder.
                        assert(spec_parse_decimal(text@)->Some_0 > available);
                        Outcome::Failed(HandlerError::IncompleteBody)
                    } else {
                        Outcome::Failed(HandlerError::InvalidContentLength)
                    }
                },
            }
        },
    }
}

/// Applies the route table to a request. `serving` says whether a directory
/// to serve files from is configured.
pub fn route(request: &Request, serving: bool) -> (r: Outcome)
    ensures
        r@ == spec_route(request@, serving),
{
    let segments = &request.path_segments;
    let count = segments.len();
    if count == 1 && segments[0].len() == 0 {
        Outcome::Reply(Response::empty(Status::Okay))
    } else if count >= 1 && bytes_eq(segments[0].as_slice(), echo().as_slice()) {
        let rest = vstd::slice::slice_subrange(segments.as_slice(), 1, count);
        assert(vec_views(rest@) =~= request@.path_segments.skip(1));
        let body = join(rest);
        Outcome::Reply(Response::with_body(Status::Okay, text_plain().as_slice(), body))
    } else if count == 1 && bytes_eq(segments[0].as_slice(), user_agent_route().as_slice()) {
        match find_header(&request.headers, user_agent().as_slice()) {
            Some(i) => Outcome::Reply(
                Response::with_body(
                    Status::Okay,
                    text_plain().as_slice(),
                    request.headers[i].1.clone(),
                ),
            ),
            None => Outcome::Failed(HandlerError::MissingUserAgent),
        }
    } else if count == 2 && bytes_eq(segments[0].as_slice(), files().as_slice()) {
        match request.method {
            Method::Get => {
                if serving {
                    Outcome::ReadFile { name: segments[1].clone() }
                } else {
                    Outcome::NoReply
                }
            },
            Method::Post => {
                if serving {
                    upload(request)
                } else {
                    Outcome::NoReply
                }
            },
            Method::Unsupported => Outcome::Reply(Response::empty(Status::MethodNotAllowed)),
        }
    } else {
        Outcome::Reply(Response::empty(Status::NotFound))
    }
}

/// Every response that the route table gives keeps the framing invariant:
/// its `Content-Length` header, where it has one, spells the length of its
/// body.
pub proof fn lemma_replies_are_framed(request: RequestView, serving: bool)
    ensures
        spec_route(request, serving) matches OutcomeView::Reply(response) ==> response.framed(),
{
    match spec_route(request, serving) {
        OutcomeView::Reply(response) => {
            lemma_built_responses_framed(
                response.status,
                lit_text_plain(),
                response.body,
            );
        },
        _ => {},
    }
}

/// The echo route looks at the path alone: two requests with the same path
/// segments, the first of them `echo`, get the same response, whatever
/// their methods, headers and remainders are and whether or not files are
/// served. That response carries the other segments joined with `/`.
pub proof fn lemma_echo_looks_at_the_path_alone(
    a: RequestView,
    serving_a: bool,
    b: RequestView,
    serving_b: bool,
)
    requires
        a.path_segments.len() >= 1,
        a.path_segments[0] == lit_echo(),
        b.path_segments == a.path_segments,
    ensures
        spec_route(a, serving_a) == spec_route(b, serving_b),
        spec_route(a, serving_a) == OutcomeView::Reply(
            spec_with_body(Status::Okay, lit_text_plain(), join_segments(a.path_segments.skip(1))),
        ),
{
    assert(lit_echo().len() == 4);
}

} // verus!
