//! Responses and the response writer.
//!
//! A response goes out as the status line, one line per header in the order
//! given, a blank line, and the body:
//!
//! ```text
//! "HTTP/1.1" SP code SP reason CR LF
//! ( name ": " value CR LF )*
//! CR LF
//! body
//! ```
//!
//! The writer adds no header of its own and changes none.

use crate::decimal::{decimal_digits, lemma_decimal_roundtrip, render_decimal, spec_parse_decimal};
use crate::grammar::SPACE;
use crate::request::vec_pair_views;
use crate::text::{
    append, content_length, content_type, crlf, http_version, lit_content_length,
    lit_content_type, lit_crlf, lit_http_version, lit_reason_created,
    lit_reason_method_not_allowed, lit_reason_not_found, lit_reason_ok, lit_separator,
    reason_created, reason_method_not_allowed, reason_not_found, reason_ok, separator,
};
use vstd::prelude::*;

verus! {

/// The status of a response.
#[derive(Clone, Copy, Debug, PartialEq, Eq, Structural)]
pub enum Status {
    /// 200
    Okay,
    /// 201
    Created,
    /// 404
    NotFound,
    /// 405
    MethodNotAllowed,
}

impl Status {
    /// The status code.
    pub open spec fn spec_code(self) -> nat {
        match self {
            Status::Okay => 200,
            Status::Created => 201,
            Status::NotFound => 404,
            Status::MethodNotAllowed => 405,
        }
    }

    /// The reason phrase.
    pub open spec fn spec_reason(self) -> Seq<u8> {
        match self {
            Status::Okay => lit_reason_ok(),
            Status::Created => lit_reason_created(),
            Status::NotFound => lit_reason_not_found(),
            Status::MethodNotAllowed => lit_reason_method_not_allowed(),
        }
    }

    /// The status code.
    pub fn code(self) -> (r: usize)
        ensures
            r == self.spec_code(),
    {
        match self {
            Status::Okay => 200,
            Status::Created => 201,
            Status::NotFound => 404,
            Status::MethodNotAllowed => 405,
        }
    }

    /// The reason phrase.
    pub fn reason(self) -> (r: Vec<u8>)
        ensures
            r@ == self.spec_reason(),
    {
        match self {
            Status::Okay => vstd::slice::slice_to_vec(reason_ok().as_slice()),
            Status::Created => vstd::slice::slice_to_vec(reason_created().as_slice()),
            Status::NotFound => vstd::slice::slice_to_vec(reason_not_found().as_slice()),
            Status::MethodNotAllowed => vstd::slice::slice_to_vec(
                reason_method_not_allowed().as_slice(),
            ),
        }
    }
}

/// A response: status, headers in the order in which they go out, body.
#[derive(Clone, Debug, PartialEq, Eq)]
pub struct Response {
    pub status: Status,
    pub headers: Vec<(Vec<u8>, Vec<u8>)>,
    pub body: Vec<u8>,
}

/// The mathematical value of a [`Response`].
pub struct ResponseView {
    pub status: Status,
    pub headers: Seq<(Seq<u8>, Seq<u8>)>,
    pub body: Seq<u8>,
}

impl View for Response {
    type V = ResponseView;

    open spec fn view(&self) -> ResponseView {
        ResponseView {
            status: self.status,
            headers: vec_pair_views(self.headers@),
            body: self.body@,
        }
    }
}

/// The status line of a response, with its line ending.
pub open spec fn status_line(status: Status) -> Seq<u8> {
    lit_http_version() + seq![SPACE] + decimal_digits(status.spec_code()) + seq![SPACE]
        + status.spec_reason() + lit_crlf()
}

/// One header line, with its line ending.
pub open spec fn header_line(header: (Seq<u8>, Seq<u8>)) -> Seq<u8> {
    header.0 + lit_separator() + header.1 + lit_crlf()
}

/// The header lines, in order.
pub open spec fn header_lines(headers: Seq<(Seq<u8>, Seq<u8>)>) -> Seq<u8>
    decreases headers.len(),
{
    if headers.len() == 0 {
        Seq::empty()
    } else {
        header_lines(headers.drop_last()) + header_line(headers.last())
    }
}

/// The bytes of a response on the wire.
pub open spec fn spec_serialize(response: ResponseView) -> Seq<u8> {
    status_line(response.status) + header_lines(response.headers) + lit_crlf() + response.body
}

/// A response without headers and without a body.
pub open spec fn spec_empty(status: Status) -> ResponseView {
    ResponseView { status, headers: Seq::empty(), body: Seq::empty() }
}

/// A response that carries `body`, announced by its media type and its
/// exact length.
pub open spec fn spec_with_body(
    status: Status,
    media_type: Seq<u8>,
    body: Seq<u8>,
) -> ResponseView {
    ResponseView {
        status,
        headers: seq![
            (lit_content_type(), media_type),
            (lit_content_length(), decimal_digits(body.len())),
        ],
        body,
    }
}

impl ResponseView {
    /// The framing invariant: every `Content-Length` header spells the
    /// length of the body.
    pub open spec fn framed(self) -> bool {
        forall|i: int|
            0 <= i < self.headers.len() && (#[trigger] self.headers[i]).0 == lit_content_length()
                ==> spec_parse_decimal(self.headers[i].1) == Some(self.body.len())
    }
}

/// Both kinds of response that this library builds keep the framing
/// invariant.
pub proof fn lemma_built_responses_framed(status: Status, media_type: Seq<u8>, body: Seq<u8>)
    ensures
        spec_empty(status).framed(),
        spec_with_body(status, media_type, body).framed(),
{
    lemma_decimal_roundtrip(body.len());
    assert(lit_content_type()[0] != lit_content_length()[8]);
    assert(lit_content_type() != lit_content_length());
}

impl Response {
    /// A response without headers and without a body.
    pub fn empty(status: Status) -> (r: Response)
        ensures
            r@ == spec_empty(status),
            r@.framed(),
    {
        let r = Response { status, headers: Vec::new(), body: Vec::new() };
        assert(r@.headers =~= Seq::empty());
        r
    }

    /// A response that carries `body`, with a `Content-Type` header of
    /// `media_type` and a `Content-Length` header of the body's length.
    pub fn with_body(status: Status, media_type: &[u8], body: Vec<u8>) -> (r: Response)
        ensures
            r@ == spec_with_body(status, media_type@, body@),
            r@.framed(),
    {
        let mut headers: Vec<(Vec<u8>, Vec<u8>)> = Vec::new();
        headers.push(
            (
                vstd::slice::slice_to_vec(content_type().as_slice()),
                vstd::slice::slice_to_vec(media_type),
            ),
        );
        headers.push(
            (vstd::slice::slice_to_vec(content_length().as_slice()), render_decimal(body.len())),
        );
        let r = Response { status, headers, body };
        proof {
            assert(r@.headers =~= spec_with_body(status, media_type@, body@).headers);
            lemma_built_responses_framed(status, media_type@, body@);
        }
        r
    }

    /// Writes the response out: status line, header lines in order, blank
    /// line, body.
    pub fn serialize(&self) -> (r: Vec<u8>)
        ensures
            r@ == spec_serialize(self@),
    {
        let mut out: Vec<u8> = Vec::new();
        append(&mut out, http_version().as_slice());
        out.push(SPACE);
        let code = render_decimal(self.status.code());
        append(&mut out, code.as_slice());
        out.push(SPACE);
        let reason = self.status.reason();
        append(&mut out, reason.as_slice());
        append(&mut out, crlf().as_slice());
        assert(out@ =~= status_line(self.status));
        let mut i: usize = 0;
        while i < self.headers.len()
            invariant
                i <= self.headers.len(),
                out@ == status_line(self.status) + header_lines(self@.headers.take(i as int)),
            decreases self.headers.len() - i,
        {
            let ghost before = out@;
            let ghost head = self@.headers.take(i as int);
            let ghost next = self@.headers.take(i + 1);
            append(&mut out, self.headers[i].0.as_slice());
            append(&mut out, separator().as_slice());
            append(&mut out, self.headers[i].1.as_slice());
            append(&mut out, crlf().as_slice());
            proof {
                assert(next.drop_last() =~= head);
                assert(next.last() == self@.headers[i as int]);
                assert(out@ =~= before + header_line(self@.headers[i as int]));
                assert(out@ =~= status_line(self.status) + header_lines(next));
            }
            i += 1;
        }
        assert(self@.headers.take(i as int) =~= self@.headers);
        append(&mut out, crlf().as_slice());
        append(&mut out, self.body.as_slice());
        assert(out@ =~= spec_serialize(self@));
        out
    }
}

} // verus!
