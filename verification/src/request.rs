//! The request grammar: request line, header block and body remainder.
//!
//! ```text
//! request      = request-line header* [ blank ] rest
//! request-line = method path-segments " HTTP/1.1" CR LF
//! method       = "GET " | "POST "
//! path-segments= ( "/" segment )*          ; segment: bytes up to "/" or " "
//! header       = name ": " value eol+      ; name: bytes up to ":", CR or LF
//!                                          ; value: bytes up to CR or LF
//! blank        = eol+
//! eol          = LF | CR LF
//! ```
//!
//! Every repetition is greedy. A header takes every line ending that
//! directly follows its value; where it takes more than one, a blank line
//! followed it, and the header block ends there. The blank line stands on
//! its own only where no header has taken it. A request without a blank
//! line behind its header lines is rejected. What comes after the blank
//! line is the remainder: the parser does not frame the body.

use crate::grammar::{
    after_line_endings, eol_len, lemma_after_line_endings, lemma_run_len, match_line_ending,
    match_literal, pair_views, run_len, skip_line_endings, slice_views, take_run, StopSet, SLASH,
};
use crate::text::{get, lit_get, lit_post, lit_protocol, lit_separator, post, protocol, separator};
use vstd::prelude::*;

verus! {

/// The request method.
#[derive(Clone, Copy, Debug, PartialEq, Eq, Structural)]
pub enum Method {
    Get,
    Post,
    /// Any other method. The parser never yields it: it rejects such a
    /// request. The route table still answers it.
    Unsupported,
}

/// Why a request could not be parsed.
#[derive(Clone, Copy, Debug, PartialEq, Eq, Structural)]
pub enum ParseError {
    /// The input starts with neither `"GET "` nor `"POST "`.
    UnrecognizedMethod,
    /// The path segments are not followed by `" HTTP/1.1"`, CR, LF.
    MalformedRequestLine,
    /// The header lines are not followed by a blank line: a line is
    /// malformed, or the input ends too early.
    UnterminatedHeaders,
}

/// A parsed request, holding copies of the bytes it was parsed from.
#[derive(Clone, Debug, PartialEq, Eq)]
pub struct Request {
    pub method: Method,
    /// The text between consecutive `/` of the path, in order.
    pub path_segments: Vec<Vec<u8>>,
    /// The header lines as (name, value), in order, as received.
    pub headers: Vec<(Vec<u8>, Vec<u8>)>,
    /// The bytes behind the header block.
    pub remainder: Vec<u8>,
}

/// The mathematical value of a [`Request`].
pub struct RequestView {
    pub method: Method,
    pub path_segments: Seq<Seq<u8>>,
    pub headers: Seq<(Seq<u8>, Seq<u8>)>,
    pub remainder: Seq<u8>,
}

/// The views of a sequence of byte vectors.
pub open spec fn vec_views(v: Seq<Vec<u8>>) -> Seq<Seq<u8>> {
    Seq::new(v.len(), |i: int| v[i]@)
}

/// The views of a sequence of pairs of byte vectors.
pub open spec fn vec_pair_views(v: Seq<(Vec<u8>, Vec<u8>)>) -> Seq<(Seq<u8>, Seq<u8>)> {
    Seq::new(v.len(), |i: int| (v[i].0@, v[i].1@))
}

impl View for Request {
    type V = RequestView;

    open spec fn view(&self) -> RequestView {
        RequestView {
            method: self.method,
            path_segments: vec_views(self.path_segments@),
            headers: vec_pair_views(self.headers@),
            remainder: self.remainder@,
        }
    }
}

/// The method literal at the head of `s`: what follows it and the method.
pub open spec fn spec_request_type(s: Seq<u8>) -> Option<(Seq<u8>, Method)> {
    if lit_get().is_prefix_of(s) {
        Some((s.skip(4), Method::Get))
    } else if lit_post().is_prefix_of(s) {
        Some((s.skip(5), Method::Post))
    } else {
        None
    }
}

/// One path segment at the head of `s`: a `/`, then the bytes up to the
/// next `/` or space. Gives what follows the segment and the segment
/// without its `/`.
pub open spec fn spec_path_segment(s: Seq<u8>) -> Option<(Seq<u8>, Seq<u8>)> {
    if s.len() > 0 && s[0] == SLASH {
        let body = s.skip(1);
        let n = run_len(StopSet::SegmentEnd, body);
        Some((body.skip(n), body.take(n)))
    } else {
        None
    }
}

/// All the path segments at the head of `s`: what follows them, and the
/// segments in order.
pub open spec fn spec_path_segments(s: Seq<u8>) -> (Seq<u8>, Seq<Seq<u8>>)
    decreases s.len(),
{
    match spec_path_segment(s) {
        Some((rest, segment)) => {
            proof {
                lemma_run_len(StopSet::SegmentEnd, s.skip(1));
            }
            let (end, more) = spec_path_segments(rest);
            (end, seq![segment] + more)
        },
        None => (s, Seq::empty()),
    }
}

/// The request line at the head of `s`: what follows it, the method and the
/// path segments.
pub open spec fn spec_status_line(s: Seq<u8>) -> Result<
    (Seq<u8>, (Method, Seq<Seq<u8>>)),
    ParseError,
> {
    match spec_request_type(s) {
        None => Err(ParseError::UnrecognizedMethod),
        Some((after_method, method)) => {
            let (after_path, segments) = spec_path_segments(after_method);
            if lit_protocol().is_prefix_of(after_path) {
                Ok((after_path.skip(11), (method, segments)))
            } else {
                Err(ParseError::MalformedRequestLine)
            }
        },
    }
}

/// The text of a header at the head of `s`: the name up to `:`, the
/// separator, and the value up to the end of the line. Gives what follows
/// the value, and the name and the value.
pub open spec fn spec_header_text(s: Seq<u8>) -> Option<(Seq<u8>, (Seq<u8>, Seq<u8>))> {
    let n = run_len(StopSet::NameEnd, s);
    let after_name = s.skip(n);
    if lit_separator().is_prefix_of(after_name) {
        let t = after_name.skip(2);
        let m = run_len(StopSet::LineEnd, t);
        Some((t.skip(m), (s.take(n), t.take(m))))
    } else {
        None
    }
}

/// One header at the head of `s`: its text and every line ending that
/// directly follows, of which there is at least one. Gives what follows
/// them, and the name and the value.
pub open spec fn spec_header(s: Seq<u8>) -> Option<(Seq<u8>, (Seq<u8>, Seq<u8>))> {
    match spec_header_text(s) {
        Some((after_value, header)) => if eol_len(after_value) > 0 {
            Some((after_line_endings(after_value), header))
        } else {
            None
        },
        None => None,
    }
}

/// Whether the header at the head of `s` is followed by a blank line: more
/// than one line ending stands behind its value.
pub open spec fn header_ends_block(s: Seq<u8>) -> bool {
    match spec_header_text(s) {
        Some((after_value, _)) => eol_len(after_value) > 0 && eol_len(
            after_value.skip(eol_len(after_value)),
        ) > 0,
        None => false,
    }
}

/// A header consumes at least its separator and a line ending.
pub proof fn lemma_header_consumes(s: Seq<u8>)
    ensures
        spec_header(s) matches Some((rest, _)) ==> rest.len() + 3 <= s.len(),
{
    lemma_run_len(StopSet::NameEnd, s);
    let t = s.skip(run_len(StopSet::NameEnd, s)).skip(2);
    lemma_run_len(StopSet::LineEnd, t);
    lemma_after_line_endings(t.skip(run_len(StopSet::LineEnd, t)));
}

/// The headers at the head of `s`, up to the first that is followed by a
/// blank line, or to where no header follows: what follows them, the names
/// and values in order, and whether a blank line ended them.
pub open spec fn spec_header_block(s: Seq<u8>) -> (Seq<u8>, Seq<(Seq<u8>, Seq<u8>)>, bool)
    decreases s.len(),
{
    match spec_header(s) {
        Some((rest, header)) => {
            if header_ends_block(s) {
                (rest, seq![header], true)
            } else {
                proof {
                    lemma_header_consumes(s);
                }
                let (end, more, closed) = spec_header_block(rest);
                (end, seq![header] + more, closed)
            }
        },
        None => (s, Seq::empty(), false),
    }
}

/// The headers at the head of `s`: what follows them, and their names and
/// values in order. Where no header stands at the head of `s`, nothing is
/// consumed.
pub open spec fn spec_headers(s: Seq<u8>) -> (Seq<u8>, Seq<(Seq<u8>, Seq<u8>)>) {
    (spec_header_block(s).0, spec_header_block(s).1)
}

/// The header section at the head of `s`: the headers and the blank line
/// behind them, which stands on its own where no header has taken it.
/// Gives what follows the blank line, and the headers.
pub open spec fn spec_header_section(s: Seq<u8>) -> Option<(Seq<u8>, Seq<(Seq<u8>, Seq<u8>)>)> {
    let (rest, headers, closed) = spec_header_block(s);
    if closed {
        Some((rest, headers))
    } else if eol_len(rest) > 0 {
        Some((after_line_endings(rest), headers))
    } else {
        None
    }
}

/// Request line and header section at the head of `s`.
pub open spec fn spec_request_head(s: Seq<u8>) -> Result<
    (Seq<u8>, ((Method, Seq<Seq<u8>>), Seq<(Seq<u8>, Seq<u8>)>)),
    ParseError,
> {
    match spec_status_line(s) {
        Err(e) => Err(e),
        Ok((after_line, line)) => match spec_header_section(after_line) {
            None => Err(ParseError::UnterminatedHeaders),
            Some((rest, headers)) => Ok((rest, (line, headers))),
        },
    }
}

/// The request that `s` holds.
pub open spec fn spec_request(s: Seq<u8>) -> Result<RequestView, ParseError> {
    match spec_request_head(s) {
        Err(e) => Err(e),
        Ok((rest, ((method, path_segments), headers))) => Ok(
            RequestView { method, path_segments, headers, remainder: rest },
        ),
    }
}

/// Recognises the method: the literal `"GET "` or `"POST "` at the head of
/// `input`. Returns what follows the literal and the method.
pub fn parse_request_type<'a>(input: &'a [u8]) -> (r: Result<(&'a [u8], Method), ParseError>)
    ensures
        match spec_request_type(input@) {
            Some((rest, method)) => r matches Ok((got, m)) && got@ == rest && m == method,
            None => r == Err::<(&[u8], Method), ParseError>(ParseError::UnrecognizedMethod),
        },
{
    match match_literal(get().as_slice(), input) {
        Some(rest) => Ok((rest, Method::Get)),
        None => match match_literal(post().as_slice(), input) {
            Some(rest) => Ok((rest, Method::Post)),
            None => Err(ParseError::UnrecognizedMethod),
        },
    }
}

/// Parses one path segment: a `/`, then the bytes up to the next `/` or
/// space. Returns what follows the segment and the segment without its `/`,
/// or `None` when `input` does not start with `/`.
pub fn parse_path_segment<'a>(input: &'a [u8]) -> (r: Option<(&'a [u8], &'a [u8])>)
    ensures
        match spec_path_segment(input@) {
            Some((rest, segment)) => r matches Some((got, seg)) && got@ == rest && seg@
                == segment,
            None => r is None,
        },
{
    let slash: [u8; 1] = [SLASH];
    assert(slash@ =~= seq![SLASH]);
    match match_literal(slash.as_slice(), input) {
        Some(body) => {
            let (rest, segment) = take_run(StopSet::SegmentEnd, body);
            Some((rest, segment))
        },
        None => None,
    }
}

/// Parses path segments until none follows. Returns what follows the last
/// one and the segments in order.
pub fn parse_path_segments<'a>(input: &'a [u8]) -> (r: (&'a [u8], Vec<&'a [u8]>))
    ensures
        r.0@ == spec_path_segments(input@).0,
        slice_views(r.1@) == spec_path_segments(input@).1,
{
    let mut cur: &'a [u8] = input;
    let mut segments: Vec<&'a [u8]> = Vec::new();
    assert(slice_views(segments@) + spec_path_segments(cur@).1 =~= spec_path_segments(input@).1);
    loop
        invariant
            spec_path_segments(input@).0 == spec_path_segments(cur@).0,
            spec_path_segments(input@).1 == slice_views(segments@) + spec_path_segments(cur@).1,
        ensures
            cur@ == spec_path_segments(input@).0,
            slice_views(segments@) == spec_path_segments(input@).1,
        decreases cur@.len(),
    {
        match parse_path_segment(cur) {
            Some((rest, segment)) => {
                proof {
                    lemma_run_len(StopSet::SegmentEnd, cur@.skip(1));
                    assert(slice_views(segments@.push(segment)) =~= slice_views(segments@)
                        + seq![segment@]);
                    assert((slice_views(segments@) + seq![segment@]) + spec_path_segments(rest@).1
                        =~= slice_views(segments@) + (seq![segment@] + spec_path_segments(
                        rest@,
                    ).1));
                }
                segments.push(segment);
                cur = rest;
            },
            None => {
                assert(slice_views(segments@) + Seq::<Seq<u8>>::empty() =~= slice_views(
                    segments@,
                ));
                break ;
            },
        }
    }
    (cur, segments)
}

/// Parses the request line: method, path segments, and the literal
/// `" HTTP/1.1"`, CR, LF. Returns what follows the line, the method and the
/// segments.
pub fn parse_status_line<'a>(input: &'a [u8]) -> (r: Result<
    (&'a [u8], (Method, Vec<&'a [u8]>)),
    ParseError,
>)
    ensures
        match spec_status_line(input@) {
            Ok((rest, (method, segments))) => r matches Ok((got, (m, segs))) && got@ == rest && m
                == method && slice_views(segs@) == segments,
            Err(e) => r matches Err(got) && got == e,
        },
{
    let (after_method, method) = match parse_request_type(input) {
        Ok(found) => found,
        Err(e) => {
            return Err(e);
        },
    };
    let (after_path, segments) = parse_path_segments(after_method);
    match match_literal(protocol().as_slice(), after_path) {
        Some(rest) => Ok((rest, (method, segments))),
        None => Err(ParseError::MalformedRequestLine),
    }
}

/// Parses one header and says whether a blank line followed it.
fn parse_header_and_end<'a>(input: &'a [u8]) -> (r: Option<
    (&'a [u8], (&'a [u8], &'a [u8]), bool),
>)
    ensures
        match spec_header(input@) {
            Some((rest, (name, value))) => r matches Some((got, (n, v), closed)) && got@ == rest
                && n@ == name && v@ == value && closed == header_ends_block(input@),
            None => r is None,
        },
{
    let (after_name, name) = take_run(StopSet::NameEnd, input);
    match match_literal(separator().as_slice(), after_name) {
        Some(after_separator) => {
            let (after_value, value) = take_run(StopSet::LineEnd, after_separator);
            match match_line_ending(after_value) {
                Some(after_first) => {
                    let closed = match_line_ending(after_first).is_some();
                    let rest = skip_line_endings(after_first);
                    Some((rest, (name, value), closed))
                },
                None => None,
            }
        },
        None => None,
    }
}

/// Parses one header: the name up to `:`, the literal `": "`, the value up
/// to the end of the line, and every line ending that directly follows, of
/// which there has to be one. Returns what follows them, and the name and
/// the value; `None` when `input` does not start with a header.
pub fn parse_header<'a>(input: &'a [u8]) -> (r: Option<(&'a [u8], (&'a [u8], &'a [u8]))>)
    ensures
        match spec_header(input@) {
            Some((rest, (name, value))) => r matches Some((got, (n, v))) && got@ == rest && n@
                == name && v@ == value,
            None => r is None,
        },
        r matches Some((got, _)) ==> eol_len(got@) == 0,
{
    proof {
        match spec_header_text(input@) {
            Some((after_value, _)) => {
                lemma_after_line_endings(after_value);
            },
            None => {},
        }
    }
    match parse_header_and_end(input) {
        Some((rest, header, _)) => Some((rest, header)),
        None => None,
    }
}

/// Parses headers until none follows or a blank line has followed one.
/// Returns what follows them, the headers in order, and whether a blank
/// line ended them.
pub fn parse_header_block<'a>(input: &'a [u8]) -> (r: (
    &'a [u8],
    Vec<(&'a [u8], &'a [u8])>,
    bool,
))
    ensures
        r.0@ == spec_header_block(input@).0,
        pair_views(r.1@) == spec_header_block(input@).1,
        r.2 == spec_header_block(input@).2,
{
    let mut cur: &'a [u8] = input;
    let mut headers: Vec<(&'a [u8], &'a [u8])> = Vec::new();
    let mut closed = false;
    assert(pair_views(headers@) + spec_header_block(cur@).1 =~= spec_header_block(input@).1);
    while !closed
        invariant
            !closed ==> spec_header_block(input@).0 == spec_header_block(cur@).0,
            !closed ==> spec_header_block(input@).1 == pair_views(headers@) + spec_header_block(
                cur@,
            ).1,
            !closed ==> spec_header_block(input@).2 == spec_header_block(cur@).2,
            closed ==> cur@ == spec_header_block(input@).0,
            closed ==> pair_views(headers@) == spec_header_block(input@).1,
            closed ==> spec_header_block(input@).2,
        ensures
            cur@ == spec_header_block(input@).0,
            pair_views(headers@) == spec_header_block(input@).1,
            closed == spec_header_block(input@).2,
        decreases cur@.len(),
    {
        match parse_header_and_end(cur) {
            Some((rest, header, ends)) => {
                proof {
                    lemma_header_consumes(cur@);
                    let h = (header.0@, header.1@);
                    assert(pair_views(headers@.push(header)) =~= pair_views(headers@) + seq![h]);
                    if !ends {
                        assert((pair_views(headers@) + seq![h]) + spec_header_block(rest@).1
                            =~= pair_views(headers@) + (seq![h] + spec_header_block(rest@).1));
                    }
                }
                headers.push(header);
                cur = rest;
                closed = ends;
            },
            None => {
                assert(pair_views(headers@) + Seq::<(Seq<u8>, Seq<u8>)>::empty() =~= pair_views(
                    headers@,
                ));
                break ;
            },
        }
    }
    (cur, headers, closed)
}

/// Parses the headers: zero or more, up to the first that a blank line
/// follows. Never fails. Returns what follows them, and the headers in
/// order; where no header stands at the head of `input`, nothing is
/// consumed.
pub fn parse_headers<'a>(input: &'a [u8]) -> (r: Result<
    (&'a [u8], Vec<(&'a [u8], &'a [u8])>),
    ParseError,
>)
    ensures
        r matches Ok((got, hs)) && got@ == spec_headers(input@).0 && pair_views(hs@)
            == spec_headers(input@).1,
        r matches Ok((got, hs)) ==> {
            &&& got@.len() <= input@.len()
            &&& got@ == input@.skip(input@.len() - got@.len())
            &&& hs@.len() == 0 <==> spec_header(input@) is None
            &&& hs@.len() == 0 ==> got@ == input@
            &&& hs@.len() > 0 ==> (hs@[0].0@, hs@[0].1@) == spec_header(input@)->Some_0.1
        },
{
    proof {
        crate::roundtrip::lemma_headers_shape(input@);
    }
    let (rest, headers, _) = parse_header_block(input);
    assert(headers@.len() > 0 ==> pair_views(headers@)[0] == (headers@[0].0@, headers@[0].1@));
    Ok((rest, headers))
}

/// Parses the header section: the headers and the blank line behind them.
/// The blank line is taken here only where no header has taken it. Returns
/// what follows the blank line, and the headers in order.
pub fn parse_header_section<'a>(input: &'a [u8]) -> (r: Result<
    (&'a [u8], Vec<(&'a [u8], &'a [u8])>),
    ParseError,
>)
    ensures
        match spec_header_section(input@) {
            Some((rest, headers)) => r matches Ok((got, hs)) && got@ == rest && pair_views(hs@)
                == headers,
            None => r matches Err(e) && e == ParseError::UnterminatedHeaders,
        },
{
    let (rest, headers, closed) = parse_header_block(input);
    if closed {
        Ok((rest, headers))
    } else {
        match match_line_ending(rest) {
            Some(_) => Ok((skip_line_endings(rest), headers)),
            None => Err(ParseError::UnterminatedHeaders),
        }
    }
}

/// Parses the request line and the header section. Returns what follows
/// them (the body remainder), the request line's method and segments, and
/// the headers.
pub fn parse_request_head<'a>(input: &'a [u8]) -> (r: Result<
    (&'a [u8], ((Method, Vec<&'a [u8]>), Vec<(&'a [u8], &'a [u8])>)),
    ParseError,
>)
    ensures
        match spec_request_head(input@) {
            Ok((rest, ((method, segments), headers))) => r matches Ok((got, ((m, segs), hs)))
                && got@ == rest && m == method && slice_views(segs@) == segments && pair_views(
                hs@,
            ) == headers,
            Err(e) => r matches Err(got) && got == e,
        },
{
    let (after_line, line) = match parse_status_line(input) {
        Ok(found) => found,
        Err(e) => {
            return Err(e);
        },
    };
    match parse_header_section(after_line) {
        Ok((rest, headers)) => Ok((rest, (line, headers))),
        Err(e) => Err(e),
    }
}

/// Copies a list of slices into vectors.
fn copy_slices(items: &Vec<&[u8]>) -> (r: Vec<Vec<u8>>)
    ensures
        vec_views(r@) == slice_views(items@),
{
    let mut out: Vec<Vec<u8>> = Vec::new();
    let mut i: usize = 0;
    while i < items.len()
        invariant
            i <= items.len(),
            out.len() == i,
            forall|j: int| 0 <= j < i ==> (#[trigger] out@[j])@ == items@[j]@,
        decreases items.len() - i,
    {
        out.push(vstd::slice::slice_to_vec(items[i]));
        i += 1;
    }
    assert(vec_views(out@) =~= slice_views(items@));
    out
}

/// Copies a list of pairs of slices into pairs of vectors.
fn copy_pairs(items: &Vec<(&[u8], &[u8])>) -> (r: Vec<(Vec<u8>, Vec<u8>)>)
    ensures
        vec_pair_views(r@) == pair_views(items@),
{
    let mut out: Vec<(Vec<u8>, Vec<u8>)> = Vec::new();
    let mut i: usize = 0;
    while i < items.len()
        invariant
            i <= items.len(),
            out.len() == i,
            forall|j: int|
                0 <= j < i ==> (#[trigger] out@[j]).0@ == items@[j].0@ && out@[j].1@
                    == items@[j].1@,
        decreases items.len() - i,
    {
        let name = vstd::slice::slice_to_vec(items[i].0);
        let value = vstd::slice::slice_to_vec(items[i].1);
        out.push((name, value));
        i += 1;
    }
    assert(vec_pair_views(out@) =~= pair_views(items@));
    out
}

/// Parses one request from the bytes of a single read.
///
/// Succeeds exactly on the inputs that the grammar at the head of this file
/// derives; the bytes behind the header block become the remainder, whatever
/// they are.
pub fn parse_request(input: &[u8]) -> (r: Result<Request, ParseError>)
    ensures
        match spec_request(input@) {
            Ok(request) => r matches Ok(got) && got@ == request,
            Err(e) => r matches Err(got) && got == e,
        },
        r matches Ok(got) ==> got@.well_formed(),
{
    proof {
        if spec_request(input@) is Ok {
            crate::roundtrip::lemma_parsed_request_is_well_formed(input@);
        }
    }
    match parse_request_head(input) {
        Ok((rest, ((method, segments), headers))) => Ok(
            Request {
                method,
                path_segments: copy_slices(&segments),
                headers: copy_pairs(&headers),
                remainder: vstd::slice::slice_to_vec(rest),
            },
        ),
        Err(e) => Err(e),
    }
}

/// The segments joined with `/` between them.
pub open spec fn join_segments(segments: Seq<Seq<u8>>) -> Seq<u8>
    decreases segments.len(),
{
    if segments.len() == 0 {
        Seq::empty()
    } else if segments.len() == 1 {
        segments[0]
    } else {
        segments[0] + seq![SLASH] + join_segments(segments.skip(1))
    }
}

/// The path that the segments spell: each segment behind a `/` of its own.
pub open spec fn path_of(segments: Seq<Seq<u8>>) -> Seq<u8>
    decreases segments.len(),
{
    if segments.len() == 0 {
        Seq::empty()
    } else {
        seq![SLASH] + segments[0] + path_of(segments.skip(1))
    }
}

/// The literal that stands for a method in a request line.
pub open spec fn method_literal(method: Method) -> Seq<u8> {
    match method {
        Method::Get => lit_get(),
        Method::Post => lit_post(),
        Method::Unsupported => Seq::empty(),
    }
}

/// Whether a segment is free of `/` and of spaces.
pub open spec fn is_segment(segment: Seq<u8>) -> bool {
    forall|j: int| 0 <= j < segment.len() ==> !StopSet::SegmentEnd.holds(#[trigger] segment[j])
}

/// Whether `name` can stand as a header name: it holds no `:` and no line
/// break.
pub open spec fn is_name(name: Seq<u8>) -> bool {
    forall|j: int| 0 <= j < name.len() ==> !StopSet::NameEnd.holds(#[trigger] name[j])
}

/// Whether `value` can stand as a header value: it holds no line break.
pub open spec fn is_value(value: Seq<u8>) -> bool {
    forall|j: int| 0 <= j < value.len() ==> !StopSet::LineEnd.holds(#[trigger] value[j])
}

/// Whether every pair is a header name with a header value.
pub open spec fn are_headers(headers: Seq<(Seq<u8>, Seq<u8>)>) -> bool {
    forall|i: int|
        0 <= i < headers.len() ==> is_name((#[trigger] headers[i]).0) && is_value(headers[i].1)
}

/// Whether every item is a path segment.
pub open spec fn are_segments(segments: Seq<Seq<u8>>) -> bool {
    forall|i: int| 0 <= i < segments.len() ==> is_segment(#[trigger] segments[i])
}

impl RequestView {
    /// Whether the request is one that the grammar can yield: no segment
    /// holds a `/` or a space, no header name a `:` or a line break, and no
    /// header value a line break.
    pub open spec fn well_formed(self) -> bool {
        are_segments(self.path_segments) && are_headers(self.headers)
    }
}

/// The path of one or more segments is a `/` followed by the segments
/// joined with `/`.
pub proof fn lemma_path_is_joined(segments: Seq<Seq<u8>>)
    requires
        segments.len() > 0,
    ensures
        path_of(segments) == seq![SLASH] + join_segments(segments),
    decreases segments.len(),
{
    let tail = segments.skip(1);
    if segments.len() == 1 {
        assert(path_of(tail) =~= Seq::<u8>::empty());
        assert(path_of(segments) =~= seq![SLASH] + segments[0]);
    } else {
        lemma_path_is_joined(tail);
        assert(path_of(segments) =~= seq![SLASH] + (segments[0] + seq![SLASH] + join_segments(
            tail,
        )));
    }
}

/// What the segment parser yields spells the bytes it consumed: the input
/// is the path of the segments followed by the rest. No segment holds a `/`
/// or a space, and the rest does not start with `/`.
pub proof fn lemma_segments_spell_input(s: Seq<u8>)
    ensures
        s == path_of(spec_path_segments(s).1) + spec_path_segments(s).0,
        forall|i: int|
            0 <= i < spec_path_segments(s).1.len() ==> is_segment(
                #[trigger] spec_path_segments(s).1[i],
            ),
        spec_path_segments(s).0.len() > 0 ==> spec_path_segments(s).0[0] != SLASH,
    decreases s.len(),
{
    match spec_path_segment(s) {
        Some((rest, segment)) => {
            let body = s.skip(1);
            lemma_run_len(StopSet::SegmentEnd, body);
            lemma_segments_spell_input(rest);
            let (end, more) = spec_path_segments(rest);
            let all = seq![segment] + more;
            assert(all.skip(1) =~= more);
            assert(s =~= seq![SLASH] + segment + rest);
            assert(s =~= path_of(all) + end);
            assert forall|i: int| 0 <= i < all.len() implies is_segment(#[trigger] all[i]) by {
                if i == 0 {
                    assert forall|j: int| 0 <= j < segment.len() implies !StopSet::SegmentEnd.holds(
                        #[trigger] segment[j],
                    ) by {
                        assert(segment[j] == body[j]);
                    }
                } else {
                    assert(all[i] == more[i - 1]);
                }
            }
        },
        None => {
            assert(path_of(Seq::<Seq<u8>>::empty()) + s =~= s);
        },
    }
}

/// Path reconstruction. A request that parses, with at least one path
/// segment, is the method literal, then `/` and the segments joined with
/// `/`, then `" HTTP/1.1"`, CR, LF, then what follows the request line: the
/// segments spell the path exactly as it was received.
pub proof fn lemma_path_reconstructs(input: Seq<u8>)
    requires
        spec_request(input) is Ok,
        spec_request(input)->Ok_0.path_segments.len() > 0,
    ensures
        spec_status_line(input) is Ok,
        input == method_literal(spec_request(input)->Ok_0.method) + (seq![SLASH] + join_segments(
            spec_request(input)->Ok_0.path_segments,
        )) + lit_protocol() + spec_status_line(input)->Ok_0.0,
{
    let (after_method, method) = spec_request_type(input)->Some_0;
    let (after_path, segments) = spec_path_segments(after_method);
    lemma_segments_spell_input(after_method);
    lemma_path_is_joined(segments);
    let tail = after_path.skip(11);
    assert(after_path =~= lit_protocol() + tail);
    assert(input =~= method_literal(method) + after_method);
    assert(input =~= method_literal(method) + (seq![SLASH] + join_segments(segments))
        + lit_protocol() + tail);
}

} // verus!
