//! The grammar read both ways: what is written in the canonical form parses
//! back to what was written, and what parses has the canonical shape.

use crate::grammar::{
    after_line_endings, eol_len, lemma_after_line_endings, lemma_line_endings_at_head,
    lemma_run_len, lemma_run_len_unique, only_line_endings, run_len, StopSet, LF, SLASH, SPACE,
};
use crate::request::{
    are_headers, are_segments, header_ends_block, is_name, is_segment, is_value,
    lemma_header_consumes, lemma_segments_spell_input, method_literal, path_of, spec_header,
    spec_header_block, spec_header_section, spec_header_text, spec_headers, spec_path_segment,
    spec_path_segments, spec_request, spec_request_type, spec_status_line, Method, ParseError,
    RequestView,
};
use crate::response::{header_line, header_lines, spec_serialize, status_line, ResponseView};
use crate::text::{lit_crlf, lit_get, lit_protocol, lit_separator};
use vstd::prelude::*;

verus! {

/// A request in its canonical form: every line ends with CR LF, and one
/// blank line closes the header block.
pub open spec fn spec_render(request: RequestView) -> Seq<u8> {
    method_literal(request.method) + path_of(request.path_segments) + lit_protocol()
        + header_lines(request.headers) + lit_crlf() + request.remainder
}

/// A run that is followed by a stop byte, or by nothing, ends there.
pub proof fn lemma_run_stops(stop: StopSet, run: Seq<u8>, tail: Seq<u8>)
    requires
        forall|j: int| 0 <= j < run.len() ==> !stop.holds(#[trigger] run[j]),
        tail.len() == 0 || stop.holds(tail[0]),
    ensures
        run_len(stop, run + tail) == run.len(),
        (run + tail).take(run.len() as int) == run,
        (run + tail).skip(run.len() as int) == tail,
{
    let s = run + tail;
    let k = run.len() as int;
    assert forall|i: int| 0 <= i < k implies !stop.holds(#[trigger] s[i]) by {
        assert(s[i] == run[i]);
    }
    if k < s.len() {
        assert(s[k] == tail[0]);
    }
    lemma_run_len_unique(stop, s, k);
    assert(s.take(k) =~= run);
    assert(s.skip(k) =~= tail);
}

/// Segments written as a path parse back, where the path is followed by a
/// space or by nothing.
pub proof fn lemma_segments_parse_back(segments: Seq<Seq<u8>>, tail: Seq<u8>)
    requires
        are_segments(segments),
        tail.len() == 0 || tail[0] == SPACE,
    ensures
        spec_path_segments(path_of(segments) + tail) == (tail, segments),
    decreases segments.len(),
{
    let s = path_of(segments) + tail;
    if segments.len() == 0 {
        assert(s =~= tail);
        assert(spec_path_segment(s) is None);
        assert(segments =~= Seq::<Seq<u8>>::empty());
    } else {
        let first = segments[0];
        let others = segments.skip(1);
        let after = path_of(others) + tail;
        assert(are_segments(others)) by {
            assert forall|i: int| 0 <= i < others.len() implies is_segment(
                #[trigger] others[i],
            ) by {
                assert(others[i] == segments[i + 1]);
            }
        }
        assert(is_segment(first));
        assert(s =~= seq![SLASH] + (first + after));
        assert(s.skip(1) =~= first + after);
        if others.len() > 0 {
            assert(after[0] == SLASH);
        } else {
            assert(after =~= tail);
        }
        lemma_run_stops(StopSet::SegmentEnd, first, after);
        assert(spec_path_segment(s) == Some((after, first)));
        lemma_segments_parse_back(others, tail);
        assert(seq![first] + others =~= segments);
    }
}

/// The header lines of one header followed by others are its line followed
/// by theirs.
pub proof fn lemma_header_lines_cons(first: (Seq<u8>, Seq<u8>), others: Seq<(Seq<u8>, Seq<u8>)>)
    ensures
        header_lines(seq![first] + others) == header_line(first) + header_lines(others),
    decreases others.len(),
{
    let all = seq![first] + others;
    if others.len() == 0 {
        assert(all.drop_last() =~= Seq::<(Seq<u8>, Seq<u8>)>::empty());
        assert(all.last() == first);
        assert(header_lines(all.drop_last()) =~= Seq::<u8>::empty());
        assert(header_lines(all) =~= header_line(first));
        assert(header_line(first) + header_lines(others) =~= header_line(first));
    } else {
        lemma_header_lines_cons(first, others.drop_last());
        assert(all.drop_last() =~= seq![first] + others.drop_last());
        assert(all.last() == others.last());
        assert(header_lines(all) =~= header_line(first) + (header_lines(others.drop_last())
            + header_line(others.last())));
    }
}

/// A header written as a line parses back. The line endings at the head
/// of what follows count as its own, and where there are any, a blank line
/// followed it.
pub proof fn lemma_header_parses_back(name: Seq<u8>, value: Seq<u8>, tail: Seq<u8>)
    requires
        is_name(name),
        is_value(value),
    ensures
        spec_header(header_line((name, value)) + tail) == Some(
            (after_line_endings(tail), (name, value)),
        ),
        header_ends_block(header_line((name, value)) + tail) == (eol_len(tail) > 0),
        eol_len(header_line((name, value)) + tail) == 0,
{
    let s = header_line((name, value)) + tail;
    let after_name = lit_separator() + (value + (lit_crlf() + tail));
    assert(s =~= name + after_name);
    lemma_run_stops(StopSet::NameEnd, name, after_name);
    let after_separator = value + (lit_crlf() + tail);
    assert(after_name.skip(2) =~= after_separator);
    lemma_run_stops(StopSet::LineEnd, value, lit_crlf() + tail);
    let after_value = lit_crlf() + tail;
    assert(spec_header_text(s) == Some((after_value, (name, value))));
    assert(eol_len(after_value) == 2);
    assert(after_value.skip(2) =~= tail);
    if name.len() > 0 {
        assert(s[0] == name[0]);
    } else {
        assert(s[0] == lit_separator()[0]);
    }
}

/// A header block written in the canonical form parses back: the blank
/// line is taken by the last header, with the line endings at the head of
/// what follows. Where there is no header, nothing is consumed.
pub proof fn lemma_header_block_parses_back(headers: Seq<(Seq<u8>, Seq<u8>)>, tail: Seq<u8>)
    requires
        are_headers(headers),
    ensures
        spec_header_block(header_lines(headers) + lit_crlf() + tail) == if headers.len() > 0 {
            (after_line_endings(tail), headers, true)
        } else {
            (lit_crlf() + tail, headers, false)
        },
    decreases headers.len(),
{
    let closing = lit_crlf() + tail;
    let s = header_lines(headers) + lit_crlf() + tail;
    if headers.len() == 0 {
        assert(s =~= closing);
        assert(run_len(StopSet::NameEnd, closing) == 0);
        assert(closing.skip(0) =~= closing);
        assert(spec_header_text(closing) is None);
        assert(headers =~= Seq::<(Seq<u8>, Seq<u8>)>::empty());
    } else {
        let first = headers[0];
        let others = headers.skip(1);
        assert(headers =~= seq![first] + others);
        lemma_header_lines_cons(first, others);
        let after = header_lines(others) + lit_crlf() + tail;
        assert(s =~= header_line(first) + after);
        assert(is_name(first.0) && is_value(first.1));
        lemma_header_parses_back(first.0, first.1, after);
        assert(are_headers(others)) by {
            assert forall|i: int| 0 <= i < others.len() implies is_name(
                (#[trigger] others[i]).0,
            ) && is_value(others[i].1) by {
                assert(others[i] == headers[i + 1]);
            }
        }
        if others.len() == 0 {
            assert(after =~= closing);
            assert(eol_len(closing) == 2);
            assert(closing.skip(2) =~= tail);
            assert(headers =~= seq![first]);
        } else {
            let second = others[0];
            let rest = others.skip(1);
            assert(others =~= seq![second] + rest);
            lemma_header_lines_cons(second, rest);
            assert(after =~= header_line(second) + (header_lines(rest) + lit_crlf() + tail));
            lemma_header_parses_back(
                second.0,
                second.1,
                header_lines(rest) + lit_crlf() + tail,
            );
            assert(eol_len(after) == 0);
            lemma_header_block_parses_back(others, tail);
        }
    }
}

/// A header section written in the canonical form parses back. Line
/// endings at the head of what follows count as part of its blank line.
pub proof fn lemma_header_section_parses_back(headers: Seq<(Seq<u8>, Seq<u8>)>, tail: Seq<u8>)
    requires
        are_headers(headers),
    ensures
        spec_header_section(header_lines(headers) + lit_crlf() + tail) == Some(
            (after_line_endings(tail), headers),
        ),
{
    lemma_header_block_parses_back(headers, tail);
    let closing = lit_crlf() + tail;
    assert(eol_len(closing) == 2);
    assert(closing.skip(2) =~= tail);
}

/// A method literal at the head of an input is recognised.
pub proof fn lemma_method_parses_back(method: Method, tail: Seq<u8>)
    requires
        method != Method::Unsupported,
    ensures
        spec_request_type(method_literal(method) + tail) == Some((tail, method)),
{
    let lit = method_literal(method);
    let s = lit + tail;
    assert(s.subrange(0, lit.len() as int) =~= lit);
    assert(s.skip(lit.len() as int) =~= tail);
    if method == Method::Post {
        assert(s[0] == 0x50);
        assert(!lit_get().is_prefix_of(s));
    }
}

/// A request line written in the canonical form parses back.
pub proof fn lemma_status_line_parses_back(
    method: Method,
    segments: Seq<Seq<u8>>,
    tail: Seq<u8>,
)
    requires
        method != Method::Unsupported,
        are_segments(segments),
    ensures
        spec_status_line(method_literal(method) + path_of(segments) + lit_protocol() + tail)
            == Ok::<(Seq<u8>, (Method, Seq<Seq<u8>>)), ParseError>(
            (tail, (method, segments)),
        ),
{
    let after_path = lit_protocol() + tail;
    let after_method = path_of(segments) + after_path;
    let s = method_literal(method) + path_of(segments) + lit_protocol() + tail;
    assert(s =~= method_literal(method) + after_method);
    lemma_method_parses_back(method, after_method);
    assert(after_path[0] == SPACE);
    lemma_segments_parse_back(segments, after_path);
    assert(after_path.subrange(0, 11) =~= lit_protocol());
    assert(after_path.skip(11) =~= tail);
}

/// A request written in the canonical form parses back to what was
/// written: method, segments and headers as they are, and the remainder
/// without the line endings at its head.
pub proof fn lemma_request_parses_back(request: RequestView)
    requires
        request.method != Method::Unsupported,
        are_segments(request.path_segments),
        are_headers(request.headers),
    ensures
        spec_request(spec_render(request)) == Ok::<RequestView, ParseError>(
            RequestView {
                method: request.method,
                path_segments: request.path_segments,
                headers: request.headers,
                remainder: after_line_endings(request.remainder),
            },
        ),
{
    let s = spec_render(request);
    let block = header_lines(request.headers) + lit_crlf() + request.remainder;
    let line = (request.method, request.path_segments);
    assert(spec_status_line(s) == Ok::<(Seq<u8>, (Method, Seq<Seq<u8>>)), ParseError>(
        (block, line),
    )) by {
        assert(s =~= method_literal(request.method) + path_of(request.path_segments)
            + lit_protocol() + block);
        lemma_status_line_parses_back(request.method, request.path_segments, block);
    }
    assert(spec_header_section(block) == Some(
        (after_line_endings(request.remainder), request.headers),
    )) by {
        lemma_header_section_parses_back(request.headers, request.remainder);
    }
}

/// What the response writer writes behind the status line is a header
/// section in the request grammar's sense: it parses back to the headers
/// of the response and leaves the body, without line endings at its head.
pub proof fn lemma_response_head_parses_back(response: ResponseView)
    requires
        are_headers(response.headers),
    ensures
        spec_header_section(
            spec_serialize(response).skip(status_line(response.status).len() as int),
        ) == Some((after_line_endings(response.body), response.headers)),
{
    let line = status_line(response.status);
    let block = header_lines(response.headers) + lit_crlf() + response.body;
    assert(spec_serialize(response) =~= line + block);
    assert((line + block).skip(line.len() as int) =~= block);
    lemma_header_section_parses_back(response.headers, response.body);
}

/// A header that parses has the shape of a header: a name without `:`
/// and line breaks, the separator, a value without line breaks, and one or
/// more line endings. Nothing else was consumed, and what is left does not
/// start with a line ending.
pub proof fn lemma_header_shape(s: Seq<u8>)
    requires
        spec_header(s) is Some,
    ensures
        ({
            let (rest, (name, value)) = spec_header(s)->Some_0;
            let eol = s.subrange(name.len() + value.len() + 2int, s.len() - rest.len());
            &&& is_name(name)
            &&& is_value(value)
            &&& name.len() + value.len() + 2 < s.len() - rest.len()
            &&& only_line_endings(eol)
            &&& eol[eol.len() - 1] == LF
            &&& s == name + lit_separator() + value + eol + rest
            &&& eol_len(rest) == 0
        }),
{
    let n = run_len(StopSet::NameEnd, s);
    lemma_run_len(StopSet::NameEnd, s);
    let after_name = s.skip(n);
    let t = after_name.skip(2);
    let m = run_len(StopSet::LineEnd, t);
    lemma_run_len(StopSet::LineEnd, t);
    let after_value = t.skip(m);
    lemma_after_line_endings(after_value);
    lemma_line_endings_at_head(after_value);
    lemma_line_endings_end_with_lf(after_value);
    let (rest, (name, value)) = spec_header(s)->Some_0;
    let k = after_value.len() - rest.len();
    let eol = s.subrange(name.len() + value.len() + 2int, s.len() - rest.len());
    assert(name =~= s.take(n));
    assert(value =~= t.take(m));
    assert forall|j: int| 0 <= j < name.len() implies !StopSet::NameEnd.holds(
        #[trigger] name[j],
    ) by {
        assert(name[j] == s[j]);
    }
    assert forall|j: int| 0 <= j < value.len() implies !StopSet::LineEnd.holds(
        #[trigger] value[j],
    ) by {
        assert(value[j] == t[j]);
    }
    assert(eol =~= after_value.take(k));
    assert(after_name.take(2) =~= lit_separator());
    assert(s =~= name + lit_separator() + value + eol + rest);
}

/// Where an input starts with a line ending, the line endings at its head
/// end with a line feed.
pub proof fn lemma_line_endings_end_with_lf(s: Seq<u8>)
    requires
        eol_len(s) > 0,
    ensures
        after_line_endings(s).len() < s.len(),
        s[s.len() - after_line_endings(s).len() - 1] == LF,
    decreases s.len(),
{
    let e = eol_len(s);
    let t = s.skip(e);
    lemma_after_line_endings(s);
    lemma_after_line_endings(t);
    if eol_len(t) > 0 {
        lemma_line_endings_end_with_lf(t);
        let k = t.len() - after_line_endings(t).len();
        assert(t[k - 1] == s[e + k - 1]);
    } else {
        assert(s[e - 1] == LF);
    }
}

/// Every header that the parser yields is a header name with a header
/// value.
pub proof fn lemma_parsed_headers_are_headers(s: Seq<u8>)
    ensures
        are_headers(spec_header_block(s).1),
    decreases s.len(),
{
    match spec_header(s) {
        Some((rest, header)) => {
            lemma_header_consumes(s);
            lemma_header_shape(s);
            if header_ends_block(s) {
                let all = seq![header];
                assert forall|i: int| 0 <= i < all.len() implies is_name((#[trigger] all[i]).0)
                    && is_value(all[i].1) by {}
            } else {
                lemma_parsed_headers_are_headers(rest);
                let more = spec_header_block(rest).1;
                let all = seq![header] + more;
                assert forall|i: int| 0 <= i < all.len() implies is_name((#[trigger] all[i]).0)
                    && is_value(all[i].1) by {
                    if i > 0 {
                        assert(all[i] == more[i - 1]);
                    }
                }
            }
        },
        None => {},
    }
}

/// What the repetition of headers gives: what is left is the end of the
/// input; where no header is found, nothing is consumed; the first header
/// is the one that stands at the head of the input; and the repetition
/// ends where a blank line followed a header or where no header follows.
pub proof fn lemma_headers_shape(s: Seq<u8>)
    ensures
        spec_headers(s).0.len() <= s.len(),
        spec_headers(s).0 == s.skip(s.len() - spec_headers(s).0.len()),
        spec_headers(s).1.len() == 0 <==> spec_header(s) is None,
        spec_headers(s).1.len() == 0 ==> spec_headers(s).0 == s,
        spec_headers(s).1.len() > 0 ==> spec_headers(s).1[0] == spec_header(s)->Some_0.1,
        spec_header_block(s).2 || spec_header(spec_headers(s).0) is None,
        spec_header_block(s).2 ==> spec_headers(s).1.len() > 0,
        eol_len(spec_headers(s).0) == 0 || spec_headers(s).1.len() == 0,
    decreases s.len(),
{
    match spec_header(s) {
        Some((rest, header)) => {
            lemma_header_consumes(s);
            lemma_header_shape(s);
            assert(rest =~= s.skip(s.len() - rest.len()));
            if !header_ends_block(s) {
                lemma_headers_shape(rest);
                let end = spec_headers(rest).0;
                assert(end =~= s.skip(s.len() - end.len()));
            }
        },
        None => {
            assert(s.skip(0) =~= s);
        },
    }
}

/// Whether a line starts at position `i` of `s`: at the start of `s`, or
/// behind a line feed.
pub open spec fn line_starts_at(s: Seq<u8>, i: int) -> bool {
    0 <= i <= s.len() && (i == 0 || s[i - 1] == LF)
}

/// Whether a blank line stands at position `i` of `s`: a line starts there
/// and ends at once.
pub open spec fn blank_line_at(s: Seq<u8>, i: int) -> bool {
    line_starts_at(s, i) && eol_len(s.skip(i)) > 0
}

/// The first line of a header ends with a line feed, and no blank line
/// stands in front of that end. A blank line stands there exactly where
/// the header ends its block.
pub proof fn lemma_header_holds_no_blank_line(s: Seq<u8>) -> (line: int)
    requires
        spec_header(s) is Some,
    ensures
        0 < line <= s.len(),
        s[line - 1] == LF,
        forall|i: int| 0 <= i < line ==> !blank_line_at(s, i),
        header_ends_block(s) == (eol_len(s.skip(line)) > 0),
        spec_header(s)->Some_0.0 == after_line_endings(s.skip(line)),
{
    let n = run_len(StopSet::NameEnd, s);
    lemma_run_len(StopSet::NameEnd, s);
    let after_name = s.skip(n);
    let t = after_name.skip(2);
    let m = run_len(StopSet::LineEnd, t);
    lemma_run_len(StopSet::LineEnd, t);
    let after_value = t.skip(m);
    let e = eol_len(after_value);
    let text = n + 2 + m;
    let line = text + e;
    assert(after_value =~= s.skip(text));
    assert(after_value.skip(e) =~= s.skip(line));
    assert(s[line - 1] == after_value[e - 1]);
    assert forall|i: int| 0 <= i < line implies !blank_line_at(s, i) by {
        if i == 0 {
            assert(s.skip(0) =~= s);
            if n > 0 {
                assert(!StopSet::NameEnd.holds(s[0]));
            } else {
                assert(s[0] == after_name[0]);
            }
        } else {
            let j = i - 1;
            if j < n {
                assert(!StopSet::NameEnd.holds(s[j]));
            } else if j < n + 2 {
                assert(s[j] == after_name[j - n]);
                assert(after_name[j - n] == lit_separator()[j - n]);
            } else if j < text {
                assert(s[j] == t[j - n - 2]);
                assert(!StopSet::LineEnd.holds(t[j - n - 2]));
            } else {
                assert(s[j] == after_value[j - text]);
            }
        }
    }
    line
}

/// The headers end at a line start, and no blank line stands in front of
/// it. Where a blank line ended them, it stands there.
pub proof fn lemma_header_block_holds_no_blank_line(s: Seq<u8>) -> (end: int)
    ensures
        0 <= end <= s.len(),
        line_starts_at(s, end),
        forall|i: int| 0 <= i < end ==> !blank_line_at(s, i),
        spec_header_block(s).2 ==> blank_line_at(s, end) && spec_header_block(s).0
            == after_line_endings(s.skip(end)),
        !spec_header_block(s).2 ==> spec_header_block(s).0 == s.skip(end),
    decreases s.len(),
{
    match spec_header(s) {
        Some((rest, header)) => {
            lemma_header_consumes(s);
            let line = lemma_header_holds_no_blank_line(s);
            if header_ends_block(s) {
                line
            } else {
                let after = s.skip(line);
                lemma_after_line_endings(after);
                assert(rest == after);
                let inner = lemma_header_block_holds_no_blank_line(rest);
                let end = line + inner;
                assert(rest.skip(inner) =~= s.skip(end));
                assert(line_starts_at(s, end)) by {
                    if inner > 0 {
                        assert(rest[inner - 1] == s[end - 1]);
                    }
                }
                assert forall|i: int| 0 <= i < end implies !blank_line_at(s, i) by {
                    if i >= line {
                        let k = i - line;
                        assert(s.skip(i) =~= rest.skip(k));
                        if k > 0 {
                            assert(rest[k - 1] == s[i - 1]);
                        }
                        assert(!blank_line_at(rest, k));
                    }
                }
                end
            }
        },
        None => {
            assert(s.skip(0) =~= s);
            0
        },
    }
}

/// The header block ends at the first blank line: where a header section
/// parses, a blank line stands behind its header lines, none stands
/// before, and what is left is what follows the line endings there.
pub proof fn lemma_headers_end_at_first_blank_line(s: Seq<u8>) -> (end: int)
    requires
        spec_header_section(s) is Some,
    ensures
        0 <= end <= s.len(),
        blank_line_at(s, end),
        forall|i: int| 0 <= i < end ==> !blank_line_at(s, i),
        spec_header_section(s)->Some_0.0 == after_line_endings(s.skip(end)),
{
    lemma_header_block_holds_no_blank_line(s)
}

/// A request that parses is well formed: no segment holds a `/` or a
/// space, no header name a `:` or a line break, no header value a line
/// break. Its remainder is the end of the input, and does not start with a
/// line ending.
pub proof fn lemma_parsed_request_is_well_formed(s: Seq<u8>)
    requires
        spec_request(s) is Ok,
    ensures
        spec_request(s)->Ok_0.well_formed(),
        spec_request(s)->Ok_0.remainder.len() <= s.len(),
        spec_request(s)->Ok_0.remainder == s.skip(
            s.len() - spec_request(s)->Ok_0.remainder.len(),
        ),
        eol_len(spec_request(s)->Ok_0.remainder) == 0,
{
    let (after_method, method) = spec_request_type(s)->Some_0;
    let (after_path, segments) = spec_path_segments(after_method);
    lemma_segments_spell_input(after_method);
    let after_line = after_path.skip(11);
    lemma_parsed_headers_are_headers(after_line);
    let end = lemma_headers_end_at_first_blank_line(after_line);
    let blank = after_line.skip(end);
    lemma_after_line_endings(blank);
    let rest = after_line_endings(blank);
    assert(spec_request(s)->Ok_0.remainder == rest);
    assert(after_method.len() == path_of(segments).len() + after_path.len());
    let a = s.len() - after_method.len();
    let b = after_method.len() - after_path.len();
    let d = blank.len() - rest.len();
    assert(after_method =~= s.skip(a));
    assert(after_path =~= after_method.skip(b));
    assert(rest =~= s.skip(a + b + 11 + end + d));
}

} // verus!
