//! The fixed byte strings of the protocol, and two helpers on byte strings.
//!
//! Each string comes twice: as a sequence for contracts (`lit_..`) and as an
//! array for code, proved equal to the sequence.

use vstd::prelude::*;

verus! {

/// `"GET "`. The method literal of a GET request, with its space.
pub open spec fn lit_get() -> Seq<u8> {
    seq![0x47u8, 0x45, 0x54, 0x20]
}

/// `"GET "` as an array.
pub fn get() -> (r: [u8; 4])
    ensures
        r@ == lit_get(),
{
    let r: [u8; 4] = [0x47, 0x45, 0x54, 0x20];
    assert(r@ =~= lit_get());
    r
}

/// `"POST "`. The method literal of a POST request, with its space.
pub open spec fn lit_post() -> Seq<u8> {
    seq![0x50u8, 0x4f, 0x53, 0x54, 0x20]
}

/// `"POST "` as an array.
pub fn post() -> (r: [u8; 5])
    ensures
        r@ == lit_post(),
{
    let r: [u8; 5] = [0x50, 0x4f, 0x53, 0x54, 0x20];
    assert(r@ =~= lit_post());
    r
}

/// `" HTTP/1.1\r\n"`. The end of a request line: a space, the protocol version, CR, LF.
pub open spec fn lit_protocol() -> Seq<u8> {
    seq![0x20u8, 0x48, 0x54, 0x54, 0x50, 0x2f, 0x31, 0x2e, 0x31, 0x0d, 0x0a]
}

/// `" HTTP/1.1\r\n"` as an array.
pub fn protocol() -> (r: [u8; 11])
    ensures
        r@ == lit_protocol(),
{
    let r: [u8; 11] = [0x20, 0x48, 0x54, 0x54, 0x50, 0x2f, 0x31, 0x2e, 0x31, 0x0d, 0x0a];
    assert(r@ =~= lit_protocol());
    r
}

/// `": "`. What stands between a header's name and its value.
pub open spec fn lit_separator() -> Seq<u8> {
    seq![0x3au8, 0x20]
}

/// `": "` as an array.
pub fn separator() -> (r: [u8; 2])
    ensures
        r@ == lit_separator(),
{
    let r: [u8; 2] = [0x3a, 0x20];
    assert(r@ =~= lit_separator());
    r
}

/// `"\r\n"`. The line ending that the server writes.
pub open spec fn lit_crlf() -> Seq<u8> {
    seq![0x0du8, 0x0a]
}

/// `"\r\n"` as an array.
pub fn crlf() -> (r: [u8; 2])
    ensures
        r@ == lit_crlf(),
{
    let r: [u8; 2] = [0x0d, 0x0a];
    assert(r@ =~= lit_crlf());
    r
}

/// `"echo"`. The first path segment of the echo route.
pub open spec fn lit_echo() -> Seq<u8> {
    seq![0x65u8, 0x63, 0x68, 0x6f]
}

/// `"echo"` as an array.
pub fn echo() -> (r: [u8; 4])
    ensures
        r@ == lit_echo(),
{
    let r: [u8; 4] = [0x65, 0x63, 0x68, 0x6f];
    assert(r@ =~= lit_echo());
    r
}

/// `"files"`. The first path segment of the file routes.
pub open spec fn lit_files() -> Seq<u8> {
    seq![0x66u8, 0x69, 0x6c, 0x65, 0x73]
}

/// `"files"` as an array.
pub fn files() -> (r: [u8; 5])
    ensures
        r@ == lit_files(),
{
    let r: [u8; 5] = [0x66, 0x69, 0x6c, 0x65, 0x73];
    assert(r@ =~= lit_files());
    r
}

/// `"user-agent"`. The path segment of the header reflection route.
pub open spec fn lit_user_agent_route() -> Seq<u8> {
    seq![0x75u8, 0x73, 0x65, 0x72, 0x2d, 0x61, 0x67, 0x65, 0x6e, 0x74]
}

/// `"user-agent"` as an array.
pub fn user_agent_route() -> (r: [u8; 10])
    ensures
        r@ == lit_user_agent_route(),
{
    let r: [u8; 10] = [0x75, 0x73, 0x65, 0x72, 0x2d, 0x61, 0x67, 0x65, 0x6e, 0x74];
    assert(r@ =~= lit_user_agent_route());
    r
}

/// `"User-Agent"`. The header name that the reflection route looks up.
pub open spec fn lit_user_agent() -> Seq<u8> {
    seq![0x55u8, 0x73, 0x65, 0x72, 0x2d, 0x41, 0x67, 0x65, 0x6e, 0x74]
}

/// `"User-Agent"` as an array.
pub fn user_agent() -> (r: [u8; 10])
    ensures
        r@ == lit_user_agent(),
{
    let r: [u8; 10] = [0x55, 0x73, 0x65, 0x72, 0x2d, 0x41, 0x67, 0x65, 0x6e, 0x74];
    assert(r@ =~= lit_user_agent());
    r
}

/// `"Content-Type"`. The header name for the media type of a body.
pub open spec fn lit_content_type() -> Seq<u8> {
    seq![0x43u8, 0x6f, 0x6e, 0x74, 0x65, 0x6e, 0x74, 0x2d, 0x54, 0x79, 0x70, 0x65]
}

/// `"Content-Type"` as an array.
pub fn content_type() -> (r: [u8; 12])
    ensures
        r@ == lit_content_type(),
{
    let r: [u8; 12] = [0x43, 0x6f, 0x6e, 0x74, 0x65, 0x6e, 0x74, 0x2d, 0x54, 0x79, 0x70, 0x65];
    assert(r@ =~= lit_content_type());
    r
}

/// `"Content-Length"`. The header name for the length of a body.
pub open spec fn lit_content_length() -> Seq<u8> {
    seq![0x43u8, 0x6f, 0x6e, 0x74, 0x65, 0x6e, 0x74, 0x2d, 0x4c, 0x65, 0x6e, 0x67, 0x74, 0x68]
}

/// `"Content-Length"` as an array.
pub fn content_length() -> (r: [u8; 14])
    ensures
        r@ == lit_content_length(),
{
    let r: [u8; 14] = [
        0x43, 0x6f, 0x6e, 0x74, 0x65, 0x6e, 0x74, 0x2d, 0x4c, 0x65, 0x6e, 0x67, 0x74, 0x68,
    ];
    assert(r@ =~= lit_content_length());
    r
}

/// `"text/plain"`. The media type of a text body.
pub open spec fn lit_text_plain() -> Seq<u8> {
    seq![0x74u8, 0x65, 0x78, 0x74, 0x2f, 0x70, 0x6c, 0x61, 0x69, 0x6e]
}

/// `"text/plain"` as an array.
pub fn text_plain() -> (r: [u8; 10])
    ensures
        r@ == lit_text_plain(),
{
    let r: [u8; 10] = [0x74, 0x65, 0x78, 0x74, 0x2f, 0x70, 0x6c, 0x61, 0x69, 0x6e];
    assert(r@ =~= lit_text_plain());
    r
}

/// `"application/octet-stream"`. The media type of a file body.
pub open spec fn lit_octet_stream() -> Seq<u8> {
    seq![
        0x61u8, 0x70, 0x70, 0x6c, 0x69, 0x63, 0x61, 0x74, 0x69, 0x6f, 0x6e, 0x2f, 0x6f, 0x63, 0x74,
        0x65, 0x74, 0x2d, 0x73, 0x74, 0x72, 0x65, 0x61, 0x6d,
    ]
}

/// `"application/octet-stream"` as an array.
pub fn octet_stream() -> (r: [u8; 24])
    ensures
        r@ == lit_octet_stream(),
{
    let r: [u8; 24] = [
        0x61, 0x70, 0x70, 0x6c, 0x69, 0x63, 0x61, 0x74, 0x69, 0x6f, 0x6e, 0x2f, 0x6f, 0x63, 0x74,
        0x65, 0x74, 0x2d, 0x73, 0x74, 0x72, 0x65, 0x61, 0x6d,
    ];
    assert(r@ =~= lit_octet_stream());
    r
}

/// `"HTTP/1.1"`. The protocol version at the head of a status line.
pub open spec fn lit_http_version() -> Seq<u8> {
    seq![0x48u8, 0x54, 0x54, 0x50, 0x2f, 0x31, 0x2e, 0x31]
}

/// `"HTTP/1.1"` as an array.
pub fn http_version() -> (r: [u8; 8])
    ensures
        r@ == lit_http_version(),
{
    let r: [u8; 8] = [0x48, 0x54, 0x54, 0x50, 0x2f, 0x31, 0x2e, 0x31];
    assert(r@ =~= lit_http_version());
    r
}

/// `"OK"`. The reason phrase of status 200.
pub open spec fn lit_reason_ok() -> Seq<u8> {
    seq![0x4fu8, 0x4b]
}

/// `"OK"` as an array.
pub fn reason_ok() -> (r: [u8; 2])
    ensures
        r@ == lit_reason_ok(),
{
    let r: [u8; 2] = [0x4f, 0x4b];
    assert(r@ =~= lit_reason_ok());
    r
}

/// `"CREATED"`. The reason phrase of status 201.
pub open spec fn lit_reason_created() -> Seq<u8> {
    seq![0x43u8, 0x52, 0x45, 0x41, 0x54, 0x45, 0x44]
}

/// `"CREATED"` as an array.
pub fn reason_created() -> (r: [u8; 7])
    ensures
        r@ == lit_reason_created(),
{
    let r: [u8; 7] = [0x43, 0x52, 0x45, 0x41, 0x54, 0x45, 0x44];
    assert(r@ =~= lit_reason_created());
    r
}

/// `"NOT FOUND"`. The reason phrase of status 404.
pub open spec fn lit_reason_not_found() -> Seq<u8> {
    seq![0x4eu8, 0x4f, 0x54, 0x20, 0x46, 0x4f, 0x55, 0x4e, 0x44]
}

/// `"NOT FOUND"` as an array.
pub fn reason_not_found() -> (r: [u8; 9])
    ensures
        r@ == lit_reason_not_found(),
{
    let r: [u8; 9] = [0x4e, 0x4f, 0x54, 0x20, 0x46, 0x4f, 0x55, 0x4e, 0x44];
    assert(r@ =~= lit_reason_not_found());
    r
}

/// `"METHOD NOT ALLOWED"`. The reason phrase of status 405.
pub open spec fn lit_reason_method_not_allowed() -> Seq<u8> {
    seq![
        0x4du8, 0x45, 0x54, 0x48, 0x4f, 0x44, 0x20, 0x4e, 0x4f, 0x54, 0x20, 0x41, 0x4c, 0x4c, 0x4f,
        0x57, 0x45, 0x44,
    ]
}

/// `"METHOD NOT ALLOWED"` as an array.
pub fn reason_method_not_allowed() -> (r: [u8; 18])
    ensures
        r@ == lit_reason_method_not_allowed(),
{
    let r: [u8; 18] = [
        0x4d, 0x45, 0x54, 0x48, 0x4f, 0x44, 0x20, 0x4e, 0x4f, 0x54, 0x20, 0x41, 0x4c, 0x4c, 0x4f,
        0x57, 0x45, 0x44,
    ];
    assert(r@ =~= lit_reason_method_not_allowed());
    r
}

/// Whether two byte strings are equal.
pub fn bytes_eq(a: &[u8], b: &[u8]) -> (r: bool)
    ensures
        r == (a@ == b@),
{
    if a.len() != b.len() {
        return false;
    }
    let mut i: usize = 0;
    while i < a.len()
        invariant
            i <= a.len(),
            a.len() == b.len(),
            forall|j: int| 0 <= j < i ==> a@[j] == b@[j],
        decreases a.len() - i,
    {
        if a[i] != b[i] {
            return false;
        }
        i += 1;
    }
    assert(a@ =~= b@);
    true
}

/// Appends `bytes` to `out`.
pub fn append(out: &mut Vec<u8>, bytes: &[u8])
    ensures
        final(out)@ == old(out)@ + bytes@,
{
    let mut i: usize = 0;
    while i < bytes.len()
        invariant
            i <= bytes.len(),
            out@ == old(out)@ + bytes@.take(i as int),
        decreases bytes.len() - i,
    {
        out.push(bytes[i]);
        assert(bytes@.take(i + 1) =~= bytes@.take(i as int).push(bytes@[i as int]));
        i += 1;
    }
    assert(bytes@.take(i as int) =~= bytes@);
}

} // verus!
