//! The library's trusted boundary: declarations of outside types and thin
//! wrappers around the few outside calls the logic needs. Everything else in
//! the crate is verified against the contracts stated here.

use vstd::prelude::*;

verus! {

/// What `char::escape_debug` yields for one character: the character itself
/// when it is printable, a short backslash escape or a `\u{...}` escape
/// otherwise. The exact table is Unicode data; only the name is assumed.
pub uninterp spec fn escape_debug_of(c: char) -> Seq<char>;

/// Relies on `char::escape_debug` (std): the escape sequence is a pure
/// function of the character alone. It yields at least one character, and
/// never a control character: a control character in the input comes out as
/// a named or `\u{...}` escape built from backslash, braces, letters and
/// digits, and a character yielded verbatim is printable.
#[verifier::external_body]
pub(crate) fn escape_debug_chars(c: char) -> (r: Vec<char>)
    ensures
        r@ == escape_debug_of(c),
        r@.len() >= 1,
        crate::text::control_free(r@),
{
    c.escape_debug().collect()
}

/// Relies on `str::chars` (std): it yields the characters of the string in
/// order.
#[verifier::external_body]
pub(crate) fn str_chars(s: &str) -> (r: Vec<char>)
    ensures
        r@ == s@,
{
    s.chars().collect()
}

/// Relies on `String`'s `FromIterator<char>` impl (std): collecting
/// characters builds the string of exactly those characters.
#[verifier::external_body]
pub(crate) fn chars_to_string(v: &Vec<char>) -> (r: String)
    ensures
        r@ == v@,
{
    v.iter().collect()
}

/// Relies on `char::from_u32` (std): for a Unicode scalar value it returns
/// the character with exactly that value.
#[verifier::external_body]
pub(crate) fn char_from_scalar(v: u32) -> (c: char)
    requires
        vstd::utf8::is_scalar(v),
    ensures
        c as u32 == v,
{
    char::from_u32(v).unwrap()
}

/// A point in time, as std measures it.
#[verifier::external_type_specification]
#[verifier::external_body]
pub struct ExInstant(std::time::Instant);

/// Relies on `Instant::now` (std): some point in time; nothing is assumed
/// of its value.
#[verifier::external_body]
pub(crate) fn now() -> std::time::Instant {
    std::time::Instant::now()
}

/// Relies on `Instant::elapsed` and `Duration`'s `Debug` impl (std): a
/// human-readable rendering of the time since `start`. The value depends on
/// the clock, so nothing more is assumed of it than its shape: digits, a
/// possible decimal point and a unit, never a control character.
#[verifier::external_body]
pub(crate) fn elapsed_text(start: &std::time::Instant) -> (r: String)
    ensures
        crate::text::control_free(r@),
{
    format!("{:?}", start.elapsed())
}

/// Relies on `std::io::Stderr` and `Write::write_all` (std): hands one
/// finished line to the process diagnostic stream and swallows any write
/// error, so that logging never fails the caller.
#[verifier::external_body]
pub(crate) fn write_stderr(line: &str)
    opens_invariants none
    no_unwind
{
    let mut err = std::io::stderr().lock();
    let _ = std::io::Write::write_all(&mut err, line.as_bytes());
}

/// An inbound HTTP request, as the `http` crate models it (re-exported by
/// hyper).
#[verifier::external_type_specification]
#[verifier::external_body]
#[verifier::reject_recursive_types(B)]
pub struct ExRequest<B>(hyper::Request<B>);

/// An outbound HTTP response, as the `http` crate models it (re-exported by
/// hyper).
#[verifier::external_type_specification]
#[verifier::external_body]
#[verifier::reject_recursive_types(B)]
pub struct ExResponse<B>(hyper::Response<B>);

/// Relies on `http::HeaderMap::get` and `http::HeaderValue::as_bytes`: the
/// bytes of the named header when the request carries it. Which headers a
/// request carries is opaque here, so nothing is assumed of the result.
#[verifier::external_body]
pub(crate) fn header_bytes<B>(req: &hyper::Request<B>, name: &str) -> Option<Vec<u8>> {
    req.headers().get(name).map(|v| v.as_bytes().to_vec())
}

/// Relies on `http::Request::method` and `http::Method::as_str`: the
/// method's textual form, a nonempty token of visible ASCII characters
/// (every construction path of `Method` validates its bytes).
#[verifier::external_body]
pub(crate) fn method_text<B>(req: &hyper::Request<B>) -> (r: String)
    ensures
        r@.len() >= 1,
        crate::text::control_free(r@),
{
    req.method().as_str().to_string()
}

/// Relies on `http::Request::uri` and `http::Uri`'s `Display` impl: the
/// URI's textual form, visible ASCII only (every construction path of `Uri`
/// validates its bytes).
#[verifier::external_body]
pub(crate) fn uri_text<B>(req: &hyper::Request<B>) -> (r: String)
    ensures
        crate::text::control_free(r@),
{
    req.uri().to_string()
}

/// Relies on `http::Request::version` and `http::Version`'s `Debug` impl:
/// one of the five fixed forms `HTTP/0.9` through `HTTP/3.0`.
#[verifier::external_body]
pub(crate) fn version_text<B>(req: &hyper::Request<B>) -> (r: String)
    ensures
        r@.len() >= 1,
        crate::text::control_free(r@),
{
    format!("{:?}", req.version())
}

/// Relies on `http::Response::status` and `http::StatusCode::as_u16`: the
/// numeric status code of the response. A `StatusCode` holds a checked
/// value in the range 100 to 999.
#[verifier::external_body]
pub(crate) fn status_of<B>(resp: &hyper::Response<B>) -> (r: u16)
    ensures
        100 <= r <= 999,
{
    resp.status().as_u16()
}

} // verus!
