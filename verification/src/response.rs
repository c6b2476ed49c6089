//! What a request is answered, and the checks that HTTP puts on it.
//!
//! The `http` crate, which `axum` hands on, decides which numbers are status codes and which texts
//! are header names and header values, and its map holds the headers.

use axum::http::header::{InvalidHeaderName, InvalidHeaderValue, MaxSizeReached};
use axum::http::status::InvalidStatusCode;
use axum::http::{HeaderMap, HeaderName, HeaderValue, StatusCode};
use vstd::prelude::*;

verus! {

/// The map of headers of the `http` crate.
#[verifier::external_type_specification]
#[verifier::external_body]
#[verifier::reject_recursive_types(T)]
pub struct ExHeaderMap<T>(axum::http::HeaderMap<T>);

/// A header value of the `http` crate.
#[verifier::external_type_specification]
#[verifier::external_body]
pub struct ExHeaderValue(axum::http::HeaderValue);

/// The error of `StatusCode::from_u16`.
#[verifier::external_type_specification]
#[verifier::external_body]
pub struct ExInvalidStatusCode(axum::http::status::InvalidStatusCode);

/// The error of `HeaderName::try_from`.
#[verifier::external_type_specification]
#[verifier::external_body]
pub struct ExInvalidHeaderName(axum::http::header::InvalidHeaderName);

/// The error of `HeaderValue::from_str`.
#[verifier::external_type_specification]
#[verifier::external_body]
pub struct ExInvalidHeaderValue(axum::http::header::InvalidHeaderValue);

/// The error of `HeaderMap::try_insert`.
#[verifier::external_type_specification]
#[verifier::external_body]
pub struct ExMaxSizeReached(axum::http::header::MaxSizeReached);

// ---------------------------------------------------------------------------------------------
// Status codes

/// Whether a number is a status code: one of three digits.
pub open spec fn is_status(code: nat) -> bool {
    100 <= code <= 999
}

/// `StatusCode::from_u16` accepts the numbers from 100 to 999, and the status code that it makes
/// of one stands for that number.
#[verifier::external_body]
pub(crate) fn known_status(code: u16) -> (r: Result<u16, InvalidStatusCode>)
    ensures
        r is Ok <==> is_status(code as nat),
        r matches Ok(status) ==> status == code,
{
    StatusCode::from_u16(code).map(|status| status.as_u16())
}

// ---------------------------------------------------------------------------------------------
// Header names and values

/// The characters that a header name may hold.
pub open spec fn token_char(c: char) -> bool {
    ||| 'a' <= c <= 'z'
    ||| 'A' <= c <= 'Z'
    ||| '0' <= c <= '9'
    ||| c == '!' || c == '#' || c == '$' || c == '%' || c == '&' || c == '\''
    ||| c == '*' || c == '+' || c == '-' || c == '.'
    ||| c == '^' || c == '_' || c == '`' || c == '|' || c == '~'
}

/// Whether a text is a header name.
pub open spec fn is_header_name(s: Seq<char>) -> bool {
    &&& 0 < s.len() <= 65535
    &&& forall|i: int| 0 <= i < s.len() ==> token_char(#[trigger] s[i])
}

/// The small letter for a capital one of the ASCII alphabet; any other character itself.
pub open spec fn lower_char(c: char) -> char {
    if 'A' <= c <= 'Z' {
        (c as u32 + 32) as char
    } else {
        c
    }
}

/// A header name as the map keeps it: in small letters.
pub open spec fn lower_case(s: Seq<char>) -> Seq<char> {
    s.map_values(|c: char| lower_char(c))
}

/// A header name in small letters is a header name, and stays as it is.
pub proof fn lemma_lower_case(s: Seq<char>)
    requires
        is_header_name(s),
    ensures
        is_header_name(lower_case(s)),
        lower_case(lower_case(s)) == lower_case(s),
{
    let lower = lower_case(s);
    assert forall|i: int| 0 <= i < lower.len() implies token_char(#[trigger] lower[i]) by {
        assert(token_char(s[i]));
    }
}

/// A header name in small letters has the same length, the small letter for each capital one, and
/// every other character as it is.
pub proof fn law_lower_case(s: Seq<char>)
    ensures
        lower_case(s).len() == s.len(),
        forall|i: int|
            0 <= i < s.len() ==> (#[trigger] lower_case(s)[i]) as u32 == if 'A' <= s[i] <= 'Z' {
                s[i] as u32 - 'A' as u32 + 'a' as u32
            } else {
                s[i] as u32 as int
            },
{
}

/// `HeaderName::try_from` accepts one to 65535 characters that header names may hold, and keeps
/// the name in small letters.
#[verifier::external_body]
pub(crate) fn header_name(key: &str) -> (r: Result<String, InvalidHeaderName>)
    ensures
        r is Ok <==> is_header_name(key@),
        r matches Ok(name) ==> name@ == lower_case(key@),
{
    HeaderName::try_from(key).map(|name| name.as_str().to_owned())
}

/// The bytes that a header value may hold: all but the control characters, and the tab.
pub open spec fn value_byte(b: u8) -> bool {
    (b >= 32 && b != 127) || b == 9
}

/// Whether some bytes are a header value.
pub open spec fn is_header_value(bytes: Seq<u8>) -> bool {
    forall|i: int| 0 <= i < bytes.len() ==> value_byte(#[trigger] bytes[i])
}

/// `HeaderValue::from_str` accepts a text whose UTF-8 bytes header values may hold, and keeps
/// those bytes.
#[verifier::external_body]
pub(crate) fn header_value(value: &str) -> (r: Result<Vec<u8>, InvalidHeaderValue>)
    ensures
        r is Ok <==> is_header_value(vstd::utf8::encode_utf8(value@)),
        r matches Ok(bytes) ==> bytes@ == vstd::utf8::encode_utf8(value@),
{
    HeaderValue::from_str(value).map(|value| value.as_bytes().to_vec())
}

/// Which numbers are status codes, which texts are header names and which bytes are header values.
/// A status code has three digits. A header name has a character in it and no more than 65535, each of
/// them a visible one of ASCII that is no separator. A header value holds no control character but the
/// tab.
pub proof fn law_what_http_accepts(code: nat, name: Seq<char>, value: Seq<u8>)
    ensures
        is_status(code) <==> 100 <= code && code < 1000,
        is_header_name(name) <==> name.len() > 0 && name.len() < 65536 && forall|i: int|
            0 <= i < name.len() ==> {
                let c = #[trigger] name[i];
                &&& ' ' < c && c < '\u{7f}'
                &&& c != '(' && c != ')' && c != '<' && c != '>' && c != '@'
                &&& c != ',' && c != ';' && c != ':' && c != '\\' && c != '"'
                &&& c != '/' && c != '[' && c != ']' && c != '?' && c != '='
                &&& c != '{' && c != '}'
            },
        is_header_value(value) <==> forall|i: int|
            0 <= i < value.len() ==> (#[trigger] value[i]) == 9 || value[i] >= 32 && value[i] != 127,
{
    if is_header_name(name) {
        assert forall|i: int| 0 <= i < name.len() implies {
            let c = #[trigger] name[i];
            &&& ' ' < c && c < '\u{7f}'
            &&& c != '(' && c != ')' && c != '<' && c != '>' && c != '@'
            &&& c != ',' && c != ';' && c != ':' && c != '\\' && c != '"'
            &&& c != '/' && c != '[' && c != ']' && c != '?' && c != '='
            &&& c != '{' && c != '}'
        } by {
            assert(token_char(name[i]));
        }
    }
    if is_header_value(value) {
        assert forall|i: int| 0 <= i < value.len() implies (#[trigger] value[i]) == 9 || value[i]
            >= 32 && value[i] != 127 by {
            assert(value_byte(value[i]));
        }
    }
}

// ---------------------------------------------------------------------------------------------
// Header maps

/// The headers of a map: for each name, in small letters, its values in their order.
pub uninterp spec fn header_contents(headers: HeaderMap) -> Map<Seq<char>, Seq<Seq<u8>>>;

/// The headers of a map that has none.
pub open spec fn without_headers() -> Map<Seq<char>, Seq<Seq<u8>>> {
    Map::empty()
}

/// How many names a map of headers is sure to have room for beside one more.
pub open spec fn header_room() -> nat {
    6553
}

/// How many names fill a map of headers: it takes no more, and no other value for one that it has.
pub open spec fn header_limit() -> nat {
    24576
}

/// `HeaderMap::new` makes a map without headers.
#[verifier::external_body]
pub(crate) fn no_headers() -> (headers: HeaderMap)
    ensures
        header_contents(headers) == without_headers(),
{
    HeaderMap::new()
}

/// `HeaderMap::try_insert` gives a name the one value, in place of those that it had. The headers are
/// left as they were where the map has no room. That does not happen while it holds no more names
/// than `header_room` tells, and always happens once it holds as many as `header_limit` tells. Left
/// unsaid is what happens in between: it depends on how the names hash, which is not the same on
/// every machine, since a name hashes with the bytes of a machine word.
#[verifier::external_body]
pub(crate) fn insert_header(headers: &mut HeaderMap, name: &str, value: &Vec<u8>) -> (r: Result<
    (),
    MaxSizeReached,
>)
    requires
        is_header_name(name@),
        is_header_value(value@),
    ensures
        r is Ok ==> header_contents(*final(headers)) == header_contents(*old(headers)).insert(
            lower_case(name@),
            seq![value@],
        ),
        r is Err ==> header_contents(*final(headers)) == header_contents(*old(headers)),
        header_contents(*old(headers)).dom().len() <= header_room() ==> r is Ok,
        header_contents(*old(headers)).dom().len() >= header_limit() ==> r is Err,
{
    let name = HeaderName::try_from(name).unwrap();
    let value = HeaderValue::from_bytes(value).unwrap();
    headers.try_insert(name, value).map(|_| ())
}

// ---------------------------------------------------------------------------------------------
// Responses

/// The answer to a request.
#[derive(Debug)]
pub struct Response {
    pub status: u16,
    pub headers: HeaderMap,
    pub body: String,
}

/// The view of a `Response`.
#[verifier::ext_equal]
pub struct ResponseModel {
    pub status: u16,
    pub headers: Map<Seq<char>, Seq<Seq<u8>>>,
    pub body: Seq<char>,
}

impl View for Response {
    type V = ResponseModel;

    open spec fn view(&self) -> ResponseModel {
        ResponseModel {
            status: self.status,
            headers: header_contents(self.headers),
            body: self.body@,
        }
    }
}

/// The view of a response holds what the response holds.
pub proof fn law_view(response: Response)
    ensures
        response@.status == response.status,
        response@.headers == header_contents(response.headers),
        response@.body == response.body@,
{
}

} // verus!
