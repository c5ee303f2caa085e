//! HTTP header maps, behind the few operations that the proxy makes on them.

use crate::text;
use axum::http::{HeaderMap, HeaderName, HeaderValue, Method};
use vstd::prelude::*;
use vstd::string::*;
use vstd::utf8::*;

verus! {

broadcast use vstd::string::group_string_axioms;

// ---------------------------------------------------------------------------
// Names and values
// ---------------------------------------------------------------------------

/// A character that may stand in the name of a header or of a method.
pub open spec fn is_token_char(c: char) -> bool {
    ||| 'a' <= c <= 'z'
    ||| 'A' <= c <= 'Z'
    ||| '0' <= c <= '9'
    ||| c == '!'
    ||| '#' <= c <= '\''
    ||| c == '*'
    ||| c == '+'
    ||| c == '-'
    ||| c == '.'
    ||| '^' <= c <= '`'
    ||| c == '|'
    ||| c == '~'
}

pub open spec fn is_token(s: Seq<char>) -> bool {
    s.len() > 0 && forall|i: int| 0 <= i < s.len() ==> is_token_char(#[trigger] s[i])
}

/// The name of a header, in capital or small letters.
pub open spec fn is_header_name(s: Seq<char>) -> bool {
    is_token(s) && s.len() <= 65535
}

/// A byte that may stand in the value of a header.
pub open spec fn is_value_byte(b: u8) -> bool {
    (b >= 32 && b != 127) || b == 9
}

pub open spec fn is_header_value(v: Seq<u8>) -> bool {
    forall|i: int| 0 <= i < v.len() ==> is_value_byte(#[trigger] v[i])
}

/// A byte that can be read as text.
pub open spec fn is_text_byte(b: u8) -> bool {
    (32 <= b && b < 127) || b == 9
}

/// The value of a header that can be read as text.
pub open spec fn is_text_value(v: Seq<u8>) -> bool {
    forall|i: int| 0 <= i < v.len() ==> is_text_byte(#[trigger] v[i])
}

/// The characters of a value that can be read as text.
pub open spec fn value_text(v: Seq<u8>) -> Seq<char> {
    v.map_values(|b: u8| b as char)
}

/// `axum::http::HeaderName::try_from`: a token of at most 65535 characters is
/// taken, with its capital letters made small; nothing else is.
#[verifier::external_body]
pub(crate) fn parse_header_name(s: &str) -> (r: Option<String>)
    ensures
        r is Some <==> is_header_name(s@),
        r matches Some(n) ==> n@ == text::lowered(s@),
{
    HeaderName::try_from(s).ok().map(|n| n.as_str().to_string())
}

/// `axum::http::HeaderValue::from_str`: the UTF-8 bytes of the string, where
/// none of them is a control byte other than the tab.
#[verifier::external_body]
pub(crate) fn parse_header_value(s: &str) -> (r: Option<Vec<u8>>)
    ensures
        r is Some <==> is_header_value(encode_utf8(s@)),
        r matches Some(v) ==> v@ == encode_utf8(s@),
{
    HeaderValue::from_str(s).ok().map(|v| v.as_bytes().to_vec())
}

/// `axum::http::HeaderValue::to_str`: the value as text, where every byte of
/// it is visible ASCII, a space or a tab.
#[verifier::external_body]
pub(crate) fn header_text(value: &[u8]) -> (r: Option<String>)
    ensures
        r is Some <==> is_text_value(value@),
        r matches Some(s) ==> s@ == value_text(value@),
{
    let value = HeaderValue::from_bytes(value).ok()?;
    value.to_str().ok().map(|s| s.to_string())
}

/// `axum::http::Method::from_bytes`: a token is taken as it stands; nothing
/// else is.
#[verifier::external_body]
pub(crate) fn parse_method(s: &str) -> (r: Option<String>)
    ensures
        r is Some <==> is_token(s@),
        r matches Some(m) ==> m@ == s@,
{
    Method::from_bytes(s.as_bytes()).ok().map(|m| m.as_str().to_string())
}

// ---------------------------------------------------------------------------
// Header maps
// ---------------------------------------------------------------------------

/// `axum::http::HeaderMap`, whose inside is not looked at.
#[verifier::external_type_specification]
#[verifier::external_body]
#[verifier::reject_recursive_types(T)]
pub struct ExHeaderMap<T>(axum::http::HeaderMap<T>);

/// `axum::http::HeaderValue`, the values in a header map.
#[verifier::external_type_specification]
#[verifier::external_body]
pub struct ExHeaderValue(axum::http::HeaderValue);

/// What a header map holds: under each name, in small letters, its values in
/// order. Not every name that a map can hold is one that can be parsed.
pub uninterp spec fn header_values(m: HeaderMap) -> Map<Seq<char>, Seq<Seq<u8>>>;

/// The number of names up to which a header map grows without fail, whatever
/// its names are. A map has at most 32768 places. Where names collide often it
/// doubles its places once a fifth of them are taken, and it takes no further
/// name where it would have to double the most that it can have.
pub const HEADER_NAMES_MAX: usize = 6554;

/// `n` further names fit into the map for certain. More may fit: how many
/// depends on how the map was filled.
pub open spec fn room_for(m: HeaderMap, n: nat) -> bool {
    header_values(m).dom().finite() && header_values(m).dom().len() + n <= HEADER_NAMES_MAX
}

/// The values that stand under `name` in a list of headers, in order.
pub open spec fn values_named(pairs: Seq<(Seq<char>, Seq<u8>)>, name: Seq<char>) -> Seq<Seq<u8>>
    decreases pairs.len(),
{
    if pairs.len() == 0 {
        Seq::<Seq<u8>>::empty()
    } else if pairs.last().0 == name {
        values_named(pairs.drop_last(), name).push(pairs.last().1)
    } else {
        values_named(pairs.drop_last(), name)
    }
}

/// The model of a list of headers.
pub open spec fn pair_views(v: Seq<(String, Vec<u8>)>) -> Seq<(Seq<char>, Seq<u8>)> {
    v.map_values(|p: (String, Vec<u8>)| (p.0@, p.1@))
}

/// `axum::http::HeaderMap::new`: a map without headers.
#[verifier::external_body]
pub(crate) fn new_headers() -> (r: HeaderMap)
    ensures
        header_values(r).dom() == Set::<Seq<char>>::empty(),
{
    HeaderMap::new()
}

/// `axum::http::HeaderMap::get`: the first value under the name, in capital
/// or small letters. A name that cannot be parsed is not asked for: it is not
/// found, though a map may hold it.
#[verifier::external_body]
pub(crate) fn header_first(m: &HeaderMap, name: &str) -> (r: Option<Vec<u8>>)
    requires
        is_header_name(name@),
    ensures
        r is Some <==> header_values(*m).contains_key(text::lowered(name@)),
        r matches Some(v) ==> {
            let values = header_values(*m)[text::lowered(name@)];
            values.len() > 0 && v@ == values[0] && is_header_value(v@)
        },
{
    m.get(name).map(|v| v.as_bytes().to_vec())
}

/// `axum::http::HeaderMap::get_all`: the values under the name, in order. A
/// name that cannot be parsed is not asked for.
#[verifier::external_body]
pub(crate) fn header_all(m: &HeaderMap, name: &str) -> (r: Vec<Vec<u8>>)
    requires
        is_header_name(name@),
    ensures
        text::views(r@) == (if header_values(*m).contains_key(text::lowered(name@)) {
            header_values(*m)[text::lowered(name@)]
        } else {
            Seq::<Seq<u8>>::empty()
        }),
{
    m.get_all(name).iter().map(|v| v.as_bytes().to_vec()).collect()
}

/// `axum::http::HeaderMap::iter`: every value with its name. The values of
/// one name come in their order, each name has a value, and the order of the
/// names is left open. A name is in small letters; that it could be parsed again
/// is not said, and is not so of one with a quotation mark.
#[verifier::external_body]
pub(crate) fn header_pairs(m: &HeaderMap) -> (r: Vec<(String, Vec<u8>)>)
    ensures
        forall|name: Seq<char>| #[trigger]
            values_named(pair_views(r@), name) == (if header_values(*m).contains_key(name) {
                header_values(*m)[name]
            } else {
                Seq::<Seq<u8>>::empty()
            }),
        forall|name: Seq<char>| #[trigger]
            header_values(*m).contains_key(name) ==> values_named(pair_views(r@), name).len() > 0,
        forall|i: int|
            0 <= i < r@.len() ==> text::lowered((#[trigger] r@[i]).0@) == r@[i].0@
                && is_header_value(r@[i].1@),
{
    m.iter().map(|(n, v)| (n.as_str().to_string(), v.as_bytes().to_vec())).collect()
}

/// `axum::http::HeaderMap::try_insert`: the value becomes the only one under
/// the name. A full map refuses, and then holds what it held. A map with few
/// names is not full; when exactly one with more is, is not said here.
#[verifier::external_body]
pub(crate) fn header_insert(m: &mut HeaderMap, name: &str, value: &[u8]) -> (r: bool)
    requires
        is_header_name(name@),
        is_header_value(value@),
    ensures
        room_for(*old(m), 1) ==> r,
        r ==> header_values(*final(m)) == header_values(*old(m)).insert(
            text::lowered(name@),
            seq![value@],
        ),
        !r ==> header_values(*final(m)) == header_values(*old(m)),
{
    let name = HeaderName::from_bytes(name.as_bytes()).unwrap();
    m.try_insert(name, HeaderValue::from_bytes(value).unwrap()).is_ok()
}

/// `axum::http::HeaderMap::try_append`: the value becomes the last one under
/// the name. A full map refuses, and then holds what it held. A map with few
/// names is not full; when exactly one with more is, is not said here.
#[verifier::external_body]
pub(crate) fn header_append(m: &mut HeaderMap, name: &str, value: &[u8]) -> (r: bool)
    requires
        is_header_name(name@),
        is_header_value(value@),
    ensures
        room_for(*old(m), 1) ==> r,
        r ==> header_values(*final(m)) == header_values(*old(m)).insert(
            text::lowered(name@),
            (if header_values(*old(m)).contains_key(text::lowered(name@)) {
                header_values(*old(m))[text::lowered(name@)]
            } else {
                Seq::<Seq<u8>>::empty()
            }).push(value@),
        ),
        !r ==> header_values(*final(m)) == header_values(*old(m)),
{
    let name = HeaderName::from_bytes(name.as_bytes()).unwrap();
    m.try_append(name, HeaderValue::from_bytes(value).unwrap()).is_ok()
}

} // verus!
