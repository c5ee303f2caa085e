//! Cross-origin requests: which origins may read an answer, and the headers
//! that say so.

use crate::headers;
use crate::state;
use crate::state::AppState;
use crate::text;
use axum::http::HeaderMap;
use vstd::prelude::*;
use vstd::string::*;
use vstd::utf8::*;

verus! {

broadcast use vstd::string::group_string_axioms;

/// How many headers a grant sets at most.
pub const GRANT_HEADERS: usize = 7;

/// The star in the list of allowed origins allows all.
pub open spec fn allows_any(origins: Seq<Seq<char>>) -> bool {
    exists|i: int| 0 <= i < origins.len() && text::trimmed(#[trigger] origins[i]) == "*"@
}

/// The list names the origin.
pub open spec fn allows(origins: Seq<Seq<char>>, origin: Seq<char>) -> bool {
    exists|i: int| 0 <= i < origins.len() && text::trimmed(#[trigger] origins[i]) == origin
}

/// A request of this origin may be answered to its page; one without an
/// origin always may.
pub open spec fn origin_allowed(origins: Seq<Seq<char>>, origin: Option<Seq<char>>) -> bool {
    match origin {
        None => true,
        Some(o) => allows_any(origins) || allows(origins, o),
    }
}

/// The headers with the origin that may read the answer.
pub open spec fn with_allowed_origin(
    m: Map<Seq<char>, Seq<Seq<u8>>>,
    origin: Option<Seq<char>>,
    allow_any: bool,
) -> Map<Seq<char>, Seq<Seq<u8>>> {
    if allow_any {
        m.insert("access-control-allow-origin"@, seq![encode_utf8("*"@)])
    } else if origin is Some && headers::is_header_value(encode_utf8(origin->0)) {
        m.insert("access-control-allow-origin"@, seq![encode_utf8(origin->0)]).insert(
            "access-control-allow-credentials"@,
            seq![encode_utf8("true"@)],
        ).insert("vary"@, seq![encode_utf8("Origin"@)])
    } else {
        m
    }
}

/// The headers with a grant.
pub open spec fn with_grant(
    m: Map<Seq<char>, Seq<Seq<u8>>>,
    origin: Option<Seq<char>>,
    allow_any: bool,
    request_headers: Option<Seq<u8>>,
) -> Map<Seq<char>, Seq<Seq<u8>>> {
    let allow_headers = match request_headers {
        Some(h) => h,
        None => encode_utf8("authorization,content-type,accept,x-requested-with,cookie,origin"@),
    };
    with_allowed_origin(m, origin, allow_any).insert(
        "access-control-allow-methods"@,
        seq![encode_utf8("GET,POST,PUT,PATCH,DELETE,OPTIONS,HEAD"@)],
    ).insert("access-control-allow-headers"@, seq![allow_headers]).insert(
        "access-control-expose-headers"@,
        seq![encode_utf8("content-disposition"@)],
    ).insert("access-control-max-age"@, seq![encode_utf8("86400"@)])
}

/// A name in small letters that can stand in a header map.
spec fn is_plain_name(s: Seq<char>) -> bool {
    headers::is_header_name(s) && text::lowered(s) == s
}

/// A string of visible ASCII can be the value of a header.
proof fn lemma_visible_value(s: Seq<char>)
    requires
        forall|i: int| 0 <= i < s.len() ==> ' ' <= #[trigger] s[i] <= '~',
    ensures
        headers::is_header_value(encode_utf8(s)),
{
    assert(is_ascii_chars(s));
    is_ascii_chars_encode_utf8(s);
}

proof fn lemma_grant_names()
    ensures
        is_plain_name("access-control-allow-origin"@),
        is_plain_name("access-control-allow-credentials"@),
        is_plain_name("vary"@),
        is_plain_name("access-control-allow-methods"@),
        is_plain_name("access-control-allow-headers"@),
        is_plain_name("access-control-expose-headers"@),
        is_plain_name("access-control-max-age"@),
{
    reveal_strlit("access-control-allow-origin");
    reveal_strlit("access-control-allow-credentials");
    reveal_strlit("vary");
    reveal_strlit("access-control-allow-methods");
    reveal_strlit("access-control-allow-headers");
    reveal_strlit("access-control-expose-headers");
    reveal_strlit("access-control-max-age");
    assert(text::lowered("access-control-allow-origin"@) =~= "access-control-allow-origin"@);
    assert(text::lowered("access-control-allow-credentials"@)
        =~= "access-control-allow-credentials"@);
    assert(text::lowered("vary"@) =~= "vary"@);
    assert(text::lowered("access-control-allow-methods"@) =~= "access-control-allow-methods"@);
    assert(text::lowered("access-control-allow-headers"@) =~= "access-control-allow-headers"@);
    assert(text::lowered("access-control-expose-headers"@) =~= "access-control-expose-headers"@);
    assert(text::lowered("access-control-max-age"@) =~= "access-control-max-age"@);
}

proof fn lemma_grant_values()
    ensures
        headers::is_header_value(encode_utf8("*"@)),
        headers::is_header_value(encode_utf8("true"@)),
        headers::is_header_value(encode_utf8("Origin"@)),
        headers::is_header_value(encode_utf8("GET,POST,PUT,PATCH,DELETE,OPTIONS,HEAD"@)),
        headers::is_header_value(
            encode_utf8("authorization,content-type,accept,x-requested-with,cookie,origin"@),
        ),
        headers::is_header_value(encode_utf8("content-disposition"@)),
        headers::is_header_value(encode_utf8("86400"@)),
{
    reveal_strlit("*");
    reveal_strlit("true");
    reveal_strlit("Origin");
    reveal_strlit("GET,POST,PUT,PATCH,DELETE,OPTIONS,HEAD");
    reveal_strlit("authorization,content-type,accept,x-requested-with,cookie,origin");
    reveal_strlit("content-disposition");
    reveal_strlit("86400");
    lemma_visible_value("*"@);
    lemma_visible_value("true"@);
    lemma_visible_value("Origin"@);
    lemma_visible_value("GET,POST,PUT,PATCH,DELETE,OPTIONS,HEAD"@);
    lemma_visible_value("authorization,content-type,accept,x-requested-with,cookie,origin"@);
    lemma_visible_value("content-disposition"@);
    lemma_visible_value("86400"@);
}

/// The names that a grant sets.
pub open spec fn is_grant_name(name: Seq<char>) -> bool {
    ||| name == "access-control-allow-origin"@
    ||| name == "access-control-allow-credentials"@
    ||| name == "vary"@
    ||| name == "access-control-allow-methods"@
    ||| name == "access-control-allow-headers"@
    ||| name == "access-control-expose-headers"@
    ||| name == "access-control-max-age"@
}

/// The headers are the same but for those that a grant sets.
pub open spec fn same_but_grant(
    a: Map<Seq<char>, Seq<Seq<u8>>>,
    b: Map<Seq<char>, Seq<Seq<u8>>>,
) -> bool {
    forall|name: Seq<char>|
        !is_grant_name(name) ==> {
            &&& #[trigger] a.contains_key(name) == b.contains_key(name)
            &&& a.contains_key(name) ==> a[name] == b[name]
        }
}

/// Sets the headers that let a page of the given origin read the answer, and
/// says whether the map took them all. One with few names does.
pub fn inject_cors(
    headers: &mut HeaderMap,
    req_origin: &Option<String>,
    allow_any: bool,
    request_headers: Option<&[u8]>,
) -> (r: bool)
    requires
        request_headers matches Some(h) ==> headers::is_header_value(h@),
    ensures
        headers::room_for(*old(headers), GRANT_HEADERS as nat) ==> r,
        r ==> headers::header_values(*final(headers)) == with_grant(
            headers::header_values(*old(headers)),
            text::opt_view(*req_origin),
            allow_any,
            text::opt_view(request_headers),
        ),
        !r ==> same_but_grant(
            headers::header_values(*final(headers)),
            headers::header_values(*old(headers)),
        ),
{
    proof {
        lemma_grant_names();
        lemma_grant_values();
    }
    if allow_any {
        if !headers::header_insert(headers, "access-control-allow-origin", "*".as_bytes()) {
            return false;
        }
    } else if let Some(o) = req_origin {
        if let Some(v) = headers::parse_header_value(o.as_str()) {
            if !headers::header_insert(headers, "access-control-allow-origin", v.as_slice()) {
                return false;
            }
            if !headers::header_insert(
                headers,
                "access-control-allow-credentials",
                "true".as_bytes(),
            ) {
                return false;
            }
            if !headers::header_insert(headers, "vary", "Origin".as_bytes()) {
                return false;
            }
        }
    }
    if !headers::header_insert(
        headers,
        "access-control-allow-methods",
        "GET,POST,PUT,PATCH,DELETE,OPTIONS,HEAD".as_bytes(),
    ) {
        return false;
    }
    let allow_headers = match request_headers {
        Some(h) => h,
        None => "authorization,content-type,accept,x-requested-with,cookie,origin".as_bytes(),
    };
    if !headers::header_insert(headers, "access-control-allow-headers", allow_headers) {
        return false;
    }
    if !headers::header_insert(
        headers,
        "access-control-expose-headers",
        "content-disposition".as_bytes(),
    ) {
        return false;
    }
    headers::header_insert(headers, "access-control-max-age", "86400".as_bytes())
}

/// Whether the list, trimmed, holds a string.
fn lists(origins: &Vec<String>, s: &str) -> (r: bool)
    ensures
        r == allows(text::views(origins@), s@),
{
    let mut i: usize = 0;
    while i < origins.len()
        invariant
            i <= origins@.len(),
            forall|j: int|
                0 <= j < i ==> text::trimmed(#[trigger] text::views(origins@)[j]) != s@,
        decreases origins@.len() - i,
    {
        let t = text::trim(origins[i].as_str());
        if text::same(t.as_str(), s) {
            assert(text::trimmed(text::views(origins@)[i as int]) == s@);
            return true;
        }
        i = i + 1;
    }
    false
}

/// What a page may learn of an answer.
#[derive(Debug)]
pub struct CorsGrant {
    pub origin: Option<String>,
    pub allow_any: bool,
}

/// What becomes of a request.
#[derive(Debug)]
pub enum CorsDecision {
    /// It is answered at once, without a body.
    Preflight { status: u16, headers: HeaderMap },
    /// It goes on; its answer gets the grant, where there is one.
    Forward(Option<CorsGrant>),
}

/// A preflight: the browser asks whether a page may make a request.
pub open spec fn is_preflight(method: Seq<char>, headers: HeaderMap) -> bool {
    let values = headers::header_values(headers);
    &&& method == "OPTIONS"@
    &&& values.contains_key("origin"@)
    &&& values.contains_key("access-control-request-method"@)
}

/// What is decided on a request with these headers.
pub open spec fn is_decision(
    d: CorsDecision,
    origins: Seq<Seq<char>>,
    preflight: bool,
    headers: HeaderMap,
) -> bool {
    let origin = state::text_header(headers, "origin"@);
    let values = headers::header_values(headers);
    let asked = "access-control-request-headers"@;
    let request_headers = if values.contains_key(asked) {
        Some(values[asked][0])
    } else {
        None
    };
    if preflight {
        d matches CorsDecision::Preflight { status, headers: h } && status == 204
            && headers::header_values(h) == (if origin_allowed(origins, origin) {
            with_grant(
                Map::<Seq<char>, Seq<Seq<u8>>>::empty(),
                origin,
                allows_any(origins),
                request_headers,
            )
        } else {
            Map::<Seq<char>, Seq<Seq<u8>>>::empty()
        })
    } else if origin_allowed(origins, origin) && origin is Some {
        d matches CorsDecision::Forward(Some(g)) && text::opt_view(g.origin) == origin
            && g.allow_any == allows_any(origins)
    } else {
        d == CorsDecision::Forward(None)
    }
}

/// Decides on a request by the origins that are allowed at this moment: a
/// preflight is answered, every other request goes on, whatever its method.
pub fn dynamic_cors(state: &AppState, method: &str, headers: &HeaderMap) -> (r: CorsDecision)
    ensures
        is_decision(r, state@.cors_origins, is_preflight(method@, *headers), *headers),
{
    proof {
        reveal_strlit("origin");
        reveal_strlit("access-control-request-headers");
        reveal_strlit("access-control-request-method");
        assert(text::lowered("origin"@) =~= "origin"@);
        assert(text::lowered("access-control-request-headers"@)
            =~= "access-control-request-headers"@);
        assert(text::lowered("access-control-request-method"@)
            =~= "access-control-request-method"@);
        assert(headers::is_header_name("origin"@));
        assert(headers::is_header_name("access-control-request-headers"@));
        assert(headers::is_header_name("access-control-request-method"@));
    }
    let req_origin = state::read_header(headers, "origin");
    let asked = headers::header_first(headers, "access-control-request-headers");
    let allow_any = lists(&state.cors_origins, "*");
    let allowed = match &req_origin {
        None => true,
        Some(o) => allow_any || lists(&state.cors_origins, o.as_str()),
    };
    if text::same(method, "OPTIONS") && headers::header_first(headers, "origin").is_some()
        && headers::header_first(headers, "access-control-request-method").is_some() {
        let mut out = headers::new_headers();
        assert(headers::header_values(out) =~= Map::<Seq<char>, Seq<Seq<u8>>>::empty());
        if allowed {
            match &asked {
                Some(h) => {
                    let _ = inject_cors(&mut out, &req_origin, allow_any, Some(h.as_slice()));
                },
                None => {
                    let _ = inject_cors(&mut out, &req_origin, allow_any, None);
                },
            }
        }
        return CorsDecision::Preflight { status: 204, headers: out };
    }
    if allowed && req_origin.is_some() {
        CorsDecision::Forward(Some(CorsGrant { origin: req_origin, allow_any }))
    } else {
        CorsDecision::Forward(None)
    }
}

/// Sets the headers of a grant on an answer, and says whether the answer took
/// them all. One with few headers does.
pub fn grant_cors(headers: &mut HeaderMap, grant: &CorsGrant) -> (r: bool)
    ensures
        headers::room_for(*old(headers), GRANT_HEADERS as nat) ==> r,
        r ==> headers::header_values(*final(headers)) == with_grant(
            headers::header_values(*old(headers)),
            text::opt_view(grant.origin),
            grant.allow_any,
            None,
        ),
        !r ==> same_but_grant(
            headers::header_values(*final(headers)),
            headers::header_values(*old(headers)),
        ),
{
    inject_cors(headers, &grant.origin, grant.allow_any, None)
}

} // verus!
