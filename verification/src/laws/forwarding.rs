//! Which headers go upstream and come back, and what previews and grants hold.

use crate::cors;
use crate::cors::CorsDecision;
use crate::headers;
use crate::laws::cookies;
use crate::laws::strings;
use crate::proxy;
use crate::proxy::HeaderChoice;
use crate::text;
use axum::http::HeaderMap;
use vstd::prelude::*;
use vstd::utf8::*;

verus! {

// ---------------------------------------------------------------------------
// Upstream
// ---------------------------------------------------------------------------

/// Entry `i` of the headers of a rule can be sent.
pub open spec fn is_sendable(extra: Seq<(Seq<char>, Seq<char>)>, i: int) -> bool {
    headers::is_header_name(extra[i].0) && headers::is_header_value(encode_utf8(extra[i].1))
}

/// Entry `i` of the headers of a rule can be sent under `name`.
pub open spec fn is_injected_at(
    extra: Seq<(Seq<char>, Seq<char>)>,
    i: int,
    name: Seq<char>,
) -> bool {
    0 <= i < extra.len() && is_sendable(extra, i) && text::lowered(extra[i].0) == name
}

/// A name that no rule header sets keeps what it had.
proof fn lemma_not_injected(
    m: Map<Seq<char>, Seq<Seq<u8>>>,
    extra: Seq<(Seq<char>, Seq<char>)>,
    name: Seq<char>,
)
    requires
        forall|i: int| !#[trigger] is_injected_at(extra, i, name),
    ensures
        proxy::with_injected(m, extra).contains_key(name) == m.contains_key(name),
        m.contains_key(name) ==> proxy::with_injected(m, extra)[name] == m[name],
    decreases extra.len(),
{
    if extra.len() > 0 {
        let front = extra.drop_last();
        assert forall|i: int| !#[trigger] is_injected_at(front, i, name) by {
            assert(!is_injected_at(extra, i, name));
        }
        lemma_not_injected(m, front, name);
        assert(!is_injected_at(extra, extra.len() - 1, name));
    }
}

/// A header of a rule is sent upstream in place of what the request has under
/// its name; of several that differ in capitals only the last is.
pub proof fn law_rule_header_wins(
    m: Map<Seq<char>, Seq<Seq<u8>>>,
    extra: Seq<(Seq<char>, Seq<char>)>,
    i: int,
)
    requires
        0 <= i < extra.len(),
        is_sendable(extra, i),
        forall|j: int| i < j ==> !#[trigger] is_injected_at(extra, j, text::lowered(extra[i].0)),
    ensures
        proxy::outbound_values(m, extra).contains_key(text::lowered(extra[i].0)),
        proxy::outbound_values(m, extra)[text::lowered(extra[i].0)] == seq![
            encode_utf8(extra[i].1),
        ],
    decreases extra.len(),
{
    let name = text::lowered(extra[i].0);
    let front = extra.drop_last();
    if i < front.len() {
        assert forall|j: int| i < j implies !#[trigger] is_injected_at(front, j, name) by {
            assert(!is_injected_at(extra, j, name));
        }
        assert(front[i] == extra[i]);
        law_rule_header_wins(m, front, i);
        assert(!is_injected_at(extra, extra.len() - 1, name));
    }
}

/// A header of the request that concerns its connection only is not sent
/// upstream; one stands there only where a rule sets it.
pub proof fn law_hop_by_hop_not_forwarded(
    m: Map<Seq<char>, Seq<Seq<u8>>>,
    extra: Seq<(Seq<char>, Seq<char>)>,
    name: Seq<char>,
)
    requires
        proxy::hop_by_hop(name),
        forall|i: int| !#[trigger] is_injected_at(extra, i, name),
    ensures
        !proxy::outbound_values(m, extra).contains_key(name),
{
    lemma_not_injected(proxy::last_values(m, HeaderChoice::EndToEnd), extra, name);
}

/// Every other header of the request is sent upstream with its last value,
/// where no rule sets it and its name can be parsed; nothing else is.
pub proof fn law_end_to_end_forwarded(
    m: Map<Seq<char>, Seq<Seq<u8>>>,
    extra: Seq<(Seq<char>, Seq<char>)>,
    name: Seq<char>,
)
    requires
        !proxy::hop_by_hop(name),
        forall|i: int| !#[trigger] is_injected_at(extra, i, name),
    ensures
        proxy::outbound_values(m, extra).contains_key(name) == (m.contains_key(name)
            && headers::is_header_name(name)),
        m.contains_key(name) && headers::is_header_name(name) ==> proxy::outbound_values(
            m,
            extra,
        )[name] == seq![m[name].last()],
{
    lemma_not_injected(proxy::last_values(m, HeaderChoice::EndToEnd), extra, name);
}

/// The hand-over to the HTTP client changes none of the headers that are sent
/// upstream: each has one value by then, and a name that can be parsed.
pub proof fn law_handover_changes_nothing(
    m: Map<Seq<char>, Seq<Seq<u8>>>,
    extra: Seq<(Seq<char>, Seq<char>)>,
)
    ensures
        proxy::last_values(proxy::outbound_values(m, extra), HeaderChoice::All)
            == proxy::outbound_values(m, extra),
{
    let base = proxy::last_values(m, HeaderChoice::EndToEnd);
    assert forall|name: Seq<char>| #[trigger] base.contains_key(name) implies base[name].len()
        == 1 && headers::is_header_name(name) by {}
    lemma_injected_single(base, extra);
    let out = proxy::outbound_values(m, extra);
    let handed = proxy::last_values(out, HeaderChoice::All);
    assert forall|name: Seq<char>| #[trigger] out.contains_key(name) implies handed[name]
        == out[name] by {
        assert(seq![out[name].last()] =~= out[name]);
    }
    assert(handed =~= out);
}

/// Setting rule headers on a map of single values under names that can be
/// parsed gives such a map.
proof fn lemma_injected_single(
    m: Map<Seq<char>, Seq<Seq<u8>>>,
    extra: Seq<(Seq<char>, Seq<char>)>,
)
    requires
        forall|name: Seq<char>| #[trigger]
            m.contains_key(name) ==> m[name].len() == 1 && headers::is_header_name(name),
    ensures
        forall|name: Seq<char>| #[trigger]
            proxy::with_injected(m, extra).contains_key(name) ==> proxy::with_injected(
                m,
                extra,
            )[name].len() == 1 && headers::is_header_name(name),
    decreases extra.len(),
{
    if extra.len() > 0 {
        lemma_injected_single(m, extra.drop_last());
        let before = proxy::with_injected(m, extra.drop_last());
        let now = proxy::with_injected(m, extra);
        if headers::is_header_name(extra.last().0) {
            proxy::law_lowered_name(extra.last().0);
        }
        assert forall|name: Seq<char>| #[trigger] now.contains_key(name) implies now[name].len()
            == 1 && headers::is_header_name(name) by {
            if before.contains_key(name) {
                assert(before[name].len() == 1);
            }
        }
    }
}

// ---------------------------------------------------------------------------
// Back
// ---------------------------------------------------------------------------

/// `Set-Cookie` does not concern the connection only.
proof fn lemma_cookies_are_end_to_end()
    ensures
        !proxy::hop_by_hop("set-cookie"@),
{
    reveal_strlit("set-cookie");
    reveal_strlit("connection");
    reveal_strlit("keep-alive");
    reveal_strlit("proxy-authenticate");
    reveal_strlit("proxy-authorization");
    reveal_strlit("te");
    reveal_strlit("trailers");
    reveal_strlit("transfer-encoding");
    reveal_strlit("upgrade");
    reveal_strlit("host");
    reveal_strlit("content-length");
    let name = "set-cookie"@;
    assert(text::lowered(name) =~= name);
    let all = proxy::hop_by_hop_names();
    if all.contains(name) {
        let i = choose|i: int| 0 <= i < all.len() && all[i] == name;
        assert(all[i].len() == 10 && all[i][0] == 's');
    }
}

/// A header of the answer that concerns its connection only is not sent back.
pub proof fn law_hop_by_hop_not_returned(
    m: Map<Seq<char>, Seq<Seq<u8>>>,
    rewrite: bool,
    origin_is_http: bool,
    name: Seq<char>,
)
    requires
        proxy::hop_by_hop(name),
    ensures
        !proxy::returned_values(m, rewrite, origin_is_http).contains_key(name),
{
    lemma_cookies_are_end_to_end();
}

/// Every other header of the answer, cookies apart, is sent back with its last
/// value, where its name can be parsed; nothing else is.
pub proof fn law_end_to_end_returned(
    m: Map<Seq<char>, Seq<Seq<u8>>>,
    rewrite: bool,
    origin_is_http: bool,
    name: Seq<char>,
)
    requires
        !proxy::hop_by_hop(name),
        name != "set-cookie"@,
    ensures
        proxy::returned_values(m, rewrite, origin_is_http).contains_key(name) == (
        m.contains_key(name) && headers::is_header_name(name)),
        m.contains_key(name) && headers::is_header_name(name) ==> proxy::returned_values(
            m,
            rewrite,
            origin_is_http,
        )[name] == seq![m[name].last()],
{
}

/// A value that can be read as text is its text, written as bytes.
pub proof fn law_text_value(v: Seq<u8>)
    requires
        headers::is_text_value(v),
    ensures
        encode_utf8(headers::value_text(v)) == v,
        headers::is_header_value(v),
{
    let s = headers::value_text(v);
    assert forall|i: int| 0 <= i < s.len() implies s[i] as int == v[i] as int by {
        assert(headers::is_text_byte(v[i]));
    }
    assert(is_ascii_chars(s)) by {
        assert forall|i: int| 0 <= i < s.len() implies '\0' <= #[trigger] s[i] <= '\u{7f}' by {
            assert(headers::is_text_byte(v[i]));
        }
    }
    is_ascii_chars_encode_utf8(s);
    assert(encode_utf8(s) =~= v);
    assert forall|i: int| 0 <= i < v.len() implies headers::is_value_byte(#[trigger] v[i]) by {
        assert(headers::is_text_byte(v[i]));
    }
}

/// Cookies that are not rewritten are sent back as they came, all of them and
/// in their order, where they can be read as text.
pub proof fn law_cookies_unchanged(values: Seq<Seq<u8>>, origin_is_http: bool)
    requires
        forall|i: int| 0 <= i < values.len() ==> headers::is_text_value(#[trigger] values[i]),
    ensures
        proxy::cookie_values(values, false, origin_is_http) == values,
    decreases values.len(),
{
    if values.len() > 0 {
        let front = values.drop_last();
        assert(forall|i: int| 0 <= i < front.len() ==> front[i] == values[i]);
        law_cookies_unchanged(front, origin_is_http);
        assert(headers::is_text_value(values[values.len() - 1]));
        law_text_value(values.last());
        assert(front.push(values.last()) =~= values);
    }
}

/// Characters that can be read from a header.
pub open spec fn is_plain(s: Seq<char>) -> bool {
    forall|i: int| 0 <= i < s.len() ==> (' ' <= #[trigger] s[i] <= '~') || s[i] == '\t'
}

/// Plain characters can stand in a header.
proof fn lemma_plain_value(s: Seq<char>)
    requires
        is_plain(s),
    ensures
        headers::is_header_value(encode_utf8(s)),
{
    assert(is_ascii_chars(s)) by {
        assert forall|i: int| 0 <= i < s.len() implies '\0' <= #[trigger] s[i] <= '\u{7f}' by {}
    }
    is_ascii_chars_encode_utf8(s);
    let v = encode_utf8(s);
    assert forall|i: int| 0 <= i < v.len() implies headers::is_value_byte(#[trigger] v[i]) by {
        assert(v[i] as int == s[i] as int);
    }
}

/// The pieces of a plain string are plain.
proof fn lemma_plain_pieces(s: Seq<char>, sep: char)
    requires
        is_plain(s),
    ensures
        text::pieces(s, sep).len() > 0,
        forall|i: int|
            0 <= i < text::pieces(s, sep).len() ==> is_plain(#[trigger] text::pieces(s, sep)[i]),
    decreases s.len(),
{
    let all = text::pieces(s, sep);
    if s.len() > 0 {
        let before = text::pieces(s.drop_last(), sep);
        lemma_plain_pieces(s.drop_last(), sep);
        assert forall|i: int| 0 <= i < all.len() implies is_plain(#[trigger] all[i]) by {
            if s.last() != sep && i == all.len() - 1 {
                assert(is_plain(before[before.len() - 1]));
                assert(s[s.len() - 1] == s.last());
            } else if i < before.len() {
                assert(all[i] == before[i]);
            }
        }
    }
}

/// What is joined of plain strings is plain.
proof fn lemma_plain_joined(parts: Seq<Seq<char>>, sep: Seq<char>)
    requires
        is_plain(sep),
        forall|i: int| 0 <= i < parts.len() ==> is_plain(#[trigger] parts[i]),
    ensures
        is_plain(text::joined(parts, sep)),
    decreases parts.len(),
{
    if parts.len() == 1 {
        assert(is_plain(parts[0]));
    } else if parts.len() > 1 {
        let front = parts.drop_last();
        assert(forall|i: int| 0 <= i < front.len() ==> front[i] == parts[i]);
        lemma_plain_joined(front, sep);
        assert(is_plain(parts[parts.len() - 1]));
    }
}

/// What is left of a cookie of plain characters is plain.
proof fn lemma_plain_cookie(s: Seq<char>, origin_is_http: bool)
    requires
        is_plain(s),
    ensures
        is_plain(proxy::rewritten_cookie(s, origin_is_http)),
{
    let raw = text::pieces(s, ';');
    let trims = raw.map_values(|p: Seq<char>| text::trimmed(p));
    let pred = |p: Seq<char>| p.len() > 0;
    let parts = proxy::cookie_parts(s);
    let stay = proxy::staying_parts(parts, origin_is_http);
    lemma_plain_pieces(s, ';');
    cookies::law_staying_parts(parts, origin_is_http);
    assert forall|i: int| 0 <= i < stay.len() implies is_plain(#[trigger] stay[i]) by {
        let k = choose|k: int| 0 <= k < parts.len() && parts[k] == stay[i];
        assert(parts.contains(parts[k]));
        trims.lemma_filter_contains_rev(pred, parts[k]);
        let n = choose|n: int| 0 <= n < trims.len() && trims[n] == parts[k];
        let p = raw[n];
        assert(is_plain(p));
        strings::law_trim_front(p);
        strings::law_trim_back(text::trim_front(p));
        assert(is_plain(text::trim_front(p)));
        assert(is_plain(text::trimmed(p)));
    }
    reveal_strlit("; ");
    lemma_plain_joined(stay, "; "@);
}

/// What is left of a cookie that can be read as text can stand in a header.
pub proof fn law_rewritten_value(v: Seq<u8>, origin_is_http: bool)
    requires
        headers::is_text_value(v),
    ensures
        headers::is_header_value(
            encode_utf8(proxy::rewritten_cookie(headers::value_text(v), origin_is_http)),
        ),
{
    let s = headers::value_text(v);
    assert forall|i: int| 0 <= i < s.len() implies (' ' <= #[trigger] s[i] <= '~') || s[i]
        == '\t' by {
        assert(headers::is_text_byte(v[i]));
    }
    lemma_plain_cookie(s, origin_is_http);
    lemma_plain_value(proxy::rewritten_cookie(s, origin_is_http));
}

/// Every cookie that is rewritten is sent back, in its place, where all can be
/// read as text.
pub proof fn law_cookies_rewritten(values: Seq<Seq<u8>>, origin_is_http: bool)
    requires
        forall|i: int| 0 <= i < values.len() ==> headers::is_text_value(#[trigger] values[i]),
    ensures
        proxy::cookie_values(values, true, origin_is_http) == values.map_values(
            |v: Seq<u8>|
                encode_utf8(proxy::rewritten_cookie(headers::value_text(v), origin_is_http)),
        ),
    decreases values.len(),
{
    let all = values.map_values(
        |v: Seq<u8>|
            encode_utf8(proxy::rewritten_cookie(headers::value_text(v), origin_is_http)),
    );
    if values.len() > 0 {
        let front = values.drop_last();
        assert(forall|i: int| 0 <= i < front.len() ==> front[i] == values[i]);
        law_cookies_rewritten(front, origin_is_http);
        assert(headers::is_text_value(values[values.len() - 1]));
        law_rewritten_value(values.last(), origin_is_http);
        assert(proxy::cookie_values(values, true, origin_is_http) =~= all);
    } else {
        assert(proxy::cookie_values(values, true, origin_is_http) =~= all);
    }
}

// ---------------------------------------------------------------------------
// Previews
// ---------------------------------------------------------------------------

/// A preview shows something, and no more than the limit and an ellipsis.
pub proof fn law_preview_bounded(s: Seq<char>)
    ensures
        proxy::preview_of(s) is Some <==> !text::is_blank(s),
        proxy::preview_of(s) matches Some(p) ==> 0 < p.len() <= proxy::PREVIEW_MAX + 1,
        0 < text::trimmed(s).len() <= proxy::PREVIEW_MAX ==> proxy::preview_of(s) == Some(
            text::trimmed(s),
        ),
{
    reveal_strlit("…");
}

/// Nothing is shown of an empty body, of one that is too large, and of one
/// that is no text.
pub proof fn law_no_preview(content_type: Option<Seq<char>>, body: Seq<u8>)
    requires
        body.len() == 0 || body.len() > proxy::PREVIEWED_BODY_MAX || (content_type is Some
            && !proxy::is_textual(text::lowered(content_type->0))),
    ensures
        proxy::preview(content_type, body) is None,
{
}

// ---------------------------------------------------------------------------
// Grants
// ---------------------------------------------------------------------------

/// A request is answered at once only where it is a preflight; every other
/// one goes on, whatever its method.
pub proof fn law_only_preflights_are_answered(
    d: CorsDecision,
    origins: Seq<Seq<char>>,
    method: Seq<char>,
    headers: HeaderMap,
)
    requires
        cors::is_decision(d, origins, cors::is_preflight(method, headers), headers),
    ensures
        d is Preflight <==> cors::is_preflight(method, headers),
        !headers::header_values(headers).contains_key("origin"@) ==> d == CorsDecision::Forward(
            None,
        ),
{
}

/// The names that a grant sets are all different.
pub proof fn law_grant_names_differ()
    ensures
        "access-control-allow-origin"@ != "access-control-allow-credentials"@,
        "access-control-allow-origin"@ != "vary"@,
        "access-control-allow-origin"@ != "access-control-allow-methods"@,
        "access-control-allow-origin"@ != "access-control-allow-headers"@,
        "access-control-allow-origin"@ != "access-control-expose-headers"@,
        "access-control-allow-origin"@ != "access-control-max-age"@,
        "access-control-allow-credentials"@ != "vary"@,
        "access-control-allow-credentials"@ != "access-control-allow-methods"@,
        "access-control-allow-credentials"@ != "access-control-allow-headers"@,
        "access-control-allow-credentials"@ != "access-control-expose-headers"@,
        "access-control-allow-credentials"@ != "access-control-max-age"@,
        "vary"@ != "access-control-allow-methods"@,
        "vary"@ != "access-control-allow-headers"@,
        "vary"@ != "access-control-expose-headers"@,
        "vary"@ != "access-control-max-age"@,
        "access-control-allow-methods"@ != "access-control-allow-headers"@,
        "access-control-allow-methods"@ != "access-control-expose-headers"@,
        "access-control-allow-methods"@ != "access-control-max-age"@,
        "access-control-allow-headers"@ != "access-control-expose-headers"@,
        "access-control-allow-headers"@ != "access-control-max-age"@,
        "access-control-expose-headers"@ != "access-control-max-age"@,
{
    reveal_strlit("access-control-allow-origin");
    reveal_strlit("access-control-allow-credentials");
    reveal_strlit("vary");
    reveal_strlit("access-control-allow-methods");
    reveal_strlit("access-control-allow-headers");
    reveal_strlit("access-control-expose-headers");
    reveal_strlit("access-control-max-age");
    assert("access-control-allow-origin"@.len() == 27);
    assert("access-control-allow-credentials"@.len() == 32);
    assert("vary"@.len() == 4);
    assert("access-control-allow-methods"@.len() == 28);
    assert("access-control-allow-headers"@.len() == 28);
    assert("access-control-expose-headers"@.len() == 29);
    assert("access-control-max-age"@.len() == 22);
    assert("access-control-allow-methods"@[21] == 'm');
    assert("access-control-allow-headers"@[21] == 'h');
}

/// Where every origin is allowed, none is allowed to send credentials.
pub proof fn law_no_credentials_with_star(
    origin: Option<Seq<char>>,
    request_headers: Option<Seq<u8>>,
)
    ensures
        ({
            let m = cors::with_grant(
                Map::<Seq<char>, Seq<Seq<u8>>>::empty(),
                origin,
                true,
                request_headers,
            );
            &&& m["access-control-allow-origin"@] == seq![encode_utf8("*"@)]
            &&& !m.contains_key("access-control-allow-credentials"@)
        }),
{
    law_grant_names_differ();
}

/// An origin that is allowed by name is named in the answer, which may then be
/// read with credentials.
pub proof fn law_named_origin_granted(
    m: Map<Seq<char>, Seq<Seq<u8>>>,
    origin: Seq<char>,
    request_headers: Option<Seq<u8>>,
)
    requires
        headers::is_header_value(encode_utf8(origin)),
    ensures
        ({
            let g = cors::with_grant(m, Some(origin), false, request_headers);
            &&& g["access-control-allow-origin"@] == seq![encode_utf8(origin)]
            &&& g["access-control-allow-credentials"@] == seq![encode_utf8("true"@)]
        }),
{
    law_grant_names_differ();
}

} // verus!
