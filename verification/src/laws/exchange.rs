//! What is sent upstream and what comes back, header by header and field by
//! field.

use crate::config::RuleView;
use crate::cors;
use crate::cors::CorsDecision;
use crate::headers;
use crate::laws::forwarding;
use crate::laws::strings;
use crate::proxy;
use crate::proxy::{HeaderChoice, Outbound, ProxyReply, RouteView, UpstreamOutcome};
use crate::state;
use crate::state::LogTime;
use crate::text;
use axum::http::HeaderMap;
use vstd::prelude::*;
use vstd::utf8::*;

verus! {

// ---------------------------------------------------------------------------
// Names
// ---------------------------------------------------------------------------

/// The headers that concern one connection only are ten, in capital or small
/// letters, and no others.
pub proof fn law_hop_by_hop(name: Seq<char>)
    ensures
        ({
            let n = text::lowered(name);
            proxy::hop_by_hop(name) <==> n == "connection"@ || n == "keep-alive"@ || n
                == "proxy-authenticate"@ || n == "proxy-authorization"@ || n == "te"@ || n
                == "trailers"@ || n == "transfer-encoding"@ || n == "upgrade"@ || n == "host"@ || n
                == "content-length"@
        }),
{
    let all = proxy::hop_by_hop_names();
    assert(all[0] == "connection"@);
    assert(all[1] == "keep-alive"@);
    assert(all[2] == "proxy-authenticate"@);
    assert(all[3] == "proxy-authorization"@);
    assert(all[4] == "te"@);
    assert(all[5] == "trailers"@);
    assert(all[6] == "transfer-encoding"@);
    assert(all[7] == "upgrade"@);
    assert(all[8] == "host"@);
    assert(all[9] == "content-length"@);
    let n = text::lowered(name);
    if all.contains(n) {
        let i = choose|i: int| 0 <= i < all.len() && all[i] == n;
        assert(all.len() == 10);
    }
}

/// The name of a header or of a method is made of letters, digits and these
/// signs, at least one of them; that of a header of at most 65535.
pub proof fn law_names(s: Seq<char>)
    ensures
        headers::is_header_name(s) <==> headers::is_token(s) && s.len() <= 65535,
        headers::is_token(s) <==> 0 < s.len() && forall|i: int|
            0 <= i < s.len() ==> {
                ||| 'a' <= #[trigger] s[i] <= 'z'
                ||| 'A' <= s[i] <= 'Z'
                ||| '0' <= s[i] <= '9'
                ||| "!#$%&'*+-.^_`|~"@.contains(s[i])
            },
{
    reveal_strlit("!#$%&'*+-.^_`|~");
    let signs = "!#$%&'*+-.^_`|~"@;
    assert forall|c: char| #[trigger] headers::is_token_char(c) <==> {
        ||| 'a' <= c <= 'z'
        ||| 'A' <= c <= 'Z'
        ||| '0' <= c <= '9'
        ||| signs.contains(c)
    } by {
        if signs.contains(c) {
            let i = choose|i: int| 0 <= i < signs.len() && signs[i] == c;
            assert(signs.len() == 15);
        }
        assert(signs[0] == '!' && signs[1] == '#' && signs[2] == '$' && signs[3] == '%'
            && signs[4] == '&' && signs[5] == '\'' && signs[6] == '*' && signs[7] == '+'
            && signs[8] == '-' && signs[9] == '.' && signs[10] == '^' && signs[11] == '_'
            && signs[12] == '`' && signs[13] == '|' && signs[14] == '~');
    }
    if headers::is_token(s) {
        assert forall|i: int| 0 <= i < s.len() implies {
            ||| 'a' <= #[trigger] s[i] <= 'z'
            ||| 'A' <= s[i] <= 'Z'
            ||| '0' <= s[i] <= '9'
            ||| signs.contains(s[i])
        } by {
            assert(headers::is_token_char(s[i]));
        }
    }
}

/// A value holds no control byte but the tab.
pub proof fn law_header_value(v: Seq<u8>)
    ensures
        headers::is_header_value(v) <==> forall|i: int|
            0 <= i < v.len() ==> (#[trigger] v[i] == 9 || (v[i] >= 32 && v[i] != 127)),
{
    assert(forall|b: u8| #[trigger]
        headers::is_value_byte(b) <==> (b == 9 || (b >= 32 && b != 127)));
}

/// A header map takes further names for certain up to 6554 in all.
pub proof fn law_room(m: HeaderMap, n: nat)
    ensures
        headers::room_for(m, n) <==> headers::header_values(m).dom().finite()
            && headers::header_values(m).dom().len() + n <= 6554,
{
}

// ---------------------------------------------------------------------------
// Upstream
// ---------------------------------------------------------------------------

/// No header of the rule that can be sent has this name.
pub open spec fn is_not_set(rule: RuleView, name: Seq<char>) -> bool {
    forall|i: int|
        0 <= i < rule.headers.len() && text::lowered((#[trigger] rule.headers[i]).0) == name
            ==> !(headers::is_header_name(rule.headers[i].0) && headers::is_header_value(
            encode_utf8(rule.headers[i].1),
        ))
}

proof fn lemma_not_set(rule: RuleView, name: Seq<char>)
    requires
        is_not_set(rule, name),
    ensures
        forall|i: int| !#[trigger] forwarding::is_injected_at(rule.headers, i, name),
{
    assert forall|i: int| !#[trigger] forwarding::is_injected_at(rule.headers, i, name) by {
        if 0 <= i < rule.headers.len() {
            assert(text::lowered(rule.headers[i].0) == name ==> !(headers::is_header_name(
                rule.headers[i].0,
            ) && headers::is_header_value(encode_utf8(rule.headers[i].1))));
        }
    }
}

/// A header of the request whose name is none of the ten, and which the rule
/// does not set, is sent upstream with its last value; nothing is sent under a
/// name that neither the request nor the rule has.
pub proof fn law_header_sent(
    o: Outbound,
    route: RouteView,
    method: Seq<char>,
    query: Option<Seq<char>>,
    request: HeaderMap,
    body: Seq<u8>,
    name: Seq<char>,
)
    requires
        proxy::is_outbound(o, route, method, query, request, body),
        is_not_set(route.rule, name),
        headers::is_header_name(name),
        text::lowered(name) != "connection"@,
        text::lowered(name) != "keep-alive"@,
        text::lowered(name) != "proxy-authenticate"@,
        text::lowered(name) != "proxy-authorization"@,
        text::lowered(name) != "te"@,
        text::lowered(name) != "trailers"@,
        text::lowered(name) != "transfer-encoding"@,
        text::lowered(name) != "upgrade"@,
        text::lowered(name) != "host"@,
        text::lowered(name) != "content-length"@,
    ensures
        headers::header_values(o.headers).contains_key(name) == headers::header_values(
            request,
        ).contains_key(name),
        headers::header_values(request).contains_key(name) ==> headers::header_values(
            o.headers,
        )[name] == seq![headers::header_values(request)[name].last()],
{
    let m = headers::header_values(request);
    law_hop_by_hop(name);
    lemma_not_set(route.rule, name);
    forwarding::law_end_to_end_forwarded(m, route.rule.headers, name);
    forwarding::law_handover_changes_nothing(m, route.rule.headers);
}

/// A header of the request under one of the ten names is not sent upstream,
/// where the rule does not set it; nor is one whose name cannot be parsed.
pub proof fn law_header_not_sent(
    o: Outbound,
    route: RouteView,
    method: Seq<char>,
    query: Option<Seq<char>>,
    request: HeaderMap,
    body: Seq<u8>,
    name: Seq<char>,
)
    requires
        proxy::is_outbound(o, route, method, query, request, body),
        is_not_set(route.rule, name),
        ({
            let n = text::lowered(name);
            n == "connection"@ || n == "keep-alive"@ || n == "proxy-authenticate"@ || n
                == "proxy-authorization"@ || n == "te"@ || n == "trailers"@ || n
                == "transfer-encoding"@ || n == "upgrade"@ || n == "host"@ || n
                == "content-length"@ || !headers::is_header_name(name)
        }),
    ensures
        !headers::header_values(o.headers).contains_key(name),
{
    let m = headers::header_values(request);
    law_hop_by_hop(name);
    lemma_not_set(route.rule, name);
    if proxy::hop_by_hop(name) {
        forwarding::law_hop_by_hop_not_forwarded(m, route.rule.headers, name);
    } else {
        forwarding::law_end_to_end_forwarded(m, route.rule.headers, name);
    }
    forwarding::law_handover_changes_nothing(m, route.rule.headers);
}

/// A header that the rule sets is sent upstream with the value of the rule
/// alone, whatever its name and whatever the request has; of several under one
/// name the last that can be sent.
pub proof fn law_rule_header_sent(
    o: Outbound,
    route: RouteView,
    method: Seq<char>,
    query: Option<Seq<char>>,
    request: HeaderMap,
    body: Seq<u8>,
    i: int,
)
    requires
        proxy::is_outbound(o, route, method, query, request, body),
        0 <= i < route.rule.headers.len(),
        headers::is_header_name(route.rule.headers[i].0),
        headers::is_header_value(encode_utf8(route.rule.headers[i].1)),
        forall|j: int|
            i < j < route.rule.headers.len() && text::lowered(
                (#[trigger] route.rule.headers[j]).0,
            ) == text::lowered(route.rule.headers[i].0) ==> !(headers::is_header_name(
                route.rule.headers[j].0,
            ) && headers::is_header_value(encode_utf8(route.rule.headers[j].1))),
    ensures
        headers::header_values(o.headers).contains_key(text::lowered(route.rule.headers[i].0)),
        headers::header_values(o.headers)[text::lowered(route.rule.headers[i].0)] == seq![
            encode_utf8(route.rule.headers[i].1),
        ],
{
    let m = headers::header_values(request);
    let extra = route.rule.headers;
    let name = text::lowered(extra[i].0);
    assert forall|j: int| i < j implies !#[trigger] forwarding::is_injected_at(extra, j, name) by {
        if j < extra.len() && text::lowered(extra[j].0) == name {
            assert(!(headers::is_header_name(extra[j].0) && headers::is_header_value(
                encode_utf8(extra[j].1),
            )));
        }
    }
    forwarding::law_rule_header_wins(m, extra, i);
    forwarding::law_handover_changes_nothing(m, extra);
}

/// What is sent upstream: the method of the request where it can be sent, the
/// address of the route, and the body byte for byte.
pub proof fn law_sent(
    o: Outbound,
    route: RouteView,
    method: Seq<char>,
    query: Option<Seq<char>>,
    request: HeaderMap,
    body: Seq<u8>,
)
    requires
        proxy::is_outbound(o, route, method, query, request, body),
    ensures
        o.url@ == route.url,
        o.body@ == body,
        headers::is_token(method) ==> o.method@ == method,
        !headers::is_token(method) ==> o.method@ == "GET"@,
        text::opt_view(o.req_preview) == proxy::request_preview_of(
            query,
            proxy::preview(state::text_header(request, "content-type"@), body),
        ),
{
}

/// The hand-over to the HTTP client takes every header whose name can be
/// parsed, with its last value, and no other.
pub proof fn law_handed_over(m: Map<Seq<char>, Seq<Seq<u8>>>, name: Seq<char>)
    ensures
        ({
            let r = proxy::last_values(m, HeaderChoice::All);
            &&& r.contains_key(name) <==> m.contains_key(name) && headers::is_header_name(name)
            &&& r.contains_key(name) ==> r[name] == seq![m[name].last()]
        }),
{
}

/// The same of the headers that a request is sent with, before the hand-over:
/// those under none of the ten names go with their last value, where the rule
/// does not set them.
pub proof fn law_header_collected(
    m: Map<Seq<char>, Seq<Seq<u8>>>,
    rule: RuleView,
    name: Seq<char>,
)
    requires
        is_not_set(rule, name),
    ensures
        ({
            let n = text::lowered(name);
            let ten = n == "connection"@ || n == "keep-alive"@ || n == "proxy-authenticate"@ || n
                == "proxy-authorization"@ || n == "te"@ || n == "trailers"@ || n
                == "transfer-encoding"@ || n == "upgrade"@ || n == "host"@ || n
                == "content-length"@;
            let goes = m.contains_key(name) && headers::is_header_name(name) && !ten;
            let r = proxy::outbound_values(m, rule.headers);
            &&& r.contains_key(name) <==> goes
            &&& goes ==> r[name] == seq![m[name].last()]
        }),
{
    law_hop_by_hop(name);
    lemma_not_set(rule, name);
    if proxy::hop_by_hop(name) {
        forwarding::law_hop_by_hop_not_forwarded(m, rule.headers, name);
    } else {
        forwarding::law_end_to_end_forwarded(m, rule.headers, name);
    }
}

// ---------------------------------------------------------------------------
// Back
// ---------------------------------------------------------------------------

/// A header of the answer whose name is none of the ten and not `Set-Cookie`
/// is sent back with its last value; one of the ten is not, and nothing is sent
/// back that the answer does not have.
pub proof fn law_header_returned(
    m: Map<Seq<char>, Seq<Seq<u8>>>,
    rewrite: bool,
    http: bool,
    name: Seq<char>,
)
    requires
        name != "set-cookie"@,
    ensures
        ({
            let n = text::lowered(name);
            let ten = n == "connection"@ || n == "keep-alive"@ || n == "proxy-authenticate"@ || n
                == "proxy-authorization"@ || n == "te"@ || n == "trailers"@ || n
                == "transfer-encoding"@ || n == "upgrade"@ || n == "host"@ || n
                == "content-length"@;
            let goes = m.contains_key(name) && headers::is_header_name(name) && !ten;
            let r = proxy::returned_values(m, rewrite, http);
            &&& r.contains_key(name) <==> goes
            &&& goes ==> r[name] == seq![m[name].last()]
        }),
{
    law_hop_by_hop(name);
    if proxy::hop_by_hop(name) {
        forwarding::law_hop_by_hop_not_returned(m, rewrite, http, name);
    } else {
        forwarding::law_end_to_end_returned(m, rewrite, http, name);
    }
}

/// The cookies that are sent back are those of the answer, as they are handed
/// on one by one; there is no `Set-Cookie` where none is left.
pub proof fn law_cookies_returned(m: Map<Seq<char>, Seq<Seq<u8>>>, rewrite: bool, http: bool)
    ensures
        ({
            let r = proxy::returned_values(m, rewrite, http);
            let sent = proxy::cookie_values(m["set-cookie"@], rewrite, http);
            &&& r.contains_key("set-cookie"@) <==> m.contains_key("set-cookie"@) && sent.len() > 0
            &&& r.contains_key("set-cookie"@) ==> r["set-cookie"@] == sent
        }),
{
}

/// One cookie more is sent back behind the others: as it came, or rewritten
/// where the frontend asks for it. One that cannot be read as text is not.
pub proof fn law_one_cookie_more(values: Seq<Seq<u8>>, v: Seq<u8>, rewrite: bool, http: bool)
    ensures
        proxy::cookie_values(Seq::<Seq<u8>>::empty(), rewrite, http).len() == 0,
        proxy::cookie_values(values.push(v), rewrite, http) == (if forall|i: int|
            0 <= i < v.len() ==> (32 <= #[trigger] v[i] <= 126 || v[i] == 9) {
            proxy::cookie_values(values, rewrite, http).push(
                if rewrite {
                    encode_utf8(proxy::rewritten_cookie(headers::value_text(v), http))
                } else {
                    v
                },
            )
        } else {
            proxy::cookie_values(values, rewrite, http)
        }),
{
    assert(values.push(v).drop_last() =~= values);
    assert(values.push(v).last() == v);
    assert(forall|b: u8| #[trigger] headers::is_text_byte(b) <==> (32 <= b <= 126 || b == 9));
    let readable = forall|i: int|
        0 <= i < v.len() ==> (32 <= #[trigger] v[i] <= 126 || v[i] == 9);
    assert(headers::is_text_value(v) == readable);
    if readable {
        if rewrite {
            forwarding::law_rewritten_value(v, http);
        } else {
            forwarding::law_text_value(v);
        }
    }
}

/// The characters of a text value are its bytes.
pub proof fn law_value_text(v: Seq<u8>)
    requires
        headers::is_text_value(v),
    ensures
        headers::value_text(v).len() == v.len(),
        forall|i: int|
            0 <= i < v.len() ==> #[trigger] headers::value_text(v)[i] as int == v[i] as int,
{
    assert forall|i: int| 0 <= i < v.len() implies #[trigger] headers::value_text(v)[i] as int
        == v[i] as int by {
        assert(headers::is_text_byte(v[i]));
    }
}

/// What is sent back: the status and the body of the answer, byte for byte,
/// and its headers as they are sent back; 502 with the reason where the
/// upstream could not be reached or its answer not be read.
pub proof fn law_reply(r: ProxyReply, route: RouteView, outcome: UpstreamOutcome)
    requires
        proxy::is_reply(r, route, outcome),
    ensures
        outcome matches UpstreamOutcome::Unreachable(e) ==> {
            &&& r matches ProxyReply::Failed(x)
            &&& x.status == 502
            &&& x.error@ == "上游请求失败: "@ + e@
        },
        outcome matches UpstreamOutcome::Broken(e) ==> {
            &&& r matches ProxyReply::Failed(x)
            &&& x.status == 502
            &&& x.error@ == "读取上游响应失败: "@ + e@
        },
        outcome matches UpstreamOutcome::Answered { status, headers, body } ==> {
            &&& r matches ProxyReply::Forwarded { status: s, headers: h, body: b }
            &&& s == status
            &&& b@ == body@
            &&& headers::header_values(h) == proxy::returned_values(
                headers::header_values(headers),
                route.rewrite_cookies,
                route.origin_is_http,
            )
        },
{
}

/// The answer is sent back for certain where it failed, or has few headers.
pub proof fn law_outcome_fits(outcome: UpstreamOutcome)
    ensures
        outcome is Unreachable || outcome is Broken ==> proxy::outcome_fits(outcome),
        outcome matches UpstreamOutcome::Answered { headers, .. } ==> (
        headers::header_values(headers).dom().finite() && headers::header_values(
            headers,
        ).dom().len() < 6554 ==> proxy::outcome_fits(outcome)),
{
}

/// What the log keeps of a request: what it was, where it went, by which rule,
/// and what came of it.
pub proof fn law_log_entry(
    route: RouteView,
    method: Seq<char>,
    req_preview: Option<Seq<char>>,
    time: LogTime,
    duration_ms: u64,
    outcome: UpstreamOutcome,
)
    ensures
        ({
            let l = proxy::entry_of(route, method, req_preview, time, duration_ms, outcome);
            &&& l.time == time
            &&& l.method == method
            &&& l.path == route.path
            &&& l.target == route.url
            &&& l.duration_ms == duration_ms
            &&& l.rule == route.rule.name
            &&& l.env == route.env
            &&& l.frontend == route.frontend
            &&& l.origin == route.origin
            &&& l.req_preview == req_preview
            &&& outcome matches UpstreamOutcome::Unreachable(e) ==> l.status == 502
                && l.body_preview == Some("上游错误: "@ + e@)
            &&& outcome is Broken ==> l.status == 502 && l.body_preview is None
            &&& outcome matches UpstreamOutcome::Answered { status, headers, body } ==> l.status
                == status && l.body_preview == proxy::preview(
                state::text_header(headers, "content-type"@),
                body@,
            )
        }),
{
}

// ---------------------------------------------------------------------------
// Previews
// ---------------------------------------------------------------------------

/// A body is shown where it is not empty, not above 256 KiB, and of a type that
/// names one of these, or of none.
pub proof fn law_previewed(content_type: Option<Seq<char>>, body: Seq<u8>)
    ensures
        ({
            let ct = text::lowered(content_type->0);
            let textual = content_type is None || ct.len() == 0 || text::has_part(ct, "json"@)
                || text::has_part(ct, "text/"@) || text::has_part(ct, "xml"@) || text::has_part(
                ct,
                "javascript"@,
            ) || text::has_part(ct, "x-www-form-urlencoded"@);
            &&& proxy::is_previewed(content_type, body.len()) <==> textual && 0 < body.len()
                <= 262144
            &&& proxy::preview(content_type, body) == (if textual && 0 < body.len() <= 262144 {
                proxy::preview_of(proxy::lossy_text(body))
            } else {
                None
            })
        }),
{
}

/// A preview is the trimmed text, cut behind 8000 characters and marked where
/// it was cut; there is none of a blank text.
pub proof fn law_preview(s: Seq<char>)
    ensures
        ({
            let t = text::trimmed(s);
            &&& text::is_blank(s) ==> proxy::preview_of(s) is None
            &&& 0 < t.len() <= 8000 ==> proxy::preview_of(s) == Some(t)
            &&& t.len() > 8000 ==> proxy::preview_of(s) == Some(t.take(8000) + "…"@)
        }),
{
}

/// A request is shown by its query behind a question mark, its body, or both
/// on two lines; not at all where there is neither.
pub proof fn law_request_preview(q: Seq<char>, b: Seq<char>)
    ensures
        proxy::request_preview_of(None, None) is None,
        proxy::request_preview_of(None, Some(b)) == Some(b),
        text::is_blank(q) ==> proxy::request_preview_of(Some(q), None) is None
            && proxy::request_preview_of(Some(q), Some(b)) == Some(b),
        !text::is_blank(q) ==> {
            &&& proxy::request_preview_of(Some(q), None) == Some("?"@ + text::trimmed(q))
            &&& proxy::request_preview_of(Some(q), Some(b)) == Some(
                "?"@ + text::trimmed(q) + "\n"@ + b,
            )
        },
{
    let shown = "?"@ + text::trimmed(q);
    strings::law_joined(seq![shown], b, "\n"@);
    strings::law_joined(seq![shown], shown, "\n"@);
    assert(Seq::<Seq<char>>::empty().push(b) =~= seq![b]);
}

// ---------------------------------------------------------------------------
// Grants
// ---------------------------------------------------------------------------

/// An origin may read answers where the list names it, or the star, up to white
/// space around; a request without an origin is not held back.
pub proof fn law_origin_allowed(origins: Seq<Seq<char>>, o: Seq<char>)
    ensures
        cors::origin_allowed(origins, None),
        cors::origin_allowed(origins, Some(o)) <==> exists|i: int|
            0 <= i < origins.len() && (text::trimmed(#[trigger] origins[i]) == "*"@
                || text::trimmed(origins[i]) == o),
        cors::allows_any(origins) <==> exists|i: int|
            0 <= i < origins.len() && text::trimmed(#[trigger] origins[i]) == "*"@,
{
    if exists|i: int|
        0 <= i < origins.len() && (text::trimmed(#[trigger] origins[i]) == "*"@ || text::trimmed(
            origins[i],
        ) == o) {
        let i = choose|i: int|
            0 <= i < origins.len() && (text::trimmed(#[trigger] origins[i]) == "*"@
                || text::trimmed(origins[i]) == o);
        assert(text::trimmed(origins[i]) == "*"@ ==> cors::allows_any(origins));
        assert(text::trimmed(origins[i]) == o ==> cors::allows(origins, o));
    }
}

/// A grant sets methods, headers, exposed headers and age in every case; the
/// star where all are allowed; else the origin, credentials and `Vary` where
/// there is an origin that can be named. All other headers stay.
pub proof fn law_grant(
    m: Map<Seq<char>, Seq<Seq<u8>>>,
    origin: Option<Seq<char>>,
    any: bool,
    asked: Option<Seq<u8>>,
    name: Seq<char>,
)
    ensures
        ({
            let g = cors::with_grant(m, origin, any, asked);
            let named = !any && origin is Some && headers::is_header_value(
                encode_utf8(origin->0),
            );
            let value = |s: Seq<char>| seq![encode_utf8(s)];
            &&& g.contains_key("access-control-allow-methods"@)
            &&& g["access-control-allow-methods"@] == value(
                "GET,POST,PUT,PATCH,DELETE,OPTIONS,HEAD"@,
            )
            &&& g.contains_key("access-control-allow-headers"@)
            &&& asked matches Some(h) ==> g["access-control-allow-headers"@] == seq![h]
            &&& asked is None ==> g["access-control-allow-headers"@] == value(
                "authorization,content-type,accept,x-requested-with,cookie,origin"@,
            )
            &&& g.contains_key("access-control-expose-headers"@)
            &&& g["access-control-expose-headers"@] == value("content-disposition"@)
            &&& g.contains_key("access-control-max-age"@)
            &&& g["access-control-max-age"@] == value("86400"@)
            &&& any ==> g.contains_key("access-control-allow-origin"@)
                && g["access-control-allow-origin"@] == value("*"@)
            &&& named ==> {
                &&& g.contains_key("access-control-allow-origin"@)
                &&& g["access-control-allow-origin"@] == value(origin->0)
                &&& g.contains_key("access-control-allow-credentials"@)
                &&& g["access-control-allow-credentials"@] == value("true"@)
                &&& g.contains_key("vary"@)
                &&& g["vary"@] == value("Origin"@)
            }
            &&& name != "access-control-allow-methods"@ && name != "access-control-allow-headers"@
                && name != "access-control-expose-headers"@ && name != "access-control-max-age"@
                && (name != "access-control-allow-origin"@ || !(any || named)) && ((name
                != "access-control-allow-credentials"@ && name != "vary"@) || !named) ==> {
                &&& g.contains_key(name) == m.contains_key(name)
                &&& m.contains_key(name) ==> g[name] == m[name]
            }
        }),
{
    forwarding::law_grant_names_differ();
}

/// A grant that did not fit leaves all headers that are not its own.
pub proof fn law_refused_grant(
    a: Map<Seq<char>, Seq<Seq<u8>>>,
    b: Map<Seq<char>, Seq<Seq<u8>>>,
    name: Seq<char>,
)
    requires
        cors::same_but_grant(a, b),
        name != "access-control-allow-origin"@,
        name != "access-control-allow-credentials"@,
        name != "vary"@,
        name != "access-control-allow-methods"@,
        name != "access-control-allow-headers"@,
        name != "access-control-expose-headers"@,
        name != "access-control-max-age"@,
    ensures
        a.contains_key(name) == b.contains_key(name),
        a.contains_key(name) ==> a[name] == b[name],
{
    assert(!cors::is_grant_name(name));
    assert(a.contains_key(name) == b.contains_key(name));
}

/// A preflight is an OPTIONS request that names its origin and asks for a
/// method.
pub proof fn law_preflight(method: Seq<char>, m: HeaderMap)
    ensures
        cors::is_preflight(method, m) <==> method == "OPTIONS"@ && headers::header_values(
            m,
        ).contains_key("origin"@) && headers::header_values(m).contains_key(
            "access-control-request-method"@,
        ),
{
}

/// What is decided on a request: a preflight is answered with 204 and, where
/// its origin is allowed, the grant that it asks for; every other request goes
/// on, and a page of an allowed origin gets a grant for the answer.
pub proof fn law_decision(
    d: CorsDecision,
    origins: Seq<Seq<char>>,
    method: Seq<char>,
    request: HeaderMap,
)
    requires
        cors::is_decision(d, origins, cors::is_preflight(method, request), request),
    ensures
        ({
            let values = headers::header_values(request);
            let origin = state::text_header(request, "origin"@);
            let star = cors::allows_any(origins);
            let allowed = cors::origin_allowed(origins, origin);
            let asked = if values.contains_key("access-control-request-headers"@) {
                Some(values["access-control-request-headers"@][0])
            } else {
                None
            };
            let none = Map::<Seq<char>, Seq<Seq<u8>>>::empty();
            &&& cors::is_preflight(method, request) ==> {
                &&& d matches CorsDecision::Preflight { status, headers }
                &&& status == 204
                &&& allowed ==> headers::header_values(headers) == cors::with_grant(
                    none,
                    origin,
                    star,
                    asked,
                )
                &&& !allowed ==> headers::header_values(headers) == none
            }
            &&& !cors::is_preflight(method, request) && origin is Some && allowed ==> {
                &&& d matches CorsDecision::Forward(grant)
                &&& grant is Some
                &&& text::opt_view(grant->0.origin) == origin
                &&& grant->0.allow_any == star
            }
            &&& !cors::is_preflight(method, request) && !(origin is Some && allowed) ==> {
                &&& d matches CorsDecision::Forward(grant)
                &&& grant is None
            }
        }),
{
}

} // verus!
