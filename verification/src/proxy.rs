//! What is sent upstream for a request, what is sent back for the answer, and
//! what the log keeps of both.

use crate::config::{Rule, RuleView};
use crate::headers;
use crate::laws::cookies;
use crate::laws::exchange;
use crate::laws::routing;
use crate::state;
use crate::state::{
    AppState, LogTime, RequestLog, RequestLogView, ResolveError, ResolveErrorView, StateView,
};
use crate::table;
use crate::text;
use axum::http::HeaderMap;
use vstd::prelude::*;
use vstd::slice::slice_to_vec;
use vstd::string::*;
use vstd::utf8::*;

verus! {

broadcast use vstd::string::group_string_axioms;

/// The largest request body that is read, in bytes.
pub const REQUEST_BODY_MAX: usize = 64 * 1024 * 1024;

/// The largest body of which a preview is made, in bytes.
pub const PREVIEWED_BODY_MAX: usize = 256 * 1024;

/// How many characters of a body a preview shows.
pub const PREVIEW_MAX: usize = 8000;

/// How long connecting to the upstream may take, in seconds.
pub const CONNECT_TIMEOUT_SECS: u64 = 10;

/// How long a whole upstream request may take, in seconds.
pub const REQUEST_TIMEOUT_SECS: u64 = 30;

// ---------------------------------------------------------------------------
// Headers that are not forwarded
// ---------------------------------------------------------------------------

/// The headers that concern one connection only.
pub open spec fn hop_by_hop_names() -> Seq<Seq<char>> {
    seq![
        "connection"@,
        "keep-alive"@,
        "proxy-authenticate"@,
        "proxy-authorization"@,
        "te"@,
        "trailers"@,
        "transfer-encoding"@,
        "upgrade"@,
        "host"@,
        "content-length"@,
    ]
}

pub open spec fn hop_by_hop(name: Seq<char>) -> bool {
    hop_by_hop_names().contains(text::lowered(name))
}

/// Whether a header, in capital or small letters, concerns one connection
/// only.
pub fn is_hop_by_hop(name: &str) -> (r: bool)
    ensures
        r == hop_by_hop(name@),
        ({
            let n = text::lowered(name@);
            r <==> n == "connection"@ || n == "keep-alive"@ || n == "proxy-authenticate"@ || n
                == "proxy-authorization"@ || n == "te"@ || n == "trailers"@ || n
                == "transfer-encoding"@ || n == "upgrade"@ || n == "host"@ || n
                == "content-length"@
        }),
{
    proof {
        exchange::law_hop_by_hop(name@);
    }
    let low = text::lower(name);
    let n = low.as_str();
    let mut names: Vec<String> = Vec::new();
    names.push("connection".to_string());
    names.push("keep-alive".to_string());
    names.push("proxy-authenticate".to_string());
    names.push("proxy-authorization".to_string());
    names.push("te".to_string());
    names.push("trailers".to_string());
    names.push("transfer-encoding".to_string());
    names.push("upgrade".to_string());
    names.push("host".to_string());
    names.push("content-length".to_string());
    assert(text::views(names@) =~= hop_by_hop_names());
    text::among(&names, n)
}

// ---------------------------------------------------------------------------
// The upstream address
// ---------------------------------------------------------------------------

/// The path that is forwarded.
pub open spec fn forward_path(path: Seq<char>, strip: bool, prefix: Seq<char>) -> Seq<char> {
    let rest = if prefix.is_prefix_of(path) {
        path.skip(prefix.len() as int)
    } else {
        path
    };
    if !strip {
        path
    } else if rest.len() == 0 {
        "/"@
    } else if rest[0] == '/' {
        rest
    } else {
        path
    }
}

pub open spec fn upstream_url(
    target: Seq<char>,
    path: Seq<char>,
    query: Option<Seq<char>>,
    strip: bool,
    prefix: Seq<char>,
) -> Seq<char> {
    let base = target + forward_path(path, strip, prefix);
    if query is Some && query->0.len() > 0 {
        base + "?"@ + query->0
    } else {
        base
    }
}

/// The upstream address of a request: target, path and query. With
/// `strip_prefix` the prefix is taken off the path where a slash, or nothing,
/// follows it.
pub fn build_upstream_url(
    target: &str,
    path: &str,
    query: Option<&str>,
    strip_prefix: bool,
    prefix: &str,
) -> (r: String)
    ensures
        r@ == upstream_url(target@, path@, text::opt_view(query), strip_prefix, prefix@),
        strip_prefix ==> forall|rest: Seq<char>|
            path@ == #[trigger] (prefix@ + rest) && rest.len() > 0 && rest[0] == '/' ==> r@
                == target@ + rest + (if query is Some && query->0@.len() > 0 {
                "?"@ + query->0@
            } else {
                Seq::<char>::empty()
            }),
        !strip_prefix ==> r@ == target@ + path@ + (if query is Some && query->0@.len() > 0 {
            "?"@ + query->0@
        } else {
            Seq::<char>::empty()
        }),
{
    proof {
        let q = text::opt_view(query);
        routing::law_url(target@, path@, q, strip_prefix, prefix@);
        assert forall|rest: Seq<char>|
            path@ == #[trigger] (prefix@ + rest) && rest.len() > 0 && rest[0]
                == '/' implies forward_path(path@, true, prefix@) == rest by {
            routing::law_stripped_path(path@, prefix@, rest);
        }
        routing::law_stripped_path(path@, prefix@, Seq::<char>::empty());
    }
    let mut url = target.to_string();
    if strip_prefix {
        let rest = match text::strip_prefix(path, prefix) {
            Some(rest) => rest,
            None => path.to_string(),
        };
        if rest.as_str().is_empty() {
            url.append("/");
        } else if text::first_is(rest.as_str(), '/') {
            url.append(rest.as_str());
        } else {
            url.append(path);
        }
    } else {
        url.append(path);
    }
    if let Some(q) = query {
        if !q.is_empty() {
            url.append("?");
            url.append(q);
        }
    }
    url
}

/// The method of the upstream request: that of the request, `GET` for one
/// that cannot be sent.
pub fn upstream_method(method: &str) -> (r: String)
    ensures
        r@ == (if headers::is_token(method@) {
            method@
        } else {
            "GET"@
        }),
{
    match headers::parse_method(method) {
        Some(m) => m,
        None => "GET".to_string(),
    }
}

// ---------------------------------------------------------------------------
// Cookies
// ---------------------------------------------------------------------------

/// The parts of a `Set-Cookie` value: the cookie, then its attributes.
pub open spec fn cookie_parts(value: Seq<char>) -> Seq<Seq<char>> {
    text::pieces(value, ';').map_values(|p: Seq<char>| text::trimmed(p)).filter(
        |p: Seq<char>| p.len() > 0,
    )
}

/// Part `i` stays: it is not a `Domain` attribute, nor `Secure` where the
/// frontend is reached over plain HTTP.
pub open spec fn cookie_part_stays(i: int, part: Seq<char>, origin_is_http: bool) -> bool {
    &&& !(i > 0 && "domain="@.is_prefix_of(text::lowered(part)))
    &&& !(origin_is_http && text::lowered(part) == "secure"@)
}

/// The parts that stay, in order.
pub open spec fn staying_parts(parts: Seq<Seq<char>>, origin_is_http: bool) -> Seq<Seq<char>>
    decreases parts.len(),
{
    if parts.len() == 0 {
        Seq::<Seq<char>>::empty()
    } else {
        let before = staying_parts(parts.drop_last(), origin_is_http);
        if cookie_part_stays(parts.len() - 1, parts.last(), origin_is_http) {
            before.push(parts.last())
        } else {
            before
        }
    }
}

pub open spec fn rewritten_cookie(value: Seq<char>, origin_is_http: bool) -> Seq<char> {
    text::joined(staying_parts(cookie_parts(value), origin_is_http), "; "@)
}

/// The parts of a `Set-Cookie` value.
fn split_cookie(value: &str) -> (r: Vec<String>)
    ensures
        text::views(r@) == cookie_parts(value@),
{
    let raw = text::split(value, ';');
    let ghost trims = text::pieces(value@, ';').map_values(|p: Seq<char>| text::trimmed(p));
    let ghost pred = |p: Seq<char>| p.len() > 0;
    let mut out: Vec<String> = Vec::new();
    let mut i: usize = 0;
    proof {
        reveal(Seq::filter);
        assert(trims.take(0).filter(pred) =~= Seq::<Seq<char>>::empty());
        assert(text::views(out@) =~= trims.take(0).filter(pred));
    }
    while i < raw.len()
        invariant
            i <= raw@.len() == trims.len(),
            trims == text::views(raw@).map_values(|p: Seq<char>| text::trimmed(p)),
            pred == (|p: Seq<char>| p.len() > 0),
            text::views(out@) == trims.take(i as int).filter(pred),
        decreases raw@.len() - i,
    {
        let p = text::trim(raw[i].as_str());
        proof {
            trims.take(i as int).lemma_filter_push(p@, pred);
            assert(trims.take(i + 1) =~= trims.take(i as int).push(p@));
        }
        let ghost before = text::views(out@);
        if !p.as_str().is_empty() {
            out.push(p);
            assert(text::views(out@) =~= before.push(p@));
        }
        i = i + 1;
    }
    assert(trims.take(trims.len() as int) =~= trims);
    out
}

/// A `Set-Cookie` value for local use: without `Domain`, and without `Secure`
/// where the frontend is reached over plain HTTP.
pub fn rewrite_set_cookie(value: &str, origin_is_http: bool) -> (r: String)
    ensures
        r@ == rewritten_cookie(value@, origin_is_http),
        cookie_parts(r@).filter(
            |p: Seq<char>|
                !"domain="@.is_prefix_of(text::lowered(p)) && text::lowered(p) != "secure"@,
        ) == cookie_parts(value@).filter(
            |p: Seq<char>|
                !"domain="@.is_prefix_of(text::lowered(p)) && text::lowered(p) != "secure"@,
        ),
{
    proof {
        cookies::law_other_parts_are_kept(value@, origin_is_http);
        assert((|p: Seq<char>| cookies::is_other_part(p)) =~= (|p: Seq<char>|
            !"domain="@.is_prefix_of(text::lowered(p)) && text::lowered(p) != "secure"@));
    }
    let parts = split_cookie(value);
    let ghost all = text::views(parts@);
    let mut stay: Vec<String> = Vec::new();
    let mut i: usize = 0;
    assert(all.take(0) =~= Seq::<Seq<char>>::empty());
    assert(text::views(stay@) =~= Seq::<Seq<char>>::empty());
    while i < parts.len()
        invariant
            i <= parts@.len(),
            all == text::views(parts@),
            text::views(stay@) == staying_parts(all.take(i as int), origin_is_http),
        decreases parts@.len() - i,
    {
        let low = text::lower(parts[i].as_str());
        assert(all.take(i + 1).drop_last() =~= all.take(i as int));
        assert(all.take(i + 1).last() == parts@[i as int]@);
        let ghost before = text::views(stay@);
        let domain = i > 0 && text::starts_with(low.as_str(), "domain=");
        let secure = origin_is_http && text::same(low.as_str(), "secure");
        if !domain && !secure {
            stay.push(parts[i].clone());
            assert(text::views(stay@) =~= before.push(parts@[i as int]@));
        }
        i = i + 1;
    }
    assert(all.take(all.len() as int) =~= all);
    text::join(&stay, "; ")
}

// ---------------------------------------------------------------------------
// Previews
// ---------------------------------------------------------------------------

/// The text that a sequence of bytes is shown as: its UTF-8 reading, with a
/// replacement character for what cannot be read.
pub uninterp spec fn lossy_text(bytes: Seq<u8>) -> Seq<char>;

/// `String::from_utf8_lossy`: the UTF-8 reading of the bytes where they are
/// valid; what stands for invalid bytes is not said here.
#[verifier::external_body]
pub(crate) fn decode_lossy(bytes: &[u8]) -> (r: String)
    ensures
        r@ == lossy_text(bytes@),
        valid_utf8(bytes@) ==> r@ == decode_utf8(bytes@),
{
    String::from_utf8_lossy(bytes).into_owned()
}

/// A content type, in small letters, whose bodies are shown.
pub open spec fn is_textual(ct: Seq<char>) -> bool {
    ||| text::has_part(ct, "json"@)
    ||| text::has_part(ct, "text/"@)
    ||| text::has_part(ct, "xml"@)
    ||| text::has_part(ct, "javascript"@)
    ||| text::has_part(ct, "x-www-form-urlencoded"@)
    ||| ct.len() == 0
}

/// The preview of a text: its beginning, with an ellipsis where it goes on.
pub open spec fn preview_of(s: Seq<char>) -> Option<Seq<char>> {
    let t = text::trimmed(s);
    if t.len() == 0 {
        None
    } else if t.len() > PREVIEW_MAX {
        Some(t.take(PREVIEW_MAX as int) + "…"@)
    } else {
        Some(t)
    }
}

/// Whether a preview is made of a body.
pub open spec fn is_previewed(content_type: Option<Seq<char>>, len: nat) -> bool {
    let ct = match content_type {
        Some(c) => text::lowered(c),
        None => Seq::<char>::empty(),
    };
    is_textual(ct) && 0 < len <= PREVIEWED_BODY_MAX
}

pub open spec fn preview(content_type: Option<Seq<char>>, body: Seq<u8>) -> Option<Seq<char>> {
    if is_previewed(content_type, body.len()) {
        preview_of(lossy_text(body))
    } else {
        None
    }
}

/// The preview of a text.
pub fn text_preview(s: &str) -> (r: Option<String>)
    ensures
        text::opt_view(r) == preview_of(s@),
{
    let t = text::trim(s);
    let v = text::chars_of(t.as_str());
    if v.len() == 0 {
        None
    } else if v.len() > PREVIEW_MAX {
        let mut p = text::string_of(&v, 0, PREVIEW_MAX);
        p.append("…");
        assert(v@.subrange(0, PREVIEW_MAX as int) =~= v@.take(PREVIEW_MAX as int));
        Some(p)
    } else {
        Some(t)
    }
}

/// Whether a preview is made of a body of `len` bytes.
pub fn wants_preview(content_type: Option<&str>, len: usize) -> (r: bool)
    ensures
        r == is_previewed(text::opt_view(content_type), len as nat),
{
    let ct = match content_type {
        Some(c) => text::lower(c),
        None => String::new(),
    };
    let c = ct.as_str();
    let textual = text::contains(c, "json") || text::contains(c, "text/") || text::contains(
        c,
        "xml",
    ) || text::contains(c, "javascript") || text::contains(c, "x-www-form-urlencoded")
        || c.is_empty();
    textual && 0 < len && len <= PREVIEWED_BODY_MAX
}

/// The preview of a body: the beginning of a text of moderate size, nothing
/// of any other body.
pub fn body_preview(content_type: Option<&str>, body: &[u8]) -> (r: Option<String>)
    ensures
        text::opt_view(r) == preview(text::opt_view(content_type), body@),
        valid_utf8(body@) && is_previewed(text::opt_view(content_type), body@.len())
            ==> text::opt_view(r) == preview_of(decode_utf8(body@)),
{
    if !wants_preview(content_type, body.len()) {
        return None;
    }
    let s = decode_lossy(body);
    text_preview(s.as_str())
}

/// The parts of a request preview: query and body, those that there are.
pub open spec fn request_parts(
    query: Option<Seq<char>>,
    shown_body: Option<Seq<char>>,
) -> Seq<Seq<char>> {
    let q = if query is Some && !text::is_blank(query->0) {
        seq!["?"@ + text::trimmed(query->0)]
    } else {
        Seq::<Seq<char>>::empty()
    };
    match shown_body {
        Some(b) => q.push(b),
        None => q,
    }
}

/// The preview of a request with the given query and body preview.
pub open spec fn request_preview_of(
    query: Option<Seq<char>>,
    shown_body: Option<Seq<char>>,
) -> Option<Seq<char>> {
    let parts = request_parts(query, shown_body);
    if parts.len() == 0 {
        None
    } else {
        Some(text::joined(parts, "\n"@))
    }
}

/// The preview of a request with the given query and body preview.
pub fn join_preview(query: Option<&str>, shown_body: Option<String>) -> (r: Option<String>)
    ensures
        text::opt_view(r) == request_preview_of(
            text::opt_view(query),
            text::opt_view(shown_body),
        ),
{
    let mut parts: Vec<String> = Vec::new();
    if let Some(q) = query {
        let t = text::trim(q);
        if !t.as_str().is_empty() {
            parts.push(text::cat2("?", t.as_str()));
        }
    }
    if let Some(b) = shown_body {
        parts.push(b);
    }
    assert(text::views(parts@) =~= request_parts(
        text::opt_view(query),
        text::opt_view(shown_body),
    ));
    if parts.len() == 0 {
        None
    } else {
        Some(text::join(&parts, "\n"))
    }
}

/// The preview of a request: its query, then the preview of its body.
pub fn request_preview(query: Option<&str>, content_type: Option<&str>, body: &[u8]) -> (r: Option<
    String,
>)
    ensures
        text::opt_view(r) == request_preview_of(
            text::opt_view(query),
            preview(text::opt_view(content_type), body@),
        ),
{
    join_preview(query, body_preview(content_type, body))
}

// ---------------------------------------------------------------------------
// Forwarded headers
// ---------------------------------------------------------------------------

/// Which headers are copied.
#[derive(Debug, Clone, Copy, PartialEq, Eq, Structural)]
pub enum HeaderChoice {
    /// All of them.
    All,
    /// All but those that concern one connection only.
    EndToEnd,
    /// As `EndToEnd`, but for `Set-Cookie`.
    EndToEndNoCookies,
}

pub open spec fn chosen(choice: HeaderChoice, name: Seq<char>) -> bool {
    match choice {
        HeaderChoice::All => true,
        HeaderChoice::EndToEnd => !hop_by_hop(name),
        HeaderChoice::EndToEndNoCookies => !hop_by_hop(name) && name != "set-cookie"@,
    }
}

/// The chosen headers, each with its last value. A name that cannot be parsed
/// is passed over.
pub open spec fn last_values(
    m: Map<Seq<char>, Seq<Seq<u8>>>,
    choice: HeaderChoice,
) -> Map<Seq<char>, Seq<Seq<u8>>> {
    Map::new(
        |name: Seq<char>|
            m.contains_key(name) && headers::is_header_name(name) && chosen(choice, name),
        |name: Seq<char>| seq![m[name].last()],
    )
}

/// As `last_values`, of a list of headers.
pub open spec fn last_of_pairs(
    pairs: Seq<(Seq<char>, Seq<u8>)>,
    choice: HeaderChoice,
) -> Map<Seq<char>, Seq<Seq<u8>>> {
    Map::new(
        |name: Seq<char>|
            headers::values_named(pairs, name).len() > 0 && headers::is_header_name(name)
                && chosen(choice, name),
        |name: Seq<char>| seq![headers::values_named(pairs, name).last()],
    )
}

fn is_chosen(choice: HeaderChoice, name: &str) -> (r: bool)
    ensures
        r == chosen(choice, name@),
{
    match choice {
        HeaderChoice::All => true,
        HeaderChoice::EndToEnd => !is_hop_by_hop(name),
        HeaderChoice::EndToEndNoCookies => !is_hop_by_hop(name) && !text::same(
            name,
            "set-cookie",
        ),
    }
}

/// Copies the chosen headers; of several values under one name the last stays,
/// and a name that cannot be parsed is passed over. Nothing where a header map cannot take them.
fn copy_headers(from: &HeaderMap, choice: HeaderChoice) -> (r: Option<HeaderMap>)
    ensures
        headers::room_for(*from, 1) ==> r is Some,
        r matches Some(m) ==> headers::header_values(m) == last_values(
            headers::header_values(*from),
            choice,
        ),
{
    let pairs = headers::header_pairs(from);
    let ghost all = headers::pair_views(pairs@);
    let ghost m = headers::header_values(*from);
    let mut out = headers::new_headers();
    let mut i: usize = 0;
    assert(headers::header_values(out) =~= last_of_pairs(all.take(0), choice));
    while i < pairs.len()
        invariant
            i <= pairs@.len(),
            all == headers::pair_views(pairs@),
            m == headers::header_values(*from),
            forall|name: Seq<char>| #[trigger]
                headers::values_named(all, name) == (if m.contains_key(name) {
                    m[name]
                } else {
                    Seq::<Seq<u8>>::empty()
                }),
            forall|j: int|
                0 <= j < pairs@.len() ==> text::lowered((#[trigger] pairs@[j]).0@)
                    == pairs@[j].0@ && headers::is_header_value(pairs@[j].1@),
            headers::header_values(out) == last_of_pairs(all.take(i as int), choice),
            headers::header_values(out).dom().subset_of(m.dom()),
        decreases pairs@.len() - i,
    {
        let ghost before = all.take(i as int);
        let ghost upto = all.take(i + 1);
        let ghost name = pairs@[i as int].0@;
        proof {
            assert(upto.drop_last() =~= before);
            assert(upto.last() == all[i as int]);
            lemma_values_named_mono(all, name, i as int);
            assert(headers::values_named(all, name).len() > 0);
            assert(m.contains_key(name));
            if m.dom().finite() {
                vstd::set_lib::lemma_len_subset(headers::header_values(out).dom(), m.dom());
            }
        }
        if is_chosen(choice, pairs[i].0.as_str()) {
            if let Some(parsed) = headers::parse_header_name(pairs[i].0.as_str()) {
                if !headers::header_insert(&mut out, parsed.as_str(), pairs[i].1.as_slice()) {
                    return None;
                }
            }
        }
        assert(headers::header_values(out) =~= last_of_pairs(upto, choice));
        i = i + 1;
    }
    assert(all.take(all.len() as int) =~= all);
    assert(headers::header_values(out) =~= last_values(m, choice));
    Some(out)
}

/// A name that stands in a list of headers has a value there.
proof fn lemma_values_named_mono(pairs: Seq<(Seq<char>, Seq<u8>)>, name: Seq<char>, i: int)
    requires
        0 <= i < pairs.len(),
        pairs[i].0 == name,
    ensures
        headers::values_named(pairs, name).len() > 0,
    decreases pairs.len(),
{
    if i < pairs.len() - 1 {
        lemma_values_named_mono(pairs.drop_last(), name, i);
    }
}

/// The headers with those of a rule set on top; what is no header is passed
/// over.
pub open spec fn with_injected(
    m: Map<Seq<char>, Seq<Seq<u8>>>,
    extra: Seq<(Seq<char>, Seq<char>)>,
) -> Map<Seq<char>, Seq<Seq<u8>>>
    decreases extra.len(),
{
    if extra.len() == 0 {
        m
    } else {
        let before = with_injected(m, extra.drop_last());
        let value = encode_utf8(extra.last().1);
        if headers::is_header_name(extra.last().0) && headers::is_header_value(value) {
            before.insert(text::lowered(extra.last().0), seq![value])
        } else {
            before
        }
    }
}

/// The headers of the upstream request.
pub open spec fn outbound_values(
    m: Map<Seq<char>, Seq<Seq<u8>>>,
    extra: Seq<(Seq<char>, Seq<char>)>,
) -> Map<Seq<char>, Seq<Seq<u8>>> {
    with_injected(last_values(m, HeaderChoice::EndToEnd), extra)
}

/// The headers of the upstream request: those of the request that do not
/// concern its connection, and those of the rule on top. Nothing where a header
/// map cannot take them.
pub fn upstream_headers(headers: &HeaderMap, rule: &Rule) -> (r: Option<HeaderMap>)
    ensures
        headers::room_for(*headers, rule@.headers.len() + 1) ==> r is Some && headers::room_for(
            r->0,
            1,
        ),
        r matches Some(m) ==> headers::header_values(m) == outbound_values(
            headers::header_values(*headers),
            rule@.headers,
        ),
{
    let ghost extra = rule@.headers;
    let ghost fits = headers::room_for(*headers, extra.len() + 1);
    let mut out = match copy_headers(headers, HeaderChoice::EndToEnd) {
        Some(out) => out,
        None => {
            return None;
        },
    };
    let ghost base = headers::header_values(out);
    proof {
        assert(base.dom().subset_of(headers::header_values(*headers).dom()));
        if fits {
            vstd::set_lib::lemma_len_subset(base.dom(), headers::header_values(*headers).dom());
        }
        assert(extra.take(0) =~= Seq::<(Seq<char>, Seq<char>)>::empty());
    }
    let n: usize = rule.headers.len();
    let mut i: usize = 0;
    while i < n
        invariant
            i <= n == extra.len(),
            extra == rule@.headers,
            fits == headers::room_for(*headers, extra.len() + 1),
            fits ==> base.dom().finite() && base.dom().len() + n + 1 <= headers::HEADER_NAMES_MAX,
            headers::header_values(out) == with_injected(base, extra.take(i as int)),
            fits ==> headers::header_values(out).dom().finite() && headers::header_values(
                out,
            ).dom().len() <= base.dom().len() + i,
        decreases n - i,
    {
        assert(extra.take(i + 1).drop_last() =~= extra.take(i as int));
        assert(extra.take(i + 1).last() == extra[i as int]);
        if let Some(name) = headers::parse_header_name(rule.headers.key_at(i).as_str()) {
            if let Some(value) = headers::parse_header_value(rule.headers.value_at(i).as_str()) {
                proof {
                    law_lowered_name(extra[i as int].0);
                }
                if !headers::header_insert(&mut out, name.as_str(), value.as_slice()) {
                    return None;
                }
            }
        }
        i = i + 1;
    }
    assert(extra.take(n as int) =~= extra);
    Some(out)
}

/// The small letters of a header name are a header name, and stay as they are.
pub proof fn law_lowered_name(s: Seq<char>)
    requires
        headers::is_header_name(s),
    ensures
        headers::is_header_name(text::lowered(s)),
        text::lowered(text::lowered(s)) == text::lowered(s),
{
    let low = text::lowered(s);
    assert forall|i: int| 0 <= i < low.len() implies headers::is_token_char(#[trigger] low[i])
        && text::lower_char(low[i]) == low[i] by {
        assert(headers::is_token_char(s[i]));
    }
    assert(text::lowered(low) =~= low);
}

/// The headers in the form in which they are handed to the HTTP client: each
/// with its last value. Nothing where a header map cannot take them.
pub fn reqwest_headers_from_axum(headers: &HeaderMap) -> (r: Option<HeaderMap>)
    ensures
        headers::room_for(*headers, 1) ==> r is Some,
        r matches Some(m) ==> headers::header_values(m) == last_values(
            headers::header_values(*headers),
            HeaderChoice::All,
        ),
{
    copy_headers(headers, HeaderChoice::All)
}

/// The `Set-Cookie` values that are sent back.
pub open spec fn cookie_values(
    values: Seq<Seq<u8>>,
    rewrite: bool,
    origin_is_http: bool,
) -> Seq<Seq<u8>>
    decreases values.len(),
{
    if values.len() == 0 {
        Seq::<Seq<u8>>::empty()
    } else {
        let before = cookie_values(values.drop_last(), rewrite, origin_is_http);
        let raw = headers::value_text(values.last());
        let sent = encode_utf8(
            if rewrite {
                rewritten_cookie(raw, origin_is_http)
            } else {
                raw
            },
        );
        if headers::is_text_value(values.last()) && headers::is_header_value(sent) {
            before.push(sent)
        } else {
            before
        }
    }
}

/// The headers that are sent back for those of the upstream.
pub open spec fn returned_values(
    m: Map<Seq<char>, Seq<Seq<u8>>>,
    rewrite: bool,
    origin_is_http: bool,
) -> Map<Seq<char>, Seq<Seq<u8>>> {
    let base = last_values(m, HeaderChoice::EndToEndNoCookies);
    let cookies = if m.contains_key("set-cookie"@) {
        cookie_values(m["set-cookie"@], rewrite, origin_is_http)
    } else {
        Seq::<Seq<u8>>::empty()
    };
    if cookies.len() > 0 {
        base.insert("set-cookie"@, cookies)
    } else {
        base
    }
}

/// The headers that are sent back: those of the upstream that do not concern
/// its connection, each with its last value, and every cookie, rewritten where
/// the frontend asks for it. Nothing where a header map cannot take them.
pub fn response_headers(headers: &HeaderMap, rewrite: bool, origin_is_http: bool) -> (r: Option<
    HeaderMap,
>)
    ensures
        headers::room_for(*headers, 1) ==> r is Some,
        r matches Some(out) ==> headers::header_values(out) == returned_values(
            headers::header_values(*headers),
            rewrite,
            origin_is_http,
        ),
{
    let ghost m = headers::header_values(*headers);
    proof {
        reveal_strlit("set-cookie");
        assert(text::lowered("set-cookie"@) =~= "set-cookie"@);
        assert(headers::is_header_name("set-cookie"@));
    }
    let ghost fits = headers::room_for(*headers, 1);
    let mut out = match copy_headers(headers, HeaderChoice::EndToEndNoCookies) {
        Some(out) => out,
        None => {
            return None;
        },
    };
    let ghost base = headers::header_values(out);
    let raw = headers::header_all(headers, "set-cookie");
    let ghost all = text::views(raw@);
    let ghost name = "set-cookie"@;
    proof {
        assert(base.dom().subset_of(m.dom()));
        if fits {
            vstd::set_lib::lemma_len_subset(base.dom(), m.dom());
        }
        assert(all.take(0) =~= Seq::<Seq<u8>>::empty());
        if all.len() > 0 {
            assert(m.contains_key(name));
            assert(base.dom().insert(name).subset_of(m.dom()));
            if fits {
                vstd::set_lib::lemma_len_subset(base.dom().insert(name), m.dom());
            }
        }
    }
    let mut i: usize = 0;
    while i < raw.len()
        invariant
            i <= raw@.len(),
            all == text::views(raw@),
            name == "set-cookie"@,
            text::lowered(name) == name,
            headers::is_header_name(name),
            !base.contains_key(name),
            fits == headers::room_for(*headers, 1),
            fits ==> base.dom().finite(),
            fits && all.len() > 0 ==> base.dom().len() + 2 <= headers::HEADER_NAMES_MAX,
            ({
                let cookies = cookie_values(all.take(i as int), rewrite, origin_is_http);
                headers::header_values(out) == (if cookies.len() > 0 {
                    base.insert(name, cookies)
                } else {
                    base
                })
            }),
        decreases raw@.len() - i,
    {
        assert(all.take(i + 1).drop_last() =~= all.take(i as int));
        assert(all.take(i + 1).last() == raw@[i as int]@);
        if let Some(s) = headers::header_text(raw[i].as_slice()) {
            let sent = if rewrite {
                rewrite_set_cookie(s.as_str(), origin_is_http)
            } else {
                s
            };
            if let Some(v) = headers::parse_header_value(sent.as_str()) {
                let ghost before = headers::header_values(out);
                if !headers::header_append(&mut out, "set-cookie", v.as_slice()) {
                    return None;
                }
                proof {
                    let earlier = cookie_values(all.take(i as int), rewrite, origin_is_http);
                    let cookies = cookie_values(all.take(i + 1), rewrite, origin_is_http);
                    assert(cookies == earlier.push(v@));
                    if earlier.len() == 0 {
                        assert(cookies =~= seq![v@]);
                        assert(Seq::<Seq<u8>>::empty().push(v@) =~= cookies);
                    }
                    assert(headers::header_values(out) =~= base.insert(name, cookies));
                }
            }
        }
        i = i + 1;
    }
    assert(all.take(all.len() as int) =~= all);
    proof {
        if !m.contains_key(name) {
            assert(all =~= Seq::<Seq<u8>>::empty());
        }
    }
    Some(out)
}

// ---------------------------------------------------------------------------
// Refusals
// ---------------------------------------------------------------------------

/// The answer to a request that is not forwarded; the optional fields are left
/// out of it where they are absent.
#[derive(Debug)]
pub struct Refusal {
    pub status: u16,
    pub error: String,
    pub hint: Option<String>,
    pub origin: Option<String>,
    pub path: Option<String>,
    pub frontend: Option<String>,
    pub env: Option<String>,
}

#[verifier::ext_equal]
pub struct RefusalView {
    pub status: u16,
    pub error: Seq<char>,
    pub hint: Option<Seq<char>>,
    pub origin: Option<Seq<char>>,
    pub path: Option<Seq<char>>,
    pub frontend: Option<Seq<char>>,
    pub env: Option<Seq<char>>,
}

impl View for Refusal {
    type V = RefusalView;

    open spec fn view(&self) -> RefusalView {
        RefusalView {
            status: self.status,
            error: self.error@,
            hint: text::opt_view(self.hint),
            origin: text::opt_view(self.origin),
            path: text::opt_view(self.path),
            frontend: text::opt_view(self.frontend),
            env: text::opt_view(self.env),
        }
    }
}

/// How a request to `path` is refused.
pub open spec fn refusal_of(e: ResolveErrorView, path: Seq<char>) -> RefusalView {
    match e {
        ResolveErrorView::MissingOrigin => RefusalView {
            status: 400,
            error: "missing origin"@,
            hint: Some(
                "浏览器请求需带 Origin；推荐前端直连本代理；或仅配置一个前端后可用 curl"@,
            ),
            origin: None,
            path: Some(path),
            frontend: None,
            env: None,
        },
        ResolveErrorView::UnknownOrigin(o) => RefusalView {
            status: 403,
            error: "unknown frontend origin"@,
            hint: Some(
                "在管理台为该 Origin 新建前端并配置规则（注意 localhost 与 127.0.0.1 不同）"@,
            ),
            origin: Some(o),
            path: Some(path),
            frontend: None,
            env: None,
        },
        ResolveErrorView::NoEnv(f, env) => RefusalView {
            status: 500,
            error: "active env missing"@,
            hint: None,
            origin: None,
            path: None,
            frontend: Some(f),
            env: Some(env),
        },
        ResolveErrorView::NoRule(f, env, p) => RefusalView {
            status: 404,
            error: "no matching proxy rule"@,
            hint: None,
            origin: None,
            path: Some(p),
            frontend: Some(f),
            env: Some(env),
        },
    }
}

/// The answer to a request to `path` that is not forwarded.
pub fn refuse(e: ResolveError, path: &str) -> (r: Refusal)
    ensures
        r@ == refusal_of(e@, path@),
{
    match e {
        ResolveError::MissingOrigin => Refusal {
            status: 400,
            error: "missing origin".to_string(),
            hint: Some(
                "浏览器请求需带 Origin；推荐前端直连本代理；或仅配置一个前端后可用 curl".to_string(),
            ),
            origin: None,
            path: Some(path.to_string()),
            frontend: None,
            env: None,
        },
        ResolveError::UnknownOrigin(o) => Refusal {
            status: 403,
            error: "unknown frontend origin".to_string(),
            hint: Some(
                "在管理台为该 Origin 新建前端并配置规则（注意 localhost 与 127.0.0.1 不同）".to_string(),
            ),
            origin: Some(o),
            path: Some(path.to_string()),
            frontend: None,
            env: None,
        },
        ResolveError::NoEnv(f, env) => Refusal {
            status: 500,
            error: "active env missing".to_string(),
            hint: None,
            origin: None,
            path: None,
            frontend: Some(f),
            env: Some(env),
        },
        ResolveError::NoRule(f, env, p) => Refusal {
            status: 404,
            error: "no matching proxy rule".to_string(),
            hint: None,
            origin: None,
            path: Some(p),
            frontend: Some(f),
            env: Some(env),
        },
    }
}

/// An answer that says what went wrong, and nothing else.
#[derive(Debug)]
pub struct ErrorReply {
    pub status: u16,
    pub error: String,
}

#[verifier::ext_equal]
pub struct ErrorReplyView {
    pub status: u16,
    pub error: Seq<char>,
}

impl View for ErrorReply {
    type V = ErrorReplyView;

    open spec fn view(&self) -> ErrorReplyView {
        ErrorReplyView { status: self.status, error: self.error@ }
    }
}

/// The answer where the body of a request cannot be read.
pub fn body_unreadable(e: &str) -> (r: ErrorReply)
    ensures
        r@ == (ErrorReplyView { status: 400, error: "读取请求体失败: "@ + e@ }),
{
    ErrorReply { status: 400, error: text::cat2("读取请求体失败: ", e) }
}

// ---------------------------------------------------------------------------
// Forwarding
// ---------------------------------------------------------------------------

/// Where a request goes.
#[derive(Debug)]
pub struct Route {
    pub frontend: String,
    pub env: String,
    pub rule: Rule,
    /// The upstream address.
    pub url: String,
    pub path: String,
    /// The origin of the request, empty where it has none.
    pub origin: String,
    pub origin_is_http: bool,
    pub rewrite_cookies: bool,
}

#[verifier::ext_equal]
pub struct RouteView {
    pub frontend: Seq<char>,
    pub env: Seq<char>,
    pub rule: RuleView,
    pub url: Seq<char>,
    pub path: Seq<char>,
    pub origin: Seq<char>,
    pub origin_is_http: bool,
    pub rewrite_cookies: bool,
}

impl View for Route {
    type V = RouteView;

    open spec fn view(&self) -> RouteView {
        RouteView {
            frontend: self.frontend@,
            env: self.env@,
            rule: self.rule@,
            url: self.url@,
            path: self.path@,
            origin: self.origin@,
            origin_is_http: self.origin_is_http,
            rewrite_cookies: self.rewrite_cookies,
        }
    }
}

/// Where a request goes, or how it is refused.
pub open spec fn route_of(
    st: StateView,
    origin: Option<Seq<char>>,
    path: Seq<char>,
    query: Option<Seq<char>>,
) -> Result<RouteView, RefusalView> {
    match state::resolved(st.frontends, origin, path) {
        Err(e) => Err(refusal_of(e, path)),
        Ok(x) => {
            let (frontend, env, rule) = x;
            let shown = match origin {
                Some(o) => o,
                None => Seq::<char>::empty(),
            };
            Ok(
                RouteView {
                    frontend,
                    env,
                    rule,
                    url: upstream_url(
                        rule.target,
                        path,
                        query,
                        rule.strip_prefix,
                        rule.match_prefix,
                    ),
                    path,
                    origin: shown,
                    origin_is_http: "http://"@.is_prefix_of(shown),
                    rewrite_cookies: table::has_key(st.frontends, frontend) && table::value_of(
                        st.frontends,
                        frontend,
                    ).rewrite_cookies,
                },
            )
        },
    }
}

/// The model of a decision on a request.
pub open spec fn route_view(r: Result<Route, Refusal>) -> Result<RouteView, RefusalView> {
    match r {
        Ok(x) => Ok(x@),
        Err(e) => Err(e@),
    }
}

/// Decides where a request goes that came from the given origin.
pub fn route_request(state: &AppState, origin: Option<String>, path: &str, query: Option<&str>) -> (r:
    Result<Route, Refusal>)
    ensures
        route_view(r) == route_of(state@, text::opt_view(origin), path@, text::opt_view(query)),
{
    let found = match &origin {
        Some(o) => state.resolve(Some(o.as_str()), path),
        None => state.resolve(None, path),
    };
    let (frontend, env, rule) = match found {
        Ok(x) => x,
        Err(e) => {
            return Err(refuse(e, path));
        },
    };
    let rewrite_cookies = match state.frontends.get(frontend.as_str()) {
        Some(fe) => fe.rewrite_cookies,
        None => false,
    };
    let url = build_upstream_url(
        rule.target.as_str(),
        path,
        query,
        rule.strip_prefix,
        rule.match_prefix.as_str(),
    );
    let shown = match origin {
        Some(o) => o,
        None => String::new(),
    };
    let origin_is_http = text::starts_with(shown.as_str(), "http://");
    Ok(
        Route {
            frontend,
            env,
            rule,
            url,
            path: path.to_string(),
            origin: shown,
            origin_is_http,
            rewrite_cookies,
        },
    )
}

/// Decides where a request goes: by the origin in its headers, its path and
/// its query.
pub fn proxy_handler(state: &AppState, headers: &HeaderMap, path: &str, query: Option<&str>) -> (r:
    Result<Route, Refusal>)
    ensures
        route_view(r) == route_of(
            state@,
            state::origin_of(*headers),
            path@,
            text::opt_view(query),
        ),
{
    let origin = state::extract_origin(headers);
    route_request(state, origin, path, query)
}

/// What is sent upstream.
#[derive(Debug)]
pub struct Outbound {
    pub method: String,
    pub url: String,
    pub headers: HeaderMap,
    pub body: Vec<u8>,
    /// What the log shows of the request.
    pub req_preview: Option<String>,
}

/// What is sent upstream for a request on its route.
pub open spec fn is_outbound(
    o: Outbound,
    route: RouteView,
    method: Seq<char>,
    query: Option<Seq<char>>,
    headers: HeaderMap,
    body: Seq<u8>,
) -> bool {
    &&& o.method@ == (if headers::is_token(method) {
        method
    } else {
        "GET"@
    })
    &&& o.url@ == route.url
    &&& headers::header_values(o.headers) == last_values(
        outbound_values(headers::header_values(headers), route.rule.headers),
        HeaderChoice::All,
    )
    &&& o.body@ == body
    &&& text::opt_view(o.req_preview) == request_preview_of(
        query,
        preview(state::text_header(headers, "content-type"@), body),
    )
}

/// The content type in the headers, where it can be read.
fn content_type_of(headers: &HeaderMap) -> (r: Option<String>)
    ensures
        text::opt_view(r) == state::text_header(*headers, "content-type"@),
{
    proof {
        reveal_strlit("content-type");
        assert(text::lowered("content-type"@) =~= "content-type"@);
        assert(headers::is_header_name("content-type"@));
    }
    state::read_header(headers, "content-type")
}

/// A preview under the content type in the headers.
pub(crate) fn preview_with(headers: &HeaderMap, body: &[u8]) -> (r: Option<String>)
    ensures
        text::opt_view(r) == preview(state::text_header(*headers, "content-type"@), body@),
{
    match content_type_of(headers) {
        Some(ct) => body_preview(Some(ct.as_str()), body),
        None => body_preview(None, body),
    }
}

/// What is sent upstream for a request on its route; nothing where its headers
/// are more than a header map takes.
pub fn prepare_upstream(
    route: &Route,
    method: &str,
    query: Option<&str>,
    headers: &HeaderMap,
    body: &[u8],
) -> (r: Option<Outbound>)
    ensures
        headers::room_for(*headers, route@.rule.headers.len() + 1) ==> r is Some,
        r matches Some(o) ==> is_outbound(
            o,
            route@,
            method@,
            text::opt_view(query),
            *headers,
            body@,
        ),
{
    let req_preview = join_preview(query, preview_with(headers, body));
    let out = match upstream_headers(headers, &route.rule) {
        Some(out) => out,
        None => {
            return None;
        },
    };
    match reqwest_headers_from_axum(&out) {
        Some(headers) => Some(
            Outbound {
                method: upstream_method(method),
                url: route.url.clone(),
                headers,
                body: slice_to_vec(body),
                req_preview,
            },
        ),
        None => None,
    }
}

/// What came of an upstream request.
#[derive(Debug)]
pub enum UpstreamOutcome {
    /// No answer came.
    Unreachable(String),
    /// An answer came, but its body could not be read.
    Broken(String),
    Answered { status: u16, headers: HeaderMap, body: Vec<u8> },
}

/// What is sent back.
#[derive(Debug)]
pub enum ProxyReply {
    Failed(ErrorReply),
    Forwarded { status: u16, headers: HeaderMap, body: Vec<u8> },
}

/// The status in the log.
pub open spec fn logged_status(outcome: UpstreamOutcome) -> u16 {
    match outcome {
        UpstreamOutcome::Answered { status, .. } => status,
        _ => 502,
    }
}

/// The body preview in the log.
pub open spec fn logged_preview(outcome: UpstreamOutcome) -> Option<Seq<char>> {
    match outcome {
        UpstreamOutcome::Unreachable(e) => Some("上游错误: "@ + e@),
        UpstreamOutcome::Broken(_) => None,
        UpstreamOutcome::Answered { headers, body, .. } => preview(
            state::text_header(headers, "content-type"@),
            body@,
        ),
    }
}

/// The log entry of a forwarded request.
pub open spec fn entry_of(
    route: RouteView,
    method: Seq<char>,
    req_preview: Option<Seq<char>>,
    time: LogTime,
    duration_ms: u64,
    outcome: UpstreamOutcome,
) -> RequestLogView {
    RequestLogView {
        time,
        method,
        path: route.path,
        target: route.url,
        status: logged_status(outcome),
        duration_ms,
        rule: route.rule.name,
        env: route.env,
        frontend: route.frontend,
        origin: route.origin,
        req_preview,
        body_preview: logged_preview(outcome),
    }
}

/// The log entry of a forwarded request.
pub fn log_entry(
    route: &Route,
    method: &str,
    req_preview: Option<String>,
    time: LogTime,
    duration_ms: u64,
    outcome: &UpstreamOutcome,
) -> (r: RequestLog)
    ensures
        r@ == entry_of(
            route@,
            method@,
            text::opt_view(req_preview),
            time,
            duration_ms,
            *outcome,
        ),
{
    let (status, shown) = match outcome {
        UpstreamOutcome::Unreachable(e) => {
            (502u16, Some(text::cat2("上游错误: ", e.as_str())))
        },
        UpstreamOutcome::Broken(_) => (502u16, None),
        UpstreamOutcome::Answered { status, headers, body } => {
            (*status, preview_with(headers, body.as_slice()))
        },
    };
    RequestLog {
        time,
        method: method.to_string(),
        path: route.path.clone(),
        target: route.url.clone(),
        status,
        duration_ms,
        rule: route.rule.name.clone(),
        env: route.env.clone(),
        frontend: route.frontend.clone(),
        origin: route.origin.clone(),
        req_preview,
        body_preview: shown,
    }
}

/// The headers of an outcome can be copied for certain.
pub open spec fn outcome_fits(outcome: UpstreamOutcome) -> bool {
    outcome matches UpstreamOutcome::Answered { headers, .. } ==> headers::room_for(headers, 1)
}

/// What is sent back for an outcome.
pub open spec fn is_reply(r: ProxyReply, route: RouteView, outcome: UpstreamOutcome) -> bool {
    match outcome {
        UpstreamOutcome::Unreachable(e) => {
            r matches ProxyReply::Failed(x) && x@ == (ErrorReplyView {
                status: 502,
                error: "上游请求失败: "@ + e@,
            })
        },
        UpstreamOutcome::Broken(e) => {
            r matches ProxyReply::Failed(x) && x@ == (ErrorReplyView {
                status: 502,
                error: "读取上游响应失败: "@ + e@,
            })
        },
        UpstreamOutcome::Answered { status, headers, body } => {
            &&& r matches ProxyReply::Forwarded { status: s, headers: h, body: b }
            &&& s == status
            &&& headers::header_values(h) == returned_values(
                headers::header_values(headers),
                route.rewrite_cookies,
                route.origin_is_http,
            )
            &&& b@ == body@
        },
    }
}

/// What is sent back for an outcome; nothing where the headers of the answer
/// are more than a header map takes.
pub fn reply_to(route: &Route, outcome: UpstreamOutcome) -> (r: Option<ProxyReply>)
    ensures
        outcome_fits(outcome) ==> r is Some,
        r matches Some(x) ==> is_reply(x, route@, outcome),
{
    match outcome {
        UpstreamOutcome::Unreachable(e) => Some(
            ProxyReply::Failed(
                ErrorReply { status: 502, error: text::cat2("上游请求失败: ", e.as_str()) },
            ),
        ),
        UpstreamOutcome::Broken(e) => Some(
            ProxyReply::Failed(
                ErrorReply { status: 502, error: text::cat2("读取上游响应失败: ", e.as_str()) },
            ),
        ),
        UpstreamOutcome::Answered { status, headers, body } => {
            match response_headers(&headers, route.rewrite_cookies, route.origin_is_http) {
                Some(headers) => Some(ProxyReply::Forwarded { status, headers, body }),
                None => None,
            }
        },
    }
}

/// Logs a forwarded request and says what is sent back; nothing where the
/// headers of the answer are more than a header map takes.
pub fn finish_proxy(
    state: &mut AppState,
    route: &Route,
    method: &str,
    req_preview: Option<String>,
    time: LogTime,
    duration_ms: u64,
    outcome: UpstreamOutcome,
) -> (r: Option<ProxyReply>)
    ensures
        final(state)@ == (StateView {
            logs: state::logged(
                old(state)@.logs,
                entry_of(
                    route@,
                    method@,
                    text::opt_view(req_preview),
                    time,
                    duration_ms,
                    outcome,
                ),
            ),
            ..old(state)@
        }),
        outcome_fits(outcome) ==> r is Some,
        r matches Some(x) ==> is_reply(x, route@, outcome),
{
    let entry = log_entry(route, method, req_preview, time, duration_ms, &outcome);
    state.push_log(entry);
    reply_to(route, outcome)
}

} // verus!
