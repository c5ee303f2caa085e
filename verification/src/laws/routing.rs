//! Where a request goes, and how it is refused.

use crate::config::{FrontendView, RuleView};
use crate::headers;
use crate::laws::settings;
use crate::laws::strings;
use crate::laws::tables;
use crate::proxy;
use crate::state;
use crate::state::{ResolveErrorView, StateView};
use crate::table;
use crate::text;
use axum::http::HeaderMap;
use vstd::prelude::*;
use vstd::utf8::*;

verus! {

// ---------------------------------------------------------------------------
// Which frontend, environment and rule
// ---------------------------------------------------------------------------

/// The position that is found is that of a frontend that serves the origin,
/// and no earlier one does; it lies past the end where none does.
pub proof fn law_first_serving(fs: Seq<(Seq<char>, FrontendView)>, origin: Seq<char>)
    ensures
        0 <= state::first_serving(fs, origin) <= fs.len(),
        state::first_serving(fs, origin) < fs.len() ==> state::serves(
            fs[state::first_serving(fs, origin)].1,
            origin,
        ),
        forall|j: int|
            0 <= j < state::first_serving(fs, origin) ==> !state::serves(
                (#[trigger] fs[j]).1,
                origin,
            ),
    decreases fs.len(),
{
    if fs.len() > 0 && !state::serves(fs[0].1, origin) {
        let rest = fs.drop_first();
        law_first_serving(rest, origin);
        assert forall|j: int| 0 <= j < state::first_serving(fs, origin) implies !state::serves(
            (#[trigger] fs[j]).1,
            origin,
        ) by {
            if j > 0 {
                assert(rest[j - 1] == fs[j]);
            }
        }
    }
}

/// A request goes to a frontend that has its origin; where one frontend alone
/// has it, to that one, in whatever order the frontends stand.
pub proof fn law_origin_picks_frontend(
    fs: Seq<(Seq<char>, FrontendView)>,
    origin: Seq<char>,
    i: int,
)
    requires
        0 <= i < fs.len(),
        state::serves(fs[i].1, text::tidy(origin)),
        forall|j: int|
            0 <= j < fs.len() && state::serves((#[trigger] fs[j]).1, text::tidy(origin)) ==> j
                == i,
    ensures
        state::frontend_for(fs, Some(origin)) == Ok::<int, ResolveErrorView>(i),
{
    law_first_serving(fs, text::tidy(origin));
}

/// A request without an origin is forwarded only where there is one frontend,
/// and then by that one.
pub proof fn law_no_origin(fs: Seq<(Seq<char>, FrontendView)>)
    ensures
        fs.len() == 1 ==> state::frontend_for(fs, None) == Ok::<int, ResolveErrorView>(0),
        fs.len() != 1 ==> state::frontend_for(fs, None) == Err::<int, ResolveErrorView>(
            ResolveErrorView::MissingOrigin,
        ),
{
}

/// The rule that forwards a request is one of the environment in force of its
/// frontend, it matches the path, and no rule there that matches has a longer
/// prefix.
pub proof fn law_longest_prefix(
    fs: Seq<(Seq<char>, FrontendView)>,
    origin: Option<Seq<char>>,
    path: Seq<char>,
)
    requires
        state::resolved(fs, origin, path) is Ok,
    ensures
        ({
            let (fid, env, rule) = state::resolved(fs, origin, path)->Ok_0;
            let i = state::frontend_for(fs, origin)->Ok_0;
            let rules = table::value_of(fs[i].1.envs, env).rules;
            &&& state::frontend_for(fs, origin) is Ok
            &&& 0 <= i < fs.len()
            &&& fid == fs[i].0
            &&& env == fs[i].1.active_env
            &&& rules.contains(rule)
            &&& state::prefix_matches(path, rule.match_prefix)
            &&& forall|j: int|
                0 <= j < rules.len() && state::prefix_matches(
                    path,
                    (#[trigger] rules[j]).match_prefix,
                ) ==> text::byte_len(rules[j].match_prefix) <= text::byte_len(rule.match_prefix)
        }),
{
    let i = state::frontend_for(fs, origin)->Ok_0;
    if let Some(o) = origin {
        law_first_serving(fs, text::tidy(o));
    }
    let rules = table::value_of(fs[i].1.envs, fs[i].1.active_env).rules;
    let b = choose|b: int| state::is_best_rule(rules, path, b);
    assert(state::is_best_rule(rules, path, b));
    assert(rules.contains(rules[b]));
}

/// Where every frontend has an environment in force, no request is refused for
/// want of one.
pub proof fn law_runnable_has_env(
    fs: Seq<(Seq<char>, FrontendView)>,
    origin: Option<Seq<char>>,
    path: Seq<char>,
)
    requires
        settings::is_runnable(fs),
    ensures
        !(state::resolved(fs, origin, path) matches Err(ResolveErrorView::NoEnv(_, _))),
{
    if let Some(o) = origin {
        law_first_serving(fs, text::tidy(o));
    }
    if let Ok(i) = state::frontend_for(fs, origin) {
        assert(table::has_key(fs[i].1.envs, fs[i].1.active_env));
    }
}

/// How a request is answered that is not forwarded: 400 where it has no origin
/// and there is not exactly one frontend, 403 where no frontend has its origin,
/// 404 where no rule matches its path; 500 where its frontend has no
/// environment in force. It is forwarded otherwise.
pub proof fn law_refusals(
    st: StateView,
    origin: Option<Seq<char>>,
    path: Seq<char>,
    query: Option<Seq<char>>,
)
    ensures
        ({
            let r = proxy::route_of(st, origin, path, query);
            let fs = st.frontends;
            let found = state::frontend_for(fs, origin);
            let fe = fs[found->Ok_0].1;
            let rules = table::value_of(fe.envs, fe.active_env).rules;
            let has_env = table::has_key(fe.envs, fe.active_env);
            let has_rule = exists|j: int|
                0 <= j < rules.len() && state::prefix_matches(
                    path,
                    (#[trigger] rules[j]).match_prefix,
                );
            &&& (r is Err && r->Err_0.status == 400) <==> origin is None && fs.len() != 1
            &&& (r is Err && r->Err_0.status == 403) <==> origin is Some && forall|i: int|
                0 <= i < fs.len() ==> !state::serves(
                    (#[trigger] fs[i]).1,
                    text::tidy(origin->0),
                )
            &&& (r is Err && r->Err_0.status == 500) <==> found is Ok && !has_env
            &&& (r is Err && r->Err_0.status == 404) <==> found is Ok && has_env && !has_rule
            &&& r is Ok <==> found is Ok && has_env && has_rule
        }),
{
    let fs = st.frontends;
    let found = state::frontend_for(fs, origin);
    let fe = fs[found->Ok_0].1;
    if let Some(o) = origin {
        law_first_serving(fs, text::tidy(o));
    }
    state::law_best_rule_exists(table::value_of(fe.envs, fe.active_env).rules, path);
}

/// What stands before the first `c` is what stands before it and holds none.
proof fn lemma_before_first(s: Seq<char>, rest: Seq<char>, c: char)
    requires
        !s.contains(c),
        rest.len() > 0 ==> rest[0] == c,
    ensures
        text::before_first(s + rest, c) == s,
    decreases s.len(),
{
    if s.len() == 0 {
        assert(s + rest =~= rest);
        assert(text::before_first(s + rest, c) =~= s);
    } else {
        assert(s.contains(s[0]));
        assert((s + rest).first() == s[0]);
        let tail = s.drop_first();
        assert((s + rest).drop_first() =~= tail + rest);
        assert(!tail.contains(c)) by {
            if tail.contains(c) {
                let i = choose|i: int| 0 <= i < tail.len() && tail[i] == c;
                assert(s[i + 1] == c);
            }
        }
        lemma_before_first(tail, rest, c);
        assert(seq![s[0]] + tail =~= s);
    }
}

/// The origin in an address is its scheme and host: what follows the host,
/// from the slash or the question mark on, is left out.
pub proof fn law_origin_in(secure: bool, host: Seq<char>, rest: Seq<char>)
    requires
        host.len() > 0,
        !host.contains('/'),
        !host.contains('?'),
        rest.len() > 0 ==> rest[0] == '/' || rest[0] == '?',
    ensures
        ({
            let scheme = if secure {
                "https://"@
            } else {
                "http://"@
            };
            state::origin_in(scheme + host + rest) == Some(scheme + host)
        }),
{
    let scheme = if secure {
        "https://"@
    } else {
        "http://"@
    };
    let url = scheme + host + rest;
    reveal_strlit("https://");
    reveal_strlit("http://");
    assert(url.subrange(0, scheme.len() as int) =~= scheme);
    if !secure {
        assert(url[4] == ':');
        assert(!"https://"@.is_prefix_of(url));
    }
    assert(url.skip(scheme.len() as int) =~= host + rest);
    if rest.len() == 0 || rest[0] == '/' {
        lemma_before_first(host, rest, '/');
        lemma_before_first(host, Seq::<char>::empty(), '?');
        assert(host + Seq::<char>::empty() =~= host);
    } else {
        let query = text::before_first(rest, '/');
        lemma_before_first_of_sum(host, rest, '/');
        assert(query.len() > 0 && query[0] == '?');
        lemma_before_first(host, query, '?');
    }
}

/// What stands before the first `c` behind a string that holds none.
proof fn lemma_before_first_of_sum(s: Seq<char>, rest: Seq<char>, c: char)
    requires
        !s.contains(c),
    ensures
        text::before_first(s + rest, c) == s + text::before_first(rest, c),
    decreases s.len(),
{
    if s.len() == 0 {
        assert(s + rest =~= rest);
        assert(s + text::before_first(rest, c) =~= text::before_first(rest, c));
    } else {
        assert(s.contains(s[0]));
        let tail = s.drop_first();
        assert((s + rest).drop_first() =~= tail + rest);
        assert(!tail.contains(c)) by {
            if tail.contains(c) {
                let i = choose|i: int| 0 <= i < tail.len() && tail[i] == c;
                assert(s[i + 1] == c);
            }
        }
        lemma_before_first_of_sum(tail, rest, c);
        assert(seq![s[0]] + (tail + text::before_first(rest, c)) =~= s + text::before_first(
            rest,
            c,
        ));
    }
}

/// The `Origin` header decides where it names an origin; the `Referer` is
/// looked at only where it does not.
pub proof fn law_origin_before_referer(m: HeaderMap)
    ensures
        ({
            let named = state::text_header(m, "origin"@);
            let says = named is Some && !text::is_blank(named->0) && text::trimmed(named->0)
                != "null"@;
            &&& says ==> state::origin_of(m) == Some(text::tidy(named->0))
            &&& !says && state::text_header(m, "referer"@) is None ==> state::origin_of(m) is None
            &&& !says && state::text_header(m, "referer"@) is Some ==> state::origin_of(m)
                == state::origin_in(state::text_header(m, "referer"@)->0)
        }),
{
}

/// A prefix matches itself and every path that goes on behind it with a slash,
/// whatever follows; but for `/`, it matches nothing else. `/` matches all.
pub proof fn law_prefix_matching(path: Seq<char>, prefix: Seq<char>, rest: Seq<char>)
    ensures
        rest.len() == 0 || rest[0] == '/' ==> state::prefix_matches(prefix + rest, prefix),
        state::prefix_matches(path, "/"@),
        prefix != "/"@ ==> (state::prefix_matches(path, prefix) <==> exists|tail: Seq<char>|
            path == #[trigger] (prefix + tail) && (tail.len() == 0 || tail[0] == '/')),
{
    let whole = prefix + rest;
    assert(whole.subrange(0, prefix.len() as int) =~= prefix);
    if rest.len() > 0 {
        assert(whole[prefix.len() as int] == rest[0]);
    } else {
        assert(whole =~= prefix);
    }
    if prefix != "/"@ && state::prefix_matches(path, prefix) {
        let tail = path.skip(prefix.len() as int);
        assert(path =~= prefix + tail);
        if tail.len() > 0 {
            assert(tail[0] == path[prefix.len() as int]);
        }
    }
    if exists|tail: Seq<char>|
        path == #[trigger] (prefix + tail) && (tail.len() == 0 || tail[0] == '/') {
        let tail = choose|tail: Seq<char>|
            path == #[trigger] (prefix + tail) && (tail.len() == 0 || tail[0] == '/');
        assert(path.subrange(0, prefix.len() as int) =~= prefix);
        if tail.len() > 0 {
            assert(path[prefix.len() as int] == tail[0]);
        }
    }
}

/// The path is under the prefix.
pub open spec fn is_under(path: Seq<char>, prefix: Seq<char>) -> bool {
    ||| prefix == "/"@
    ||| exists|tail: Seq<char>|
        path == #[trigger] (prefix + tail) && (tail.len() == 0 || tail[0] == '/')
}

/// Of the rules whose prefix the path is under, the one whose prefix takes
/// most bytes forwards it, the earliest of several; there is none only where
/// the path is under no prefix.
pub proof fn law_best_rule(rules: Seq<RuleView>, path: Seq<char>)
    ensures
        match state::best_rule(rules, path) {
            Some(rule) => exists|i: int|
                0 <= i < rules.len() && #[trigger] rules[i] == rule && is_under(
                    path,
                    rule.match_prefix,
                ) && forall|j: int|
                    0 <= j < rules.len() && is_under(path, (#[trigger] rules[j]).match_prefix)
                        ==> encode_utf8(rules[j].match_prefix).len() <= encode_utf8(
                        rule.match_prefix,
                    ).len() && (j < i ==> encode_utf8(rules[j].match_prefix).len() < encode_utf8(
                        rule.match_prefix,
                    ).len()),
            None => forall|j: int|
                0 <= j < rules.len() ==> !is_under(path, (#[trigger] rules[j]).match_prefix),
        },
{
    state::law_best_rule_exists(rules, path);
    assert forall|prefix: Seq<char>| #[trigger] is_under(path, prefix) == state::prefix_matches(
        path,
        prefix,
    ) by {
        law_prefix_matching(path, prefix, Seq::<char>::empty());
    }
    if state::best_rule(rules, path) is Some {
        let i = choose|i: int| state::is_best_rule(rules, path, i);
        let rule = rules[i];
        assert(is_under(path, rule.match_prefix));
        assert forall|j: int|
            0 <= j < rules.len() && is_under(
                path,
                (#[trigger] rules[j]).match_prefix,
            ) implies encode_utf8(rules[j].match_prefix).len() <= encode_utf8(
            rule.match_prefix,
        ).len() && (j < i ==> encode_utf8(rules[j].match_prefix).len() < encode_utf8(
            rule.match_prefix,
        ).len()) by {
            assert(state::prefix_matches(path, rules[j].match_prefix));
        }
    }
}

/// Frontend `i` is the one that a request of this origin belongs to.
pub open spec fn is_frontend_of(
    fs: Seq<(Seq<char>, FrontendView)>,
    origin: Option<Seq<char>>,
    i: int,
) -> bool {
    &&& 0 <= i < fs.len()
    &&& match origin {
        None => fs.len() == 1,
        Some(o) => {
            &&& exists|k: int|
                0 <= k < fs[i].1.origins.len() && text::tidy(#[trigger] fs[i].1.origins[k])
                    == text::tidy(o)
            &&& forall|j: int, k: int|
                0 <= j < i && 0 <= k < fs[j].1.origins.len() ==> text::tidy(
                    #[trigger] fs[j].1.origins[k],
                ) != text::tidy(o)
        },
    }
}

/// A request that belongs to a frontend is forwarded by the best rule of the
/// environment that the frontend names, and refused where there is no such
/// environment or no rule there for its path.
pub proof fn law_resolved(
    fs: Seq<(Seq<char>, FrontendView)>,
    origin: Option<Seq<char>>,
    path: Seq<char>,
    i: int,
    e: int,
)
    requires
        is_frontend_of(fs, origin, i),
        table::unique_keys(fs[i].1.envs),
    ensures
        ({
            let (fid, fe) = fs[i];
            let active = fe.active_env;
            let r = state::resolved(fs, origin, path);
            &&& (forall|j: int| 0 <= j < fe.envs.len() ==> (#[trigger] fe.envs[j]).0 != active)
                ==> r == Err::<(Seq<char>, Seq<char>, RuleView), ResolveErrorView>(
                ResolveErrorView::NoEnv(fid, active),
            )
            &&& 0 <= e < fe.envs.len() && fe.envs[e].0 == active ==> match state::best_rule(
                fe.envs[e].1.rules,
                path,
            ) {
                Some(rule) => r == Ok::<(Seq<char>, Seq<char>, RuleView), ResolveErrorView>(
                    (fid, active, rule),
                ),
                None => r == Err::<(Seq<char>, Seq<char>, RuleView), ResolveErrorView>(
                    ResolveErrorView::NoRule(fid, active, path),
                ),
            }
        }),
{
    let fe = fs[i].1;
    if let Some(o) = origin {
        let t = text::tidy(o);
        law_first_serving(fs, t);
        assert(state::serves(fs[i].1, t));
        let f = state::first_serving(fs, t);
        if f < i {
            let k = choose|k: int|
                0 <= k < fs[f].1.origins.len() && text::tidy(#[trigger] fs[f].1.origins[k]) == t;
            assert(text::tidy(fs[f].1.origins[k]) != t);
        }
    }
    assert(state::frontend_for(fs, origin) == Ok::<int, ResolveErrorView>(i));
    tables::law_lookup(fe.envs, e, fe.active_env);
    if forall|j: int| 0 <= j < fe.envs.len() ==> (#[trigger] fe.envs[j]).0 != fe.active_env {
        assert(!table::has_key(fe.envs, fe.active_env));
    }
}

/// A request that belongs to no frontend is refused: for want of an origin, or
/// because no frontend has the origin that it names.
pub proof fn law_resolved_nowhere(
    fs: Seq<(Seq<char>, FrontendView)>,
    origin: Option<Seq<char>>,
    path: Seq<char>,
)
    requires
        match origin {
            None => fs.len() != 1,
            Some(o) => forall|j: int, k: int|
                0 <= j < fs.len() && 0 <= k < fs[j].1.origins.len() ==> text::tidy(
                    #[trigger] fs[j].1.origins[k],
                ) != text::tidy(o),
        },
    ensures
        state::resolved(fs, origin, path) == Err::<
            (Seq<char>, Seq<char>, RuleView),
            ResolveErrorView,
        >(
            match origin {
                None => ResolveErrorView::MissingOrigin,
                Some(o) => ResolveErrorView::UnknownOrigin(text::tidy(o)),
            },
        ),
{
    if let Some(o) = origin {
        let t = text::tidy(o);
        law_first_serving(fs, t);
        let f = state::first_serving(fs, t);
        if f < fs.len() {
            let k = choose|k: int|
                0 <= k < fs[f].1.origins.len() && text::tidy(#[trigger] fs[f].1.origins[k]) == t;
            assert(text::tidy(fs[f].1.origins[k]) != t);
        }
    }
}

/// A route names the frontend, the environment and the rule that were found,
/// the path and the origin of the request, and the cookie switch of the
/// frontend; its address is the rule's target with path and query.
pub proof fn law_route(
    st: StateView,
    origin: Option<Seq<char>>,
    path: Seq<char>,
    query: Option<Seq<char>>,
    i: int,
)
    requires
        is_frontend_of(st.frontends, origin, i),
        table::unique_keys(st.frontends),
        table::unique_keys(st.frontends[i].1.envs),
        state::resolved(st.frontends, origin, path) is Ok,
    ensures
        ({
            let (fid, env, rule) = state::resolved(st.frontends, origin, path)->Ok_0;
            let r = proxy::route_of(st, origin, path, query);
            let route = r->Ok_0;
            &&& r is Ok
            &&& route.frontend == fid
            &&& route.env == env
            &&& route.rule == rule
            &&& route.path == path
            &&& route.url == proxy::upstream_url(
                rule.target,
                path,
                query,
                rule.strip_prefix,
                rule.match_prefix,
            )
            &&& origin is None ==> route.origin.len() == 0 && !route.origin_is_http
            &&& origin matches Some(o) ==> route.origin == o && (route.origin_is_http <==> exists|
                tail: Seq<char>,
            |
                o == #[trigger] ("http://"@ + tail))
            &&& route.rewrite_cookies == st.frontends[i].1.rewrite_cookies
        }),
{
    let fs = st.frontends;
    let fe = fs[i].1;
    let e = table::key_index(fe.envs, fe.active_env);
    law_resolved(fs, origin, path, i, e);
    if table::has_key(fe.envs, fe.active_env) {
        assert(0 <= e < fe.envs.len() && fe.envs[e].0 == fe.active_env);
    } else {
        assert forall|j: int| 0 <= j < fe.envs.len() implies (#[trigger] fe.envs[j]).0
            != fe.active_env by {}
    }
    tables::law_lookup(fs, i, fs[i].0);
    assert(table::has_key(fs, fs[i].0));
    reveal_strlit("http://");
    let scheme = "http://"@;
    match origin {
        Some(o) => {
            if scheme.is_prefix_of(o) {
                assert(o =~= scheme + o.skip(scheme.len() as int));
            }
            if exists|tail: Seq<char>| o == #[trigger] (scheme + tail) {
                let tail = choose|tail: Seq<char>| o == #[trigger] (scheme + tail);
                assert(o.subrange(0, scheme.len() as int) =~= scheme);
            }
        },
        None => {},
    }
}

/// A request that is not forwarded is told why: with the status, the error and
/// what concerns it, field by field.
pub proof fn law_refusal_fields(
    st: StateView,
    origin: Option<Seq<char>>,
    path: Seq<char>,
    query: Option<Seq<char>>,
)
    requires
        state::resolved(st.frontends, origin, path) is Err,
    ensures
        ({
            let e = state::resolved(st.frontends, origin, path)->Err_0;
            let r = proxy::route_of(st, origin, path, query)->Err_0;
            &&& proxy::route_of(st, origin, path, query) is Err
            &&& e is MissingOrigin ==> {
                &&& r.status == 400
                &&& r.error == "missing origin"@
                &&& r.hint == Some(
                    "浏览器请求需带 Origin；推荐前端直连本代理；或仅配置一个前端后可用 curl"@,
                )
                &&& r.path == Some(path)
                &&& r.origin is None && r.frontend is None && r.env is None
            }
            &&& e matches ResolveErrorView::UnknownOrigin(o) ==> {
                &&& r.status == 403
                &&& r.error == "unknown frontend origin"@
                &&& r.hint == Some(
                    "在管理台为该 Origin 新建前端并配置规则（注意 localhost 与 127.0.0.1 不同）"@,
                )
                &&& r.origin == Some(o)
                &&& r.path == Some(path)
                &&& r.frontend is None && r.env is None
            }
            &&& e matches ResolveErrorView::NoEnv(f, env) ==> {
                &&& r.status == 500
                &&& r.error == "active env missing"@
                &&& r.frontend == Some(f)
                &&& r.env == Some(env)
                &&& r.hint is None && r.origin is None && r.path is None
            }
            &&& e matches ResolveErrorView::NoRule(f, env, p) ==> {
                &&& r.status == 404
                &&& r.error == "no matching proxy rule"@
                &&& r.frontend == Some(f)
                &&& r.env == Some(env)
                &&& r.path == Some(p)
                &&& r.hint is None && r.origin is None
            }
        }),
{
}

/// A header is read as text by its first value, where every byte of that is a
/// visible character, a space or a tab.
pub proof fn law_text_header(m: HeaderMap, name: Seq<char>)
    ensures
        ({
            let values = headers::header_values(m);
            let v = values[name][0];
            let readable = values.contains_key(name) && forall|i: int|
                0 <= i < v.len() ==> (32 <= #[trigger] v[i] <= 126 || v[i] == 9);
            let r = state::text_header(m, name);
            &&& r is Some <==> readable
            &&& readable ==> r->0.len() == v.len() && forall|i: int|
                0 <= i < v.len() ==> #[trigger] r->0[i] as int == v[i] as int
        }),
{
    let values = headers::header_values(m);
    let v = values[name][0];
    assert(headers::is_text_value(v) <==> forall|i: int|
        0 <= i < v.len() ==> (32 <= #[trigger] v[i] <= 126 || v[i] == 9)) by {
        assert(forall|b: u8| #[trigger]
            headers::is_text_byte(b) <==> (32 <= b <= 126 || b == 9));
    }
    if headers::is_text_value(v) {
        let s = headers::value_text(v);
        assert forall|i: int| 0 <= i < v.len() implies #[trigger] s[i] as int == v[i] as int by {
            assert(headers::is_text_byte(v[i]));
        }
    }
}

/// An address of another scheme, or without a host, has no origin.
pub proof fn law_no_origin_in(url: Seq<char>, rest: Seq<char>)
    requires
        rest.len() == 0 || rest[0] == '/' || rest[0] == '?',
    ensures
        (forall|tail: Seq<char>|
            url != #[trigger] ("http://"@ + tail) && url != "https://"@ + tail)
            ==> state::origin_in(url) is None,
        state::origin_in("http://"@ + rest) is None,
        state::origin_in("https://"@ + rest) is None,
{
    reveal_strlit("https://");
    reveal_strlit("http://");
    let plain = "http://"@;
    let secure = "https://"@;
    if secure.is_prefix_of(url) {
        let tail = url.skip(secure.len() as int);
        assert(url =~= secure + tail);
        assert(url == secure + tail && plain + tail == plain + tail);
    }
    if plain.is_prefix_of(url) {
        let tail = url.skip(plain.len() as int);
        assert(url =~= plain + tail);
    }
    let a = plain + rest;
    assert(a.subrange(0, plain.len() as int) =~= plain);
    assert(a[4] == ':');
    assert(!secure.is_prefix_of(a));
    assert(a.skip(plain.len() as int) =~= rest);
    let b = secure + rest;
    assert(b.subrange(0, secure.len() as int) =~= secure);
    assert(b.skip(secure.len() as int) =~= rest);
    let head = text::before_first(rest, '/');
    strings::law_before_first(rest, '/');
    strings::law_before_first(head, '?');
    if head.len() > 0 {
        assert(head[0] == rest[0]);
        assert(head[0] == '?') by {
            if rest[0] == '/' {
                assert(head.contains(head[0]));
            }
        }
        let host = text::before_first(head, '?');
        if host.len() > 0 {
            assert(host[0] == head[0]);
            assert(host.contains(host[0]));
        }
    }
}

// ---------------------------------------------------------------------------
// The upstream address
// ---------------------------------------------------------------------------

/// A prefix that matches is taken off the path where the rule says so: what is
/// left is forwarded, and a lone slash where nothing is left. The prefix `/`
/// matches without being taken off.
pub proof fn law_prefix_taken_off(prefix: Seq<char>, rest: Seq<char>)
    requires
        state::prefix_matches(prefix + rest, prefix),
        prefix != "/"@,
    ensures
        proxy::forward_path(prefix + rest, true, prefix) == (if rest.len() == 0 {
            "/"@
        } else {
            rest
        }),
{
    let path = prefix + rest;
    assert(path.subrange(0, prefix.len() as int) =~= prefix);
    assert(path.skip(prefix.len() as int) =~= rest);
    if rest.len() > 0 {
        assert(path[prefix.len() as int] == rest[0]);
    }
}

/// A path that begins with a slash is forwarded as one that does.
pub proof fn law_forwarded_path_begins_with_slash(path: Seq<char>, strip: bool, prefix: Seq<char>)
    requires
        path.len() > 0,
        path[0] == '/',
    ensures
        proxy::forward_path(path, strip, prefix).len() > 0,
        proxy::forward_path(path, strip, prefix)[0] == '/',
{
    reveal_strlit("/");
}

/// Without stripping the path is forwarded as it is, and the query behind it.
pub proof fn law_unstripped_url(
    target: Seq<char>,
    path: Seq<char>,
    query: Option<Seq<char>>,
    prefix: Seq<char>,
)
    ensures
        proxy::upstream_url(target, path, query, false, prefix) == target + path + (if query
            is Some && query->0.len() > 0 {
            "?"@ + query->0
        } else {
            Seq::<char>::empty()
        }),
{
    if query is Some && query->0.len() > 0 {
        assert(target + path + "?"@ + query->0 =~= target + path + ("?"@ + query->0));
    } else {
        assert(target + path + Seq::<char>::empty() =~= target + path);
    }
}

/// What is forwarded of a path with stripping on: behind the prefix, what
/// follows it where that begins with a slash, and a slash where nothing
/// follows; else the whole path.
pub proof fn law_stripped_path(path: Seq<char>, prefix: Seq<char>, rest: Seq<char>)
    ensures
        rest.len() == 0 ==> proxy::forward_path(prefix + rest, true, prefix) == "/"@,
        rest.len() > 0 && rest[0] == '/' ==> proxy::forward_path(prefix + rest, true, prefix)
            == rest,
        rest.len() > 0 && rest[0] != '/' ==> proxy::forward_path(prefix + rest, true, prefix)
            == prefix + rest,
        path.len() > 0 && (forall|tail: Seq<char>| path != #[trigger] (prefix + tail))
            ==> proxy::forward_path(path, true, prefix) == path,
        proxy::forward_path(path, false, prefix) == path,
{
    let whole = prefix + rest;
    assert(whole.subrange(0, prefix.len() as int) =~= prefix);
    assert(whole.skip(prefix.len() as int) =~= rest);
    if prefix.is_prefix_of(path) {
        assert(path =~= prefix + path.skip(prefix.len() as int));
    }
}

/// With stripping too, the address is the target, what is left of the path,
/// and the whole query behind a question mark, where there is one.
pub proof fn law_stripped_url(
    target: Seq<char>,
    prefix: Seq<char>,
    rest: Seq<char>,
    q: Seq<char>,
)
    requires
        rest.len() == 0 || rest[0] == '/',
    ensures
        ({
            let left = if rest.len() == 0 {
                "/"@
            } else {
                rest
            };
            let path = prefix + rest;
            &&& q.len() > 0 ==> proxy::upstream_url(target, path, Some(q), true, prefix) == target
                + left + "?"@ + q
            &&& proxy::upstream_url(target, path, Some(Seq::<char>::empty()), true, prefix)
                == target + left
            &&& proxy::upstream_url(target, path, None, true, prefix) == target + left
        }),
{
    law_stripped_path(prefix + rest, prefix, rest);
}

/// Whatever the rule says of stripping, the address is the target, the
/// forwarded path and the whole query.
pub proof fn law_url(
    target: Seq<char>,
    path: Seq<char>,
    query: Option<Seq<char>>,
    strip: bool,
    prefix: Seq<char>,
)
    ensures
        proxy::upstream_url(target, path, query, strip, prefix) == target + proxy::forward_path(
            path,
            strip,
            prefix,
        ) + (if query is Some && query->0.len() > 0 {
            "?"@ + query->0
        } else {
            Seq::<char>::empty()
        }),
{
    let base = target + proxy::forward_path(path, strip, prefix);
    if query is Some && query->0.len() > 0 {
        assert(base + "?"@ + query->0 =~= base + ("?"@ + query->0));
    } else {
        assert(base + Seq::<char>::empty() =~= base);
    }
}

} // verus!
