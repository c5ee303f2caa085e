//! The models of values: each field is in its place.

use crate::admin;
use crate::admin::{EnvSummary, FrontendSummary, ProbePlan, RulesPut, RulesShown};
use crate::config;
use crate::config::{Config, EnvConfig, FrontendConfig, Rule};
use crate::proxy;
use crate::proxy::{ErrorReply, Refusal, Route};
use crate::state;
use crate::state::{AppState, RequestLog, ResolveError, ResolveErrorView};
use crate::text;
use vstd::prelude::*;

verus! {

/// The model of a sequence has the models of its members in their places, and
/// that of an optional value is there where the value is.
pub proof fn law_model_of_sequence<T: View>(s: Seq<T>, o: Option<T>, i: int)
    ensures
        text::views(s).len() == s.len(),
        0 <= i < s.len() ==> text::views(s)[i] == s[i]@,
        text::opt_view(o) is Some <==> o is Some,
        o matches Some(x) ==> text::opt_view(o) == Some(x@),
{
}

/// The model of a result is on the side of the result.
pub proof fn law_model_of_result<T: View, E: View>(x: T, e: E)
    ensures
        config::result_view(Ok::<T, E>(x)) == Ok::<T::V, E::V>(x@),
        config::result_view(Err::<T, E>(e)) == Err::<T::V, E::V>(e@),
{
}

/// The model of a change has the new configuration and the answer.
pub proof fn law_model_of_change<T: View>(c: Config, x: T, e: ErrorReply)
    ensures
        admin::change_view(Ok((c, x))) == Ok::<(config::ConfigView, T::V), proxy::ErrorReplyView>(
            (c@, x@),
        ),
        admin::change_view(Err::<(Config, T), ErrorReply>(e)) == Err::<
            (config::ConfigView, T::V),
            proxy::ErrorReplyView,
        >(e@),
{
}

/// The model of a decision on a request is that of its route or refusal.
pub proof fn law_model_of_decision(
    route: Route,
    refusal: Refusal,
    f: String,
    e: String,
    rule: Rule,
    err: ResolveError,
)
    ensures
        proxy::route_view(Ok(route)) == Ok::<proxy::RouteView, proxy::RefusalView>(route@),
        proxy::route_view(Err(refusal)) == Err::<proxy::RouteView, proxy::RefusalView>(refusal@),
        state::resolve_view(Ok((f, e, rule))) == Ok::<
            (Seq<char>, Seq<char>, config::RuleView),
            ResolveErrorView,
        >((f@, e@, rule@)),
        state::resolve_view(Err(err)) == Err::<
            (Seq<char>, Seq<char>, config::RuleView),
            ResolveErrorView,
        >(err@),
        ResolveError::MissingOrigin@ == ResolveErrorView::MissingOrigin,
        ResolveError::UnknownOrigin(f)@ == ResolveErrorView::UnknownOrigin(f@),
        ResolveError::NoEnv(f, e)@ == ResolveErrorView::NoEnv(f@, e@),
        ResolveError::NoRule(f, e, f)@ == ResolveErrorView::NoRule(f@, e@, f@),
{
}

/// The model of a configuration has the models of all its fields.
pub proof fn law_model_of_config(c: Config, fe: FrontendConfig, env: EnvConfig, r: Rule)
    ensures
        c@.listen == c.listen@,
        c@.allow_origins == text::views(c.cors.allow_origins@),
        c@.frontends == c.frontends@,
        c@.active_env == c.active_env@,
        c@.envs == c.envs@,
        c@.rules == text::views(c.rules@),
        fe@.label == fe.label@,
        fe@.origins == text::views(fe.origins@),
        fe@.active_env == fe.active_env@,
        fe@.envs == fe.envs@,
        fe@.rewrite_cookies == fe.rewrite_cookies,
        env@.label == env.label@,
        env@.rules == text::views(env.rules@),
        r@.name == r.name@,
        r@.match_prefix == r.match_prefix@,
        r@.target == r.target@,
        r@.strip_prefix == r.strip_prefix,
        r@.headers == r.headers@,
{
}

/// The model of the state has the models of all its fields, and so has that of
/// a log entry.
pub proof fn law_model_of_state(st: AppState, l: RequestLog)
    ensures
        st@.frontends == st.frontends@,
        st@.logs == text::views(st.logs@),
        st@.config_path == st.config_path@,
        st@.cors_section == text::views(st.cors_section@),
        st@.cors_origins == text::views(st.cors_origins@),
        st@.listen == st.listen@,
        l@.time == l.time,
        l@.method == l.method@,
        l@.path == l.path@,
        l@.target == l.target@,
        l@.status == l.status,
        l@.duration_ms == l.duration_ms,
        l@.rule == l.rule@,
        l@.env == l.env@,
        l@.frontend == l.frontend@,
        l@.origin == l.origin@,
        l@.req_preview == text::opt_view(l.req_preview),
        l@.body_preview == text::opt_view(l.body_preview),
{
}

/// The models of routes and refusals have the models of all their fields.
pub proof fn law_model_of_route(r: Route, f: Refusal, e: ErrorReply)
    ensures
        r@.frontend == r.frontend@,
        r@.env == r.env@,
        r@.rule == r.rule@,
        r@.url == r.url@,
        r@.path == r.path@,
        r@.origin == r.origin@,
        r@.origin_is_http == r.origin_is_http,
        r@.rewrite_cookies == r.rewrite_cookies,
        f@.status == f.status,
        f@.error == f.error@,
        f@.hint == text::opt_view(f.hint),
        f@.origin == text::opt_view(f.origin),
        f@.path == text::opt_view(f.path),
        f@.frontend == text::opt_view(f.frontend),
        f@.env == text::opt_view(f.env),
        e@.status == e.status,
        e@.error == e.error@,
{
}

/// The models of what the admin console is answered have the models of all
/// fields.
pub proof fn law_model_of_answers(
    p: RulesPut,
    s: RulesShown,
    f: FrontendSummary,
    e: EnvSummary,
    plan: ProbePlan,
)
    ensures
        p@.frontend == p.frontend@,
        p@.active == p.active@,
        p@.rules == text::views(p.rules@),
        s@.frontend == s.frontend@,
        s@.active == s.active@,
        s@.origins == text::views(s.origins@),
        s@.label == s.label@,
        s@.rewrite_cookies == s.rewrite_cookies,
        s@.rules == text::views(s.rules@),
        f@.id == f.id@,
        f@.label == f.label@,
        f@.origins == text::views(f.origins@),
        f@.active_env == f.active_env@,
        f@.rewrite_cookies == f.rewrite_cookies,
        f@.env_count == f.env_count,
        f@.rule_count == f.rule_count,
        e@.id == e.id@,
        e@.label == e.label@,
        e@.rule_count == e.rule_count,
        plan@.url == plan.url@,
        plan@.rule == plan.rule@,
        plan@.env == plan.env@,
        plan@.frontend == plan.frontend@,
{
}

} // verus!
