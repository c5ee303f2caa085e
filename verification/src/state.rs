//! What the running proxy holds, and which frontend, environment and rule a
//! request belongs to.

use crate::config;
use crate::config::{Config, ConfigView, CorsConfig, FrontendConfig, FrontendView, Rule, RuleView};
use crate::headers;
use crate::laws::routing;
use crate::table;
use crate::table::Table;
use crate::text;
use crate::text::Duplicate;
use axum::http::HeaderMap;
use std::collections::VecDeque;
use vstd::prelude::*;
use vstd::string::*;

verus! {

broadcast use vstd::string::group_string_axioms;

// ---------------------------------------------------------------------------
// Types and models
// ---------------------------------------------------------------------------

/// How many requests the log keeps.
pub const LOG_CAPACITY: usize = 500;

/// A point in time: seconds since 1970-01-01 UTC, and nanoseconds.
#[derive(Debug, Clone, Copy, PartialEq, Eq, Structural)]
pub struct LogTime {
    pub secs: i64,
    pub nanos: u32,
}

/// One forwarded request.
#[derive(Debug)]
pub struct RequestLog {
    pub time: LogTime,
    pub method: String,
    pub path: String,
    pub target: String,
    pub status: u16,
    pub duration_ms: u64,
    pub rule: String,
    pub env: String,
    pub frontend: String,
    pub origin: String,
    pub req_preview: Option<String>,
    pub body_preview: Option<String>,
}

#[verifier::ext_equal]
pub struct RequestLogView {
    pub time: LogTime,
    pub method: Seq<char>,
    pub path: Seq<char>,
    pub target: Seq<char>,
    pub status: u16,
    pub duration_ms: u64,
    pub rule: Seq<char>,
    pub env: Seq<char>,
    pub frontend: Seq<char>,
    pub origin: Seq<char>,
    pub req_preview: Option<Seq<char>>,
    pub body_preview: Option<Seq<char>>,
}

impl View for RequestLog {
    type V = RequestLogView;

    open spec fn view(&self) -> RequestLogView {
        RequestLogView {
            time: self.time,
            method: self.method@,
            path: self.path@,
            target: self.target@,
            status: self.status,
            duration_ms: self.duration_ms,
            rule: self.rule@,
            env: self.env@,
            frontend: self.frontend@,
            origin: self.origin@,
            req_preview: text::opt_view(self.req_preview),
            body_preview: text::opt_view(self.body_preview),
        }
    }
}

impl Duplicate for RequestLog {
    fn duplicate(&self) -> (r: Self) {
        RequestLog {
            time: self.time,
            method: self.method.clone(),
            path: self.path.clone(),
            target: self.target.clone(),
            status: self.status,
            duration_ms: self.duration_ms,
            rule: self.rule.clone(),
            env: self.env.clone(),
            frontend: self.frontend.clone(),
            origin: self.origin.clone(),
            req_preview: text::duplicate_opt(&self.req_preview),
            body_preview: text::duplicate_opt(&self.body_preview),
        }
    }
}

impl Clone for RequestLog {
    fn clone(&self) -> (r: Self)
        ensures
            r@ == self@,
    {
        self.duplicate()
    }
}

/// What the running proxy holds.
#[derive(Debug)]
pub struct AppState {
    pub frontends: Table<FrontendConfig>,
    pub logs: VecDeque<RequestLog>,
    pub config_path: String,
    /// The origins that the configuration allows besides those of frontends.
    pub cors_section: Vec<String>,
    /// Every origin that is allowed.
    pub cors_origins: Vec<String>,
    pub listen: String,
}

#[verifier::ext_equal]
pub struct StateView {
    pub frontends: Seq<(Seq<char>, FrontendView)>,
    pub logs: Seq<RequestLogView>,
    pub config_path: Seq<char>,
    pub cors_section: Seq<Seq<char>>,
    pub cors_origins: Seq<Seq<char>>,
    pub listen: Seq<char>,
}

impl View for AppState {
    type V = StateView;

    open spec fn view(&self) -> StateView {
        StateView {
            frontends: self.frontends@,
            logs: text::views(self.logs@),
            config_path: self.config_path@,
            cors_section: text::views(self.cors_section@),
            cors_origins: text::views(self.cors_origins@),
            listen: self.listen@,
        }
    }
}

/// Why a request is not forwarded.
#[derive(Debug)]
pub enum ResolveError {
    /// No origin, and not exactly one frontend.
    MissingOrigin,
    /// No frontend has the origin.
    UnknownOrigin(String),
    /// The frontend has no environment of the name that is in force.
    NoEnv(String, String),
    /// No rule of the environment matches the path.
    NoRule(String, String, String),
}

pub enum ResolveErrorView {
    MissingOrigin,
    UnknownOrigin(Seq<char>),
    NoEnv(Seq<char>, Seq<char>),
    NoRule(Seq<char>, Seq<char>, Seq<char>),
}

impl View for ResolveError {
    type V = ResolveErrorView;

    open spec fn view(&self) -> ResolveErrorView {
        match *self {
            ResolveError::MissingOrigin => ResolveErrorView::MissingOrigin,
            ResolveError::UnknownOrigin(o) => ResolveErrorView::UnknownOrigin(o@),
            ResolveError::NoEnv(f, e) => ResolveErrorView::NoEnv(f@, e@),
            ResolveError::NoRule(f, e, p) => ResolveErrorView::NoRule(f@, e@, p@),
        }
    }
}

// ---------------------------------------------------------------------------
// Rules
// ---------------------------------------------------------------------------

/// A prefix matches the paths that continue it at a slash; `/` matches all.
pub open spec fn prefix_matches(path: Seq<char>, prefix: Seq<char>) -> bool {
    ||| prefix == "/"@
    ||| {
        &&& prefix.is_prefix_of(path)
        &&& path.len() == prefix.len() || path[prefix.len() as int] == '/'
    }
}

/// Rule `i` is the one that forwards `path`: it matches, no matching rule has
/// a longer prefix, and no earlier one has a prefix as long.
pub open spec fn is_best_rule(rules: Seq<RuleView>, path: Seq<char>, i: int) -> bool {
    &&& 0 <= i < rules.len()
    &&& prefix_matches(path, rules[i].match_prefix)
    &&& forall|j: int|
        0 <= j < rules.len() && prefix_matches(path, (#[trigger] rules[j]).match_prefix) ==> {
            &&& text::byte_len(rules[j].match_prefix) <= text::byte_len(rules[i].match_prefix)
            &&& j < i ==> text::byte_len(rules[j].match_prefix) < text::byte_len(
                rules[i].match_prefix,
            )
        }
}

/// The rule that forwards `path`, where one matches.
pub open spec fn best_rule(rules: Seq<RuleView>, path: Seq<char>) -> Option<RuleView> {
    if exists|i: int| is_best_rule(rules, path, i) {
        Some(rules[choose|i: int| is_best_rule(rules, path, i)])
    } else {
        None
    }
}

/// At most one rule forwards a path.
pub proof fn law_best_rule_unique(rules: Seq<RuleView>, path: Seq<char>, i: int, j: int)
    requires
        is_best_rule(rules, path, i),
        is_best_rule(rules, path, j),
    ensures
        i == j,
{
    assert(prefix_matches(path, rules[i].match_prefix));
    assert(prefix_matches(path, rules[j].match_prefix));
}

/// Some rule forwards a path exactly where some rule matches it.
pub proof fn law_best_rule_exists(rules: Seq<RuleView>, path: Seq<char>)
    ensures
        best_rule(rules, path) is Some <==> exists|j: int|
            0 <= j < rules.len() && prefix_matches(path, (#[trigger] rules[j]).match_prefix),
    decreases rules.len(),
{
    if rules.len() > 0 {
        let front = rules.drop_last();
        let n = rules.len() - 1;
        law_best_rule_exists(front, path);
        assert(forall|j: int| 0 <= j < n ==> front[j] == rules[j]);
        if exists|i: int| is_best_rule(front, path, i) {
            let b = choose|i: int| is_best_rule(front, path, i);
            assert(prefix_matches(path, rules[b].match_prefix));
            if prefix_matches(path, rules[n].match_prefix) && text::byte_len(
                rules[n].match_prefix,
            ) > text::byte_len(rules[b].match_prefix) {
                assert(is_best_rule(rules, path, n)) by {
                    assert forall|j: int|
                        0 <= j < rules.len() && prefix_matches(
                            path,
                            (#[trigger] rules[j]).match_prefix,
                        ) implies text::byte_len(rules[j].match_prefix) <= text::byte_len(
                        rules[n].match_prefix,
                    ) && (j < n ==> text::byte_len(rules[j].match_prefix) < text::byte_len(
                        rules[n].match_prefix,
                    )) by {
                        if j < n {
                            assert(front[j] == rules[j]);
                        }
                    }
                }
            } else {
                assert(is_best_rule(rules, path, b)) by {
                    assert forall|j: int|
                        0 <= j < rules.len() && prefix_matches(
                            path,
                            (#[trigger] rules[j]).match_prefix,
                        ) implies text::byte_len(rules[j].match_prefix) <= text::byte_len(
                        rules[b].match_prefix,
                    ) && (j < b ==> text::byte_len(rules[j].match_prefix) < text::byte_len(
                        rules[b].match_prefix,
                    )) by {
                        if j < n {
                            assert(front[j] == rules[j]);
                        }
                    }
                }
            }
        } else {
            assert forall|j: int| 0 <= j < n implies !prefix_matches(
                path,
                (#[trigger] rules[j]).match_prefix,
            ) by {
                assert(front[j] == rules[j]);
            }
            if prefix_matches(path, rules[n].match_prefix) {
                assert(is_best_rule(rules, path, n));
            }
        }
    }
}

/// Whether a prefix matches a path.
pub fn path_matches(path: &str, prefix: &str) -> (r: bool)
    ensures
        r == prefix_matches(path@, prefix@),
        prefix@ == "/"@ ==> r,
        prefix@ != "/"@ ==> (r <==> exists|rest: Seq<char>|
            path@ == #[trigger] (prefix@ + rest) && (rest.len() == 0 || rest[0] == '/')),
{
    proof {
        routing::law_prefix_matching(path@, prefix@, Seq::<char>::empty());
    }
    if text::same(prefix, "/") {
        return true;
    }
    match text::strip_prefix(path, prefix) {
        Some(rest) => {
            let empty = rest.as_str().is_empty();
            empty || text::first_is(rest.as_str(), '/')
        },
        None => false,
    }
}

/// The rule that forwards a path: the one with the longest matching prefix,
/// the earliest of several.
pub fn find_best_rule(rules: &Vec<Rule>, path: &str) -> (r: Option<Rule>)
    ensures
        text::opt_view(r) == best_rule(text::views(rules@), path@),
{
    let ghost all = text::views(rules@);
    let mut best: Option<usize> = None;
    let mut i: usize = 0;
    while i < rules.len()
        invariant
            i <= rules@.len(),
            all == text::views(rules@),
            best matches Some(b) ==> b < i && is_best_rule(all.take(i as int), path@, b as int),
            best is None ==> forall|j: int|
                0 <= j < i ==> !prefix_matches(path@, (#[trigger] all[j]).match_prefix),
        decreases rules@.len() - i,
    {
        let ghost upto = all.take(i + 1);
        assert(upto[i as int] == rules@[i as int]@);
        assert(forall|j: int| 0 <= j < i ==> upto[j] == all.take(i as int)[j]);
        if path_matches(path, rules[i].match_prefix.as_str()) {
            match best {
                None => {
                    assert(is_best_rule(upto, path@, i as int));
                    best = Some(i);
                },
                Some(b) => {
                    assert(prefix_matches(path@, all.take(i as int)[b as int].match_prefix));
                    if text::utf8_len(rules[i].match_prefix.as_str()) > text::utf8_len(
                        rules[b].match_prefix.as_str(),
                    ) {
                        assert(is_best_rule(upto, path@, i as int));
                        best = Some(i);
                    } else {
                        assert(is_best_rule(upto, path@, b as int));
                    }
                },
            }
        } else {
            if let Some(b) = best {
                assert(is_best_rule(upto, path@, b as int));
            }
        }
        i = i + 1;
    }
    assert(all.take(all.len() as int) =~= all);
    match best {
        Some(b) => {
            proof {
                let c = choose|k: int| is_best_rule(all, path@, k);
                law_best_rule_unique(all, path@, b as int, c);
            }
            Some(rules[b].clone())
        },
        None => {
            assert(forall|k: int| !is_best_rule(all, path@, k));
            None
        },
    }
}

// ---------------------------------------------------------------------------
// Frontends
// ---------------------------------------------------------------------------

/// One of the frontend's origins is `origin`, up to white space around and
/// slashes behind.
pub open spec fn serves(fe: FrontendView, origin: Seq<char>) -> bool {
    exists|i: int| 0 <= i < fe.origins.len() && text::tidy(#[trigger] fe.origins[i]) == origin
}

/// The position of the first frontend that serves `origin`; past the end
/// where none does.
pub open spec fn first_serving(fs: Seq<(Seq<char>, FrontendView)>, origin: Seq<char>) -> int
    decreases fs.len(),
{
    if fs.len() == 0 || serves(fs[0].1, origin) {
        0
    } else {
        1 + first_serving(fs.drop_first(), origin)
    }
}

/// The position of the frontend that a request belongs to.
pub open spec fn frontend_for(
    fs: Seq<(Seq<char>, FrontendView)>,
    origin: Option<Seq<char>>,
) -> Result<int, ResolveErrorView> {
    match origin {
        Some(o) => {
            let i = first_serving(fs, text::tidy(o));
            if i < fs.len() {
                Ok(i)
            } else {
                Err(ResolveErrorView::UnknownOrigin(text::tidy(o)))
            }
        },
        None => if fs.len() == 1 {
            Ok(0)
        } else {
            Err(ResolveErrorView::MissingOrigin)
        },
    }
}

/// What a request belongs to: frontend, environment and rule.
pub open spec fn resolved(
    fs: Seq<(Seq<char>, FrontendView)>,
    origin: Option<Seq<char>>,
    path: Seq<char>,
) -> Result<(Seq<char>, Seq<char>, RuleView), ResolveErrorView> {
    match frontend_for(fs, origin) {
        Err(e) => Err(e),
        Ok(i) => {
            let fid = fs[i].0;
            let env = fs[i].1.active_env;
            if !table::has_key(fs[i].1.envs, env) {
                Err(ResolveErrorView::NoEnv(fid, env))
            } else {
                match best_rule(table::value_of(fs[i].1.envs, env).rules, path) {
                    Some(rule) => Ok((fid, env, rule)),
                    None => Err(ResolveErrorView::NoRule(fid, env, path)),
                }
            }
        },
    }
}

/// The model of what `resolve` returns.
pub open spec fn resolve_view(r: Result<(String, String, Rule), ResolveError>) -> Result<
    (Seq<char>, Seq<char>, RuleView),
    ResolveErrorView,
> {
    match r {
        Ok(x) => Ok((x.0@, x.1@, x.2@)),
        Err(e) => Err(e@),
    }
}

fn frontend_serves(fe: &FrontendConfig, origin: &str) -> (r: bool)
    ensures
        r == serves(fe@, origin@),
{
    let mut i: usize = 0;
    while i < fe.origins.len()
        invariant
            i <= fe.origins@.len(),
            forall|j: int| 0 <= j < i ==> text::tidy(#[trigger] fe@.origins[j]) != origin@,
        decreases fe.origins@.len() - i,
    {
        let t = text::tidied(fe.origins[i].as_str());
        if text::same(t.as_str(), origin) {
            assert(text::tidy(fe@.origins[i as int]) == origin@);
            return true;
        }
        i = i + 1;
    }
    false
}

fn find_frontend(fs: &Table<FrontendConfig>, origin: &str) -> (r: Option<usize>)
    ensures
        r is Some <==> first_serving(fs@, origin@) < fs@.len(),
        r matches Some(i) ==> i == first_serving(fs@, origin@),
{
    let n: usize = fs.len();
    let mut i: usize = 0;
    assert(fs@.skip(0) =~= fs@);
    while i < n
        invariant
            i <= n == fs@.len(),
            first_serving(fs@, origin@) == i + first_serving(fs@.skip(i as int), origin@),
        decreases n - i,
    {
        assert(fs@.skip(i as int)[0] == fs@[i as int]);
        assert(fs@.skip(i as int).drop_first() =~= fs@.skip(i + 1));
        if frontend_serves(fs.value_at(i), origin) {
            return Some(i);
        }
        i = i + 1;
    }
    None
}

// ---------------------------------------------------------------------------
// The origin of a request
// ---------------------------------------------------------------------------

/// The first value of a header, where it is there and can be read as text.
pub open spec fn text_header(m: HeaderMap, name: Seq<char>) -> Option<Seq<char>> {
    let values = headers::header_values(m);
    if values.contains_key(name) && headers::is_text_value(values[name][0]) {
        Some(headers::value_text(values[name][0]))
    } else {
        None
    }
}

/// The scheme and host of an `http` or `https` address.
pub open spec fn origin_in(url: Seq<char>) -> Option<Seq<char>> {
    let scheme = if "https://"@.is_prefix_of(url) {
        "https://"@
    } else {
        "http://"@
    };
    if !scheme.is_prefix_of(url) {
        None
    } else {
        let host = text::before_first(
            text::before_first(url.skip(scheme.len() as int), '/'),
            '?',
        );
        if host.len() == 0 {
            None
        } else {
            Some(scheme + host)
        }
    }
}

/// The origin of a request: the `Origin` header where it says one, else that
/// of the `Referer`.
pub open spec fn origin_of(m: HeaderMap) -> Option<Seq<char>> {
    let origin = text_header(m, "origin"@);
    if origin is Some && !text::is_blank(origin->0) && text::trimmed(origin->0) != "null"@ {
        Some(text::tidy(origin->0))
    } else {
        match text_header(m, "referer"@) {
            Some(url) => origin_in(url),
            None => None,
        }
    }
}

/// The header, read as text.
pub(crate) fn read_header(m: &HeaderMap, name: &str) -> (r: Option<String>)
    requires
        text::lowered(name@) == name@,
        headers::is_header_name(name@),
    ensures
        text::opt_view(r) == text_header(*m, name@),
{
    match headers::header_first(m, name) {
        Some(v) => headers::header_text(v.as_slice()),
        None => None,
    }
}

/// The scheme and host of an `http` or `https` address.
pub fn origin_from_url(url: &str) -> (r: Option<String>)
    ensures
        text::opt_view(r) == origin_in(url@),
{
    let scheme = if text::starts_with(url, "https://") {
        "https://"
    } else {
        "http://"
    };
    match text::strip_prefix(url, scheme) {
        Some(rest) => {
            let authority = text::head_of(rest.as_str(), '/');
            let host = text::head_of(authority.as_str(), '?');
            if host.as_str().is_empty() {
                None
            } else {
                Some(text::cat2(scheme, host.as_str()))
            }
        },
        None => None,
    }
}

/// The origin of a request: the `Origin` header where it says one, else that
/// of the `Referer`.
pub fn extract_origin(headers: &HeaderMap) -> (r: Option<String>)
    ensures
        text::opt_view(r) == origin_of(*headers),
{
    proof {
        reveal_strlit("origin");
        reveal_strlit("referer");
        assert(text::lowered("origin"@) =~= "origin"@);
        assert(text::lowered("referer"@) =~= "referer"@);
        assert(headers::is_header_name("origin"@));
        assert(headers::is_header_name("referer"@));
    }
    if let Some(o) = read_header(headers, "origin") {
        let t = text::trim(o.as_str());
        let empty = t.as_str().is_empty();
        if !empty && !text::same(t.as_str(), "null") {
            return Some(text::trim_end_char(t.as_str(), '/'));
        }
    }
    match read_header(headers, "referer") {
        Some(url) => origin_from_url(url.as_str()),
        None => None,
    }
}

// ---------------------------------------------------------------------------
// The log
// ---------------------------------------------------------------------------

/// The log with one more entry; the oldest leaves a full log.
pub open spec fn logged(logs: Seq<RequestLogView>, entry: RequestLogView) -> Seq<RequestLogView> {
    if logs.len() >= LOG_CAPACITY {
        logs.drop_first().push(entry)
    } else {
        logs.push(entry)
    }
}

/// What is looked for in the log.
#[verifier::ext_equal]
pub struct LogFilter {
    pub frontend: Option<Seq<char>>,
    pub status_min: Option<u16>,
    pub status_max: Option<u16>,
}

pub open spec fn log_passes(f: LogFilter, l: RequestLogView) -> bool {
    &&& f.frontend matches Some(id) ==> l.frontend == id
    &&& f.status_min matches Some(m) ==> l.status >= m
    &&& f.status_max matches Some(m) ==> l.status <= m
}

/// At most `limit` entries that pass, the newest first.
pub open spec fn recent(logs: Seq<RequestLogView>, limit: nat, f: LogFilter) -> Seq<
    RequestLogView,
> {
    let found = logs.reverse().filter(|l: RequestLogView| log_passes(f, l));
    if found.len() > limit {
        found.take(limit as int)
    } else {
        found
    }
}

/// The entries that a clearing leaves: those of other frontends, or none.
pub open spec fn cleared(logs: Seq<RequestLogView>, frontend: Option<Seq<char>>) -> Seq<
    RequestLogView,
> {
    match frontend {
        Some(id) => logs.filter(|l: RequestLogView| l.frontend != id),
        None => Seq::<RequestLogView>::empty(),
    }
}

// ---------------------------------------------------------------------------
// The state
// ---------------------------------------------------------------------------

/// The state that runs a configuration.
pub open spec fn initial_state(c: ConfigView, path: Seq<char>) -> StateView {
    StateView {
        frontends: c.frontends,
        logs: Seq::<RequestLogView>::empty(),
        config_path: path,
        cors_section: c.allow_origins,
        cors_origins: config::origins_of(c),
        listen: c.listen,
    }
}

/// The state after a change to another configuration.
pub open spec fn applied(st: StateView, c: ConfigView) -> StateView {
    StateView {
        frontends: c.frontends,
        cors_section: c.allow_origins,
        cors_origins: config::origins_of(c),
        ..st
    }
}

/// The configuration that the state runs.
pub open spec fn snapshot(st: StateView) -> ConfigView {
    config::normalized(
        ConfigView {
            listen: st.listen,
            allow_origins: st.cors_section,
            frontends: st.frontends,
            active_env: Seq::<char>::empty(),
            envs: Seq::<(Seq<char>, config::EnvView)>::empty(),
            rules: Seq::<RuleView>::empty(),
        },
    )
}

impl AppState {
    /// The state that runs a configuration kept at `config_path`.
    pub fn from_config(config: &Config, config_path: String) -> (r: AppState)
        ensures
            r@ == initial_state(config@, config_path@),
    {
        let r = AppState {
            frontends: config.frontends.duplicate(),
            logs: VecDeque::with_capacity(LOG_CAPACITY),
            config_path,
            cors_section: text::duplicate_all(&config.cors.allow_origins),
            cors_origins: config.all_origins(),
            listen: config.listen.clone(),
        };
        assert(r@.logs =~= Seq::<RequestLogView>::empty());
        r
    }

    /// Changes to another configuration.
    pub fn apply_config(&mut self, config: &Config)
        ensures
            final(self)@ == applied(old(self)@, config@),
    {
        self.frontends = config.frontends.duplicate();
        self.cors_section = text::duplicate_all(&config.cors.allow_origins);
        self.cors_origins = config.all_origins();
    }

    /// The configuration that the state runs.
    pub fn snapshot_config(&self) -> (r: Config)
        ensures
            r@ == snapshot(self@),
    {
        let mut config = Config {
            listen: self.listen.clone(),
            cors: CorsConfig { allow_origins: text::duplicate_all(&self.cors_section) },
            frontends: self.frontends.duplicate(),
            active_env: String::new(),
            envs: Table::new(),
            rules: Vec::new(),
        };
        assert(config@.rules =~= Seq::<RuleView>::empty());
        let _ = config.normalize();
        config
    }

    /// Puts an entry into the log.
    pub fn push_log(&mut self, entry: RequestLog)
        ensures
            final(self)@ == (StateView { logs: logged(old(self)@.logs, entry@), ..old(self)@ }),
            old(self)@.logs.len() <= LOG_CAPACITY ==> final(self)@.logs.len() <= LOG_CAPACITY,
    {
        let ghost before = self@.logs;
        if self.logs.len() >= LOG_CAPACITY {
            let _ = self.logs.pop_front();
        }
        self.logs.push_back(entry);
        assert(self@.logs =~= logged(before, entry@));
    }

    /// At most `limit` entries of the log that pass the filters, the newest
    /// first.
    pub fn recent_logs(
        &self,
        limit: usize,
        frontend: Option<&str>,
        status_min: Option<u16>,
        status_max: Option<u16>,
    ) -> (r: Vec<RequestLog>)
        ensures
            text::views(r@) == recent(
                self@.logs,
                limit as nat,
                LogFilter { frontend: text::opt_view(frontend), status_min, status_max },
            ),
    {
        let ghost f = LogFilter { frontend: text::opt_view(frontend), status_min, status_max };
        let ghost pred = |l: RequestLogView| log_passes(f, l);
        let ghost rev = self@.logs.reverse();
        let n: usize = self.logs.len();
        let mut out: Vec<RequestLog> = Vec::new();
        let mut i: usize = 0;
        proof {
            reveal(Seq::filter);
            assert(rev.take(0).filter(pred) =~= Seq::<RequestLogView>::empty());
            assert(text::views(out@) =~= rev.take(0).filter(pred));
        }
        while i < n && out.len() < limit
            invariant
                i <= n == self.logs@.len(),
                rev == self@.logs.reverse(),
                pred == (|l: RequestLogView| log_passes(f, l)),
                f == (LogFilter { frontend: text::opt_view(frontend), status_min, status_max }),
                out@.len() <= limit,
                text::views(out@) == rev.take(i as int).filter(pred),
            decreases n - i,
        {
            let entry = &self.logs[n - 1 - i];
            assert(entry@ == rev[i as int]);
            let same_frontend = match frontend {
                Some(id) => text::same(entry.frontend.as_str(), id),
                None => true,
            };
            let above = match status_min {
                Some(m) => entry.status >= m,
                None => true,
            };
            let below = match status_max {
                Some(m) => entry.status <= m,
                None => true,
            };
            proof {
                rev.take(i as int).lemma_filter_push(entry@, pred);
                assert(rev.take(i + 1) =~= rev.take(i as int).push(entry@));
            }
            let ghost before = text::views(out@);
            if same_frontend && above && below {
                out.push(entry.duplicate());
                assert(text::views(out@) =~= before.push(entry@));
            }
            i = i + 1;
        }
        proof {
            let rest = rev.skip(i as int);
            Seq::filter_distributes_over_add(rev.take(i as int), rest, pred);
            assert(rev.take(i as int) + rest =~= rev);
            if i == n {
                assert(rest =~= Seq::<RequestLogView>::empty());
                assert(rest.filter(pred) =~= Seq::<RequestLogView>::empty()) by {
                    reveal(Seq::filter);
                }
                assert(text::views(out@) =~= rev.filter(pred));
            } else {
                assert(text::views(out@) =~= rev.filter(pred).take(limit as int));
                if rev.filter(pred).len() <= limit {
                    assert(text::views(out@) =~= rev.filter(pred));
                }
            }
        }
        out
    }

    /// Takes the entries of one frontend, or all entries, out of the log.
    pub fn clear_logs(&mut self, frontend: Option<&str>)
        ensures
            final(self)@ == (StateView {
                logs: cleared(old(self)@.logs, text::opt_view(frontend)),
                ..old(self)@
            }),
    {
        let ghost before = self@.logs;
        match frontend {
            Some(id) => {
                let ghost pred = |l: RequestLogView| l.frontend != id@;
                let n: usize = self.logs.len();
                let mut kept: VecDeque<RequestLog> = VecDeque::new();
                let mut i: usize = 0;
                proof {
                    reveal(Seq::filter);
                    assert(before.take(0).filter(pred) =~= Seq::<RequestLogView>::empty());
                    assert(text::views(kept@) =~= before.take(0).filter(pred));
                }
                while i < n
                    invariant
                        i <= n == self.logs@.len(),
                        before == self@.logs,
                        pred == (|l: RequestLogView| l.frontend != id@),
                        text::views(kept@) == before.take(i as int).filter(pred),
                    decreases n - i,
                {
                    let entry = &self.logs[i];
                    proof {
                        before.take(i as int).lemma_filter_push(entry@, pred);
                        assert(before.take(i + 1) =~= before.take(i as int).push(entry@));
                    }
                    let ghost kept_before = text::views(kept@);
                    if !text::same(entry.frontend.as_str(), id) {
                        kept.push_back(entry.duplicate());
                        assert(text::views(kept@) =~= kept_before.push(entry@));
                    }
                    i = i + 1;
                }
                assert(before.take(n as int) =~= before);
                self.logs = kept;
            },
            None => {
                self.logs.clear();
                assert(self@.logs =~= Seq::<RequestLogView>::empty());
            },
        }
    }

    /// What a request belongs to: the frontend of its origin, the environment
    /// in force there, and the rule with the longest matching prefix.
    pub fn resolve(&self, origin: Option<&str>, path: &str) -> (r: Result<
        (String, String, Rule),
        ResolveError,
    >)
        ensures
            resolve_view(r) == resolved(self@.frontends, text::opt_view(origin), path@),
    {
        let at: usize = match origin {
            Some(o) => {
                let t = text::tidied(o);
                match find_frontend(&self.frontends, t.as_str()) {
                    Some(i) => i,
                    None => {
                        return Err(ResolveError::UnknownOrigin(t));
                    },
                }
            },
            None => {
                if self.frontends.len() == 1 {
                    0
                } else {
                    return Err(ResolveError::MissingOrigin);
                }
            },
        };
        let fid = self.frontends.key_at(at).clone();
        let fe = self.frontends.value_at(at);
        let env_id = fe.active_env.clone();
        match fe.envs.get(env_id.as_str()) {
            None => Err(ResolveError::NoEnv(fid, env_id)),
            Some(env) => {
                match find_best_rule(&env.rules, path) {
                    Some(rule) => Ok((fid, env_id, rule)),
                    None => Err(ResolveError::NoRule(fid, env_id, path.to_string())),
                }
            },
        }
    }
}

} // verus!
