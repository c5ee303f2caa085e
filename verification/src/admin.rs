//! The admin console: what each of its requests changes or shows.
//!
//! A request that changes the configuration is decided first. The new
//! configuration is then written to disk, and `save_apply` puts it into force
//! where the writing succeeded.

use crate::config;
use crate::config::{
    Config, ConfigSource, ConfigView, EnvConfig, EnvView, FrontendConfig, FrontendView, Rule,
    RuleView, SaveOutcome,
};
use crate::proxy;
use crate::proxy::{ErrorReply, ErrorReplyView};
use crate::state;
use crate::state::{AppState, LogFilter, RequestLog, StateView};
use crate::table;
use crate::table::Table;
use crate::text;
use crate::text::Duplicate;
use axum::http::HeaderMap;
use vstd::prelude::*;
use vstd::string::*;

verus! {

broadcast use vstd::string::group_string_axioms;

// ---------------------------------------------------------------------------
// Requests
// ---------------------------------------------------------------------------

#[derive(Debug)]
pub struct FrontendQuery {
    pub frontend: Option<String>,
}

#[derive(Debug)]
pub struct CreateFrontendBody {
    pub id: String,
    pub label: String,
    pub origins: Vec<String>,
    pub copy_from: Option<String>,
}

#[derive(Debug)]
pub struct DeleteFrontendBody {
    pub id: String,
}

#[derive(Debug)]
pub struct UpdateFrontendBody {
    pub id: String,
    pub label: Option<String>,
    pub origins: Option<Vec<String>>,
    pub rewrite_cookies: Option<bool>,
}

#[derive(Debug)]
pub struct ActiveBody {
    pub frontend: String,
    pub id: String,
}

#[derive(Debug)]
pub struct CreateEnvBody {
    pub frontend: String,
    pub id: String,
    pub label: String,
    pub copy_from: Option<String>,
}

#[derive(Debug)]
pub struct DeleteEnvBody {
    pub frontend: String,
    pub id: String,
}

#[derive(Debug)]
pub struct LogsQuery {
    pub limit: usize,
    pub frontend: Option<String>,
    pub status_min: Option<u16>,
    pub status_max: Option<u16>,
}

#[derive(Debug)]
pub struct ClearLogsBody {
    pub frontend: Option<String>,
}

#[derive(Debug)]
pub struct ProbeBody {
    pub frontend: String,
    /// The rule to try, by its name or by its prefix.
    pub rule_name: Option<String>,
    pub match_prefix: Option<String>,
    /// The path to try; the prefix of the rule where there is none.
    pub path: Option<String>,
}

// ---------------------------------------------------------------------------
// Refusals
// ---------------------------------------------------------------------------

/// The answer to a request that asks for what cannot be done.
pub open spec fn refused(msg: Seq<char>) -> ErrorReplyView {
    ErrorReplyView { status: 400, error: msg }
}

pub fn bad(msg: String) -> (r: ErrorReply)
    ensures
        r@ == refused(msg@),
{
    ErrorReply { status: 400, error: msg }
}

pub open spec fn no_frontend(id: Seq<char>) -> ErrorReplyView {
    refused("前端 '"@ + id + "' 不存在"@)
}

pub open spec fn no_env(id: Seq<char>) -> ErrorReplyView {
    refused("环境 '"@ + id + "' 不存在"@)
}

fn bad_about(before: &str, id: &str, after: &str) -> (r: ErrorReply)
    ensures
        r@ == refused(before@ + id@ + after@),
{
    bad(text::cat3(before, id, after))
}

/// The answer to a request that a check of the new configuration refuses, or
/// the checked configuration.
pub open spec fn checked(c: ConfigView) -> Result<ConfigView, ErrorReplyView> {
    match config::validated(c).1 {
        Some(e) => Err(refused(e)),
        None => Ok(config::validated(c).0),
    }
}

fn check(config: Config) -> (r: Result<Config, ErrorReply>)
    ensures
        config::result_view(r) == checked(config@),
{
    let mut c = config;
    match c.validate() {
        Ok(()) => Ok(c),
        Err(e) => Err(bad(e)),
    }
}

/// A change that comes with something to answer.
pub open spec fn change_view<T: View>(r: Result<(Config, T), ErrorReply>) -> Result<
    (ConfigView, T::V),
    ErrorReplyView,
> {
    match r {
        Ok(x) => Ok((x.0@, x.1@)),
        Err(e) => Err(e@),
    }
}

// ---------------------------------------------------------------------------
// Saving
// ---------------------------------------------------------------------------

/// What the state becomes once the writing of a new configuration is over.
pub open spec fn after_save(st: StateView, c: ConfigView, outcome: SaveOutcome) -> StateView {
    if config::save_report(st.config_path, outcome) is Ok {
        state::applied(st, c)
    } else {
        st
    }
}

/// Puts a configuration into force that was written to disk; where it could
/// not be written, the state stays and the answer says why.
pub fn save_apply(state: &mut AppState, config: &Config, outcome: SaveOutcome) -> (r: Result<
    (),
    ErrorReply,
>)
    ensures
        final(state)@ == after_save(old(state)@, config@, outcome),
        r is Ok <==> config::save_report(old(state)@.config_path, outcome) is Ok,
        r matches Err(e) ==> config::save_report(old(state)@.config_path, outcome) matches Err(m)
            && e@ == (ErrorReplyView { status: 500, error: m }),
{
    match config::save_result(state.config_path.as_str(), outcome) {
        Ok(()) => {
            state.apply_config(config);
            Ok(())
        },
        Err(e) => Err(ErrorReply { status: 500, error: e }),
    }
}

/// What the state becomes once the configuration file has been read again.
pub open spec fn after_reload(st: StateView, source: ConfigSource) -> StateView {
    match config::load_result(st.config_path, source) {
        Ok(c) => state::applied(st, c),
        Err(_) => st,
    }
}

/// Puts the configuration on disk into force; where it cannot be loaded, the
/// state stays and the answer says why.
pub fn reload_config(state: &mut AppState, source: ConfigSource) -> (r: Result<(), ErrorReply>)
    ensures
        final(state)@ == after_reload(old(state)@, source),
        r is Ok <==> config::load_result(old(state)@.config_path, source) is Ok,
        r matches Err(e) ==> config::load_result(old(state)@.config_path, source) matches Err(m)
            && e@ == (ErrorReplyView { status: 500, error: m }),
{
    match Config::load(state.config_path.as_str(), source) {
        Ok(config) => {
            state.apply_config(&config);
            Ok(())
        },
        Err(e) => Err(ErrorReply { status: 500, error: e }),
    }
}

// ---------------------------------------------------------------------------
// Frontends
// ---------------------------------------------------------------------------

/// The configuration with a frontend put under an id.
pub open spec fn with_frontend(c: ConfigView, id: Seq<char>, fe: FrontendView) -> ConfigView {
    ConfigView { frontends: table::with_entry(c.frontends, id, fe), ..c }
}

/// The frontend that a request for a new one describes: with the environments
/// of another, or with one of its own.
pub open spec fn described_frontend(
    c: ConfigView,
    id: Seq<char>,
    body: CreateFrontendBody,
) -> FrontendView {
    let label = if text::is_blank(body.label@) {
        id
    } else {
        text::trimmed(body.label@)
    };
    let origins = text::tidy_list(text::views(body.origins@));
    match text::wanted(text::opt_view(body.copy_from)) {
        Some(from) => FrontendView {
            label,
            origins,
            ..table::value_of(c.frontends, from)
        },
        None => FrontendView {
            label,
            origins,
            active_env: "default"@,
            envs: config::lone_env("default"@, Seq::<RuleView>::empty()),
            rewrite_cookies: false,
        },
    }
}

/// What creating a frontend gives: the new configuration with the id.
pub open spec fn frontend_created(st: StateView, body: CreateFrontendBody) -> Result<
    (ConfigView, Seq<char>),
    ErrorReplyView,
> {
    let id = text::trimmed(body.id@);
    let c = state::snapshot(st);
    let from = text::wanted(text::opt_view(body.copy_from));
    if id.len() == 0 || id.contains('/') {
        Err(refused("前端 id 无效"@))
    } else if table::has_key(c.frontends, id) {
        Err(refused("前端 '"@ + id + "' 已存在"@))
    } else if from is Some && !table::has_key(c.frontends, from->0) {
        Err(refused("复制源前端 '"@ + from->0 + "' 不存在"@))
    } else {
        match checked(with_frontend(c, id, described_frontend(c, id, body))) {
            Ok(n) => Ok((n, id)),
            Err(e) => Err(e),
        }
    }
}

/// Creates a frontend, on its own or after another.
pub fn create_frontend(state: &AppState, body: CreateFrontendBody) -> (r: Result<
    (Config, String),
    ErrorReply,
>)
    ensures
        change_view(r) == frontend_created(state@, body),
{
    let id = text::trim(body.id.as_str());
    if id.as_str().is_empty() || text::has_char(id.as_str(), '/') {
        return Err(bad("前端 id 无效".to_string()));
    }
    let mut config = state.snapshot_config();
    if config.frontends.contains_key(id.as_str()) {
        return Err(bad_about("前端 '", id.as_str(), "' 已存在"));
    }
    let ghost c = config@;
    let label = if text::blank(body.label.as_str()) {
        id.clone()
    } else {
        text::trim(body.label.as_str())
    };
    let origins = text::tidy_nonempty(&body.origins);
    let fe = match text::wanted_text(&body.copy_from) {
        Some(from) => {
            match config.frontends.get(from.as_str()) {
                Some(other) => FrontendConfig {
                    label,
                    origins,
                    active_env: other.active_env.clone(),
                    envs: other.envs.duplicate(),
                    rewrite_cookies: other.rewrite_cookies,
                },
                None => {
                    return Err(bad_about("复制源前端 '", from.as_str(), "' 不存在"));
                },
            }
        },
        None => {
            let none: Vec<Rule> = Vec::new();
            assert(text::views(none@) =~= Seq::<RuleView>::empty());
            FrontendConfig {
                label,
                origins,
                active_env: "default".to_string(),
                envs: config::single_env("default".to_string(), none),
                rewrite_cookies: false,
            }
        },
    };
    assert(fe@ == described_frontend(c, id@, body));
    config.frontends.insert(id.clone(), fe);
    match check(config) {
        Ok(n) => Ok((n, id)),
        Err(e) => Err(e),
    }
}

/// What deleting a frontend gives.
pub open spec fn frontend_deleted(st: StateView, body: DeleteFrontendBody) -> Result<
    ConfigView,
    ErrorReplyView,
> {
    let id = text::trimmed(body.id@);
    let c = state::snapshot(st);
    if c.frontends.len() <= 1 {
        Err(refused("至少保留一个前端"@))
    } else if !table::has_key(c.frontends, id) {
        Err(no_frontend(id))
    } else {
        Ok(ConfigView { frontends: table::without_entry(c.frontends, id), ..c })
    }
}

/// Deletes a frontend; the last one stays.
pub fn delete_frontend(state: &AppState, body: DeleteFrontendBody) -> (r: Result<
    Config,
    ErrorReply,
>)
    ensures
        config::result_view(r) == frontend_deleted(state@, body),
{
    let id = text::trim(body.id.as_str());
    let mut config = state.snapshot_config();
    if config.frontends.len() <= 1 {
        return Err(bad("至少保留一个前端".to_string()));
    }
    if !config.frontends.remove(id.as_str()) {
        return Err(bad_about("前端 '", id.as_str(), "' 不存在"));
    }
    Ok(config)
}

/// The frontend with what a request changes of it.
pub open spec fn updated_frontend(fe: FrontendView, body: UpdateFrontendBody) -> FrontendView {
    FrontendView {
        label: match text::wanted(text::opt_view(body.label)) {
            Some(l) => l,
            None => fe.label,
        },
        origins: match body.origins {
            Some(o) => text::tidy_list(text::views(o@)),
            None => fe.origins,
        },
        rewrite_cookies: match body.rewrite_cookies {
            Some(b) => b,
            None => fe.rewrite_cookies,
        },
        ..fe
    }
}

/// What changing a frontend gives.
pub open spec fn frontend_updated(st: StateView, body: UpdateFrontendBody) -> Result<
    ConfigView,
    ErrorReplyView,
> {
    let id = text::trimmed(body.id@);
    let c = state::snapshot(st);
    if !table::has_key(c.frontends, id) {
        Err(no_frontend(id))
    } else {
        checked(
            with_frontend(c, id, updated_frontend(table::value_of(c.frontends, id), body)),
        )
    }
}

/// Changes the label, the origins or the cookie switch of a frontend.
pub fn update_frontend(state: &AppState, body: UpdateFrontendBody) -> (r: Result<
    Config,
    ErrorReply,
>)
    ensures
        config::result_view(r) == frontend_updated(state@, body),
{
    let id = text::trim(body.id.as_str());
    let mut config = state.snapshot_config();
    let mut fe = match config.frontends.get(id.as_str()) {
        Some(fe) => fe.clone(),
        None => {
            return Err(bad_about("前端 '", id.as_str(), "' 不存在"));
        },
    };
    let ghost before = fe@;
    if let Some(label) = text::wanted_text(&body.label) {
        fe.label = label;
    }
    if let Some(origins) = &body.origins {
        fe.origins = text::tidy_nonempty(origins);
    }
    if let Some(v) = body.rewrite_cookies {
        fe.rewrite_cookies = v;
    }
    assert(fe@ == updated_frontend(before, body));
    config.frontends.insert(id, fe);
    check(config)
}

// ---------------------------------------------------------------------------
// Environments
// ---------------------------------------------------------------------------

/// What switching the environment in force gives: the new configuration, with
/// the frontend and the environment.
pub open spec fn env_activated(st: StateView, body: ActiveBody) -> Result<
    (ConfigView, (Seq<char>, Seq<char>)),
    ErrorReplyView,
> {
    let fid = text::trimmed(body.frontend@);
    let eid = text::trimmed(body.id@);
    let c = state::snapshot(st);
    if !table::has_key(c.frontends, fid) {
        Err(no_frontend(fid))
    } else if !table::has_key(table::value_of(c.frontends, fid).envs, eid) {
        Err(no_env(eid))
    } else {
        Ok(
            (
                with_frontend(
                    c,
                    fid,
                    FrontendView { active_env: eid, ..table::value_of(c.frontends, fid) },
                ),
                (fid, eid),
            ),
        )
    }
}

/// Switches the environment in force of a frontend.
pub fn set_active(state: &AppState, body: ActiveBody) -> (r: Result<
    (Config, (String, String)),
    ErrorReply,
>)
    ensures
        change_view(r) == env_activated(state@, body),
{
    let fid = text::trim(body.frontend.as_str());
    let eid = text::trim(body.id.as_str());
    let mut config = state.snapshot_config();
    let mut fe = match config.frontends.get(fid.as_str()) {
        Some(fe) => fe.clone(),
        None => {
            return Err(bad_about("前端 '", fid.as_str(), "' 不存在"));
        },
    };
    if !fe.envs.contains_key(eid.as_str()) {
        return Err(bad_about("环境 '", eid.as_str(), "' 不存在"));
    }
    fe.active_env = eid.clone();
    config.frontends.insert(fid.clone(), fe);
    Ok((config, (fid, eid)))
}

/// What creating an environment gives: the new configuration with the id.
pub open spec fn env_created(st: StateView, body: CreateEnvBody) -> Result<
    (ConfigView, Seq<char>),
    ErrorReplyView,
> {
    let fid = text::trimmed(body.frontend@);
    let eid = text::trimmed(body.id@);
    let c = state::snapshot(st);
    let fe = table::value_of(c.frontends, fid);
    let from = text::wanted(text::opt_view(body.copy_from));
    if eid.len() == 0 {
        Err(refused("环境 id 不能为空"@))
    } else if !table::has_key(c.frontends, fid) {
        Err(no_frontend(fid))
    } else if table::has_key(fe.envs, eid) {
        Err(refused("环境 '"@ + eid + "' 已存在"@))
    } else if from is Some && !table::has_key(fe.envs, from->0) {
        Err(refused("复制源环境 '"@ + from->0 + "' 不存在"@))
    } else {
        let env = EnvView {
            label: if text::is_blank(body.label@) {
                eid
            } else {
                text::trimmed(body.label@)
            },
            rules: match from {
                Some(f) => table::value_of(fe.envs, f).rules,
                None => Seq::<RuleView>::empty(),
            },
        };
        let n = FrontendView { envs: table::with_entry(fe.envs, eid, env), ..fe };
        match checked(with_frontend(c, fid, n)) {
            Ok(n) => Ok((n, eid)),
            Err(e) => Err(e),
        }
    }
}

/// Creates an environment of a frontend, empty or after another.
pub fn create_env(state: &AppState, body: CreateEnvBody) -> (r: Result<
    (Config, String),
    ErrorReply,
>)
    ensures
        change_view(r) == env_created(state@, body),
{
    let fid = text::trim(body.frontend.as_str());
    let eid = text::trim(body.id.as_str());
    if eid.as_str().is_empty() {
        return Err(bad("环境 id 不能为空".to_string()));
    }
    let mut config = state.snapshot_config();
    let mut fe = match config.frontends.get(fid.as_str()) {
        Some(fe) => fe.clone(),
        None => {
            return Err(bad_about("前端 '", fid.as_str(), "' 不存在"));
        },
    };
    if fe.envs.contains_key(eid.as_str()) {
        return Err(bad_about("环境 '", eid.as_str(), "' 已存在"));
    }
    let rules = match text::wanted_text(&body.copy_from) {
        Some(from) => {
            match fe.envs.get(from.as_str()) {
                Some(env) => text::duplicate_all(&env.rules),
                None => {
                    return Err(bad_about("复制源环境 '", from.as_str(), "' 不存在"));
                },
            }
        },
        None => {
            let none: Vec<Rule> = Vec::new();
            assert(text::views(none@) =~= Seq::<RuleView>::empty());
            none
        },
    };
    let label = if text::blank(body.label.as_str()) {
        eid.clone()
    } else {
        text::trim(body.label.as_str())
    };
    fe.envs.insert(eid.clone(), EnvConfig { label, rules });
    config.frontends.insert(fid, fe);
    match check(config) {
        Ok(n) => Ok((n, eid)),
        Err(e) => Err(e),
    }
}

/// What deleting an environment gives.
pub open spec fn env_deleted(st: StateView, body: DeleteEnvBody) -> Result<
    ConfigView,
    ErrorReplyView,
> {
    let fid = text::trimmed(body.frontend@);
    let eid = text::trimmed(body.id@);
    let c = state::snapshot(st);
    let fe = table::value_of(c.frontends, fid);
    if !table::has_key(c.frontends, fid) {
        Err(no_frontend(fid))
    } else if fe.envs.len() <= 1 {
        Err(refused("至少保留一个环境"@))
    } else if fe.active_env == eid {
        Err(refused("不能删除当前生效环境，请先切换"@))
    } else if !table::has_key(fe.envs, eid) {
        Err(no_env(eid))
    } else {
        Ok(
            with_frontend(
                c,
                fid,
                FrontendView { envs: table::without_entry(fe.envs, eid), ..fe },
            ),
        )
    }
}

/// Deletes an environment of a frontend; the last one and the one in force
/// stay.
pub fn delete_env(state: &AppState, body: DeleteEnvBody) -> (r: Result<Config, ErrorReply>)
    ensures
        config::result_view(r) == env_deleted(state@, body),
{
    let fid = text::trim(body.frontend.as_str());
    let eid = text::trim(body.id.as_str());
    let mut config = state.snapshot_config();
    let mut fe = match config.frontends.get(fid.as_str()) {
        Some(fe) => fe.clone(),
        None => {
            return Err(bad_about("前端 '", fid.as_str(), "' 不存在"));
        },
    };
    if fe.envs.len() <= 1 {
        return Err(bad("至少保留一个环境".to_string()));
    }
    if text::same(fe.active_env.as_str(), eid.as_str()) {
        return Err(bad("不能删除当前生效环境，请先切换".to_string()));
    }
    if !fe.envs.remove(eid.as_str()) {
        return Err(bad_about("环境 '", eid.as_str(), "' 不存在"));
    }
    config.frontends.insert(fid, fe);
    Ok(config)
}

// ---------------------------------------------------------------------------
// Rules
// ---------------------------------------------------------------------------

/// The rules of the environment in force of a frontend.
pub open spec fn active_rules(fe: FrontendView) -> Seq<RuleView> {
    if table::has_key(fe.envs, fe.active_env) {
        table::value_of(fe.envs, fe.active_env).rules
    } else {
        Seq::<RuleView>::empty()
    }
}

fn copy_active_rules(fe: &FrontendConfig) -> (r: Vec<Rule>)
    ensures
        text::views(r@) == active_rules(fe@),
{
    match fe.envs.get(fe.active_env.as_str()) {
        Some(env) => text::duplicate_all(&env.rules),
        None => {
            let none: Vec<Rule> = Vec::new();
            assert(text::views(none@) =~= Seq::<RuleView>::empty());
            none
        },
    }
}

/// What is answered once rules have been put.
#[derive(Debug)]
pub struct RulesPut {
    pub frontend: String,
    pub active: String,
    pub rules: Vec<Rule>,
}

#[verifier::ext_equal]
pub struct RulesPutView {
    pub frontend: Seq<char>,
    pub active: Seq<char>,
    pub rules: Seq<RuleView>,
}

impl View for RulesPut {
    type V = RulesPutView;

    open spec fn view(&self) -> RulesPutView {
        RulesPutView {
            frontend: self.frontend@,
            active: self.active@,
            rules: text::views(self.rules@),
        }
    }
}

/// What putting rules gives: the new configuration, with the rules as the
/// check left them.
pub open spec fn rules_put(st: StateView, q: FrontendQuery, rules: Seq<RuleView>) -> Result<
    (ConfigView, RulesPutView),
    ErrorReplyView,
> {
    let c = state::snapshot(st);
    match text::wanted(text::opt_view(q.frontend)) {
        None => Err(refused("缺少 frontend 参数"@)),
        Some(fid) => {
            let fe = table::value_of(c.frontends, fid);
            if !table::has_key(c.frontends, fid) {
                Err(no_frontend(fid))
            } else if !table::has_key(fe.envs, fe.active_env) {
                Err(no_env(fe.active_env))
            } else {
                let env = EnvView { rules, ..table::value_of(fe.envs, fe.active_env) };
                let n = FrontendView {
                    envs: table::with_entry(fe.envs, fe.active_env, env),
                    ..fe
                };
                match checked(with_frontend(c, fid, n)) {
                    Err(e) => Err(e),
                    Ok(d) => Ok(
                        (
                            d,
                            RulesPutView {
                                frontend: fid,
                                active: fe.active_env,
                                rules: if table::has_key(d.frontends, fid) {
                                    active_rules(table::value_of(d.frontends, fid))
                                } else {
                                    Seq::<RuleView>::empty()
                                },
                            },
                        ),
                    ),
                }
            }
        },
    }
}

/// Puts the rules of the environment in force of a frontend.
pub fn put_rules(state: &AppState, q: FrontendQuery, rules: Vec<Rule>) -> (r: Result<
    (Config, RulesPut),
    ErrorReply,
>)
    ensures
        change_view(r) == rules_put(state@, q, text::views(rules@)),
{
    let fid = match text::wanted_text(&q.frontend) {
        Some(fid) => fid,
        None => {
            return Err(bad("缺少 frontend 参数".to_string()));
        },
    };
    let mut config = state.snapshot_config();
    let mut fe = match config.frontends.get(fid.as_str()) {
        Some(fe) => fe.clone(),
        None => {
            return Err(bad_about("前端 '", fid.as_str(), "' 不存在"));
        },
    };
    let active = fe.active_env.clone();
    let label = match fe.envs.get(active.as_str()) {
        Some(env) => env.label.clone(),
        None => {
            return Err(bad_about("环境 '", active.as_str(), "' 不存在"));
        },
    };
    fe.envs.insert(active.clone(), EnvConfig { label, rules });
    config.frontends.insert(fid.clone(), fe);
    match check(config) {
        Err(e) => Err(e),
        Ok(d) => {
            let shown = match d.frontends.get(fid.as_str()) {
                Some(fe) => copy_active_rules(fe),
                None => {
                    let none: Vec<Rule> = Vec::new();
                    assert(text::views(none@) =~= Seq::<RuleView>::empty());
                    none
                },
            };
            Ok((d, RulesPut { frontend: fid, active, rules: shown }))
        },
    }
}

/// What is shown of a frontend with its rules.
#[derive(Debug)]
pub struct RulesShown {
    pub frontend: String,
    pub active: String,
    pub origins: Vec<String>,
    pub label: String,
    pub rewrite_cookies: bool,
    pub rules: Vec<Rule>,
}

#[verifier::ext_equal]
pub struct RulesShownView {
    pub frontend: Seq<char>,
    pub active: Seq<char>,
    pub origins: Seq<Seq<char>>,
    pub label: Seq<char>,
    pub rewrite_cookies: bool,
    pub rules: Seq<RuleView>,
}

impl View for RulesShown {
    type V = RulesShownView;

    open spec fn view(&self) -> RulesShownView {
        RulesShownView {
            frontend: self.frontend@,
            active: self.active@,
            origins: text::views(self.origins@),
            label: self.label@,
            rewrite_cookies: self.rewrite_cookies,
            rules: text::views(self.rules@),
        }
    }
}

/// What showing the rules of a frontend gives.
pub open spec fn rules_shown(st: StateView, q: FrontendQuery) -> Result<
    RulesShownView,
    ErrorReplyView,
> {
    match text::wanted(text::opt_view(q.frontend)) {
        None => Err(refused("缺少 frontend 参数"@)),
        Some(fid) => {
            let fe = table::value_of(st.frontends, fid);
            if !table::has_key(st.frontends, fid) {
                Err(no_frontend(fid))
            } else {
                Ok(
                    RulesShownView {
                        frontend: fid,
                        active: fe.active_env,
                        origins: fe.origins,
                        label: fe.label,
                        rewrite_cookies: fe.rewrite_cookies,
                        rules: active_rules(fe),
                    },
                )
            }
        },
    }
}

/// Shows a frontend with the rules of its environment in force.
pub fn get_rules(state: &AppState, q: FrontendQuery) -> (r: Result<RulesShown, ErrorReply>)
    ensures
        config::result_view(r) == rules_shown(state@, q),
{
    let fid = match text::wanted_text(&q.frontend) {
        Some(fid) => fid,
        None => {
            return Err(bad("缺少 frontend 参数".to_string()));
        },
    };
    match state.frontends.get(fid.as_str()) {
        None => Err(bad_about("前端 '", fid.as_str(), "' 不存在")),
        Some(fe) => Ok(
            RulesShown {
                frontend: fid,
                active: fe.active_env.clone(),
                origins: text::duplicate_all(&fe.origins),
                label: fe.label.clone(),
                rewrite_cookies: fe.rewrite_cookies,
                rules: copy_active_rules(fe),
            },
        ),
    }
}

// ---------------------------------------------------------------------------
// Lists
// ---------------------------------------------------------------------------

/// `label`, or `id` where the label is empty.
pub open spec fn shown_label(label: Seq<char>, id: Seq<char>) -> Seq<char> {
    if label.len() == 0 {
        id
    } else {
        label
    }
}

fn show_label(label: &String, id: &String) -> (r: String)
    ensures
        r@ == shown_label(label@, id@),
{
    if label.as_str().is_empty() {
        id.clone()
    } else {
        label.clone()
    }
}

/// What the list of frontends says of one.
#[derive(Debug)]
pub struct FrontendSummary {
    pub id: String,
    pub label: String,
    pub origins: Vec<String>,
    pub active_env: String,
    pub rewrite_cookies: bool,
    pub env_count: usize,
    pub rule_count: usize,
}

#[verifier::ext_equal]
pub struct FrontendSummaryView {
    pub id: Seq<char>,
    pub label: Seq<char>,
    pub origins: Seq<Seq<char>>,
    pub active_env: Seq<char>,
    pub rewrite_cookies: bool,
    pub env_count: nat,
    pub rule_count: nat,
}

impl View for FrontendSummary {
    type V = FrontendSummaryView;

    open spec fn view(&self) -> FrontendSummaryView {
        FrontendSummaryView {
            id: self.id@,
            label: self.label@,
            origins: text::views(self.origins@),
            active_env: self.active_env@,
            rewrite_cookies: self.rewrite_cookies,
            env_count: self.env_count as nat,
            rule_count: self.rule_count as nat,
        }
    }
}

pub open spec fn frontend_summary(
    fs: Seq<(Seq<char>, FrontendView)>,
    id: Seq<char>,
) -> FrontendSummaryView {
    let fe = table::value_of(fs, id);
    FrontendSummaryView {
        id,
        label: shown_label(fe.label, id),
        origins: fe.origins,
        active_env: fe.active_env,
        rewrite_cookies: fe.rewrite_cookies,
        env_count: fe.envs.len(),
        rule_count: active_rules(fe).len(),
    }
}

/// Lists the frontends in the order of their ids.
pub fn list_frontends(state: &AppState) -> (r: Vec<FrontendSummary>)
    ensures
        table::are_sorted_keys(
            text::views(r@).map_values(|s: FrontendSummaryView| s.id),
            state@.frontends,
        ),
        forall|i: int|
            0 <= i < r@.len() ==> (#[trigger] r@[i])@ == frontend_summary(
                state@.frontends,
                r@[i].id@,
            ),
{
    let ids = state.frontends.sorted_keys();
    let ghost names = text::views(ids@);
    let mut out: Vec<FrontendSummary> = Vec::new();
    let mut i: usize = 0;
    while i < ids.len()
        invariant
            i <= ids@.len(),
            names == text::views(ids@),
            table::are_sorted_keys(names, state@.frontends),
            out@.len() == i,
            forall|j: int| 0 <= j < i ==> (#[trigger] out@[j]).id@ == names[j],
            forall|j: int|
                0 <= j < i ==> (#[trigger] out@[j])@ == frontend_summary(
                    state@.frontends,
                    out@[j].id@,
                ),
        decreases ids@.len() - i,
    {
        let id = &ids[i];
        assert(names[i as int] == id@);
        assert(names.contains(id@));
        if let Some(fe) = state.frontends.get(id.as_str()) {
            let rule_count: usize = match fe.envs.get(fe.active_env.as_str()) {
                Some(env) => env.rules.len(),
                None => 0,
            };
            out.push(
                FrontendSummary {
                    id: id.clone(),
                    label: show_label(&fe.label, id),
                    origins: text::duplicate_all(&fe.origins),
                    active_env: fe.active_env.clone(),
                    rewrite_cookies: fe.rewrite_cookies,
                    env_count: fe.envs.len(),
                    rule_count,
                },
            );
        }
        i = i + 1;
    }
    assert(text::views(out@).map_values(|s: FrontendSummaryView| s.id) =~= names);
    out
}

/// What the list of environments says of one.
#[derive(Debug)]
pub struct EnvSummary {
    pub id: String,
    pub label: String,
    pub rule_count: usize,
}

#[verifier::ext_equal]
pub struct EnvSummaryView {
    pub id: Seq<char>,
    pub label: Seq<char>,
    pub rule_count: nat,
}

impl View for EnvSummary {
    type V = EnvSummaryView;

    open spec fn view(&self) -> EnvSummaryView {
        EnvSummaryView {
            id: self.id@,
            label: self.label@,
            rule_count: self.rule_count as nat,
        }
    }
}

pub open spec fn env_summary(envs: Seq<(Seq<char>, EnvView)>, id: Seq<char>) -> EnvSummaryView {
    let env = table::value_of(envs, id);
    EnvSummaryView { id, label: shown_label(env.label, id), rule_count: env.rules.len() }
}

/// The environments of a frontend.
#[derive(Debug)]
pub struct EnvList {
    pub frontend: String,
    pub active: String,
    pub envs: Vec<EnvSummary>,
}

/// The list of the environments of frontend `fid`, in the order of their ids.
pub open spec fn is_env_list(l: EnvList, fid: Seq<char>, fe: FrontendView) -> bool {
    &&& l.frontend@ == fid
    &&& l.active@ == fe.active_env
    &&& table::are_sorted_keys(
        text::views(l.envs@).map_values(|s: EnvSummaryView| s.id),
        fe.envs,
    )
    &&& forall|i: int|
        0 <= i < l.envs@.len() ==> (#[trigger] l.envs@[i])@ == env_summary(
            fe.envs,
            l.envs@[i].id@,
        )
}

fn summarize_envs(envs: &Table<EnvConfig>) -> (r: Vec<EnvSummary>)
    ensures
        table::are_sorted_keys(
            text::views(r@).map_values(|s: EnvSummaryView| s.id),
            envs@,
        ),
        forall|i: int|
            0 <= i < r@.len() ==> (#[trigger] r@[i])@ == env_summary(envs@, r@[i].id@),
{
    let ids = envs.sorted_keys();
    let ghost names = text::views(ids@);
    let mut out: Vec<EnvSummary> = Vec::new();
    let mut i: usize = 0;
    while i < ids.len()
        invariant
            i <= ids@.len(),
            names == text::views(ids@),
            table::are_sorted_keys(names, envs@),
            out@.len() == i,
            forall|j: int| 0 <= j < i ==> (#[trigger] out@[j]).id@ == names[j],
            forall|j: int|
                0 <= j < i ==> (#[trigger] out@[j])@ == env_summary(envs@, out@[j].id@),
        decreases ids@.len() - i,
    {
        let id = &ids[i];
        assert(names[i as int] == id@);
        assert(names.contains(id@));
        if let Some(env) = envs.get(id.as_str()) {
            out.push(
                EnvSummary {
                    id: id.clone(),
                    label: show_label(&env.label, id),
                    rule_count: env.rules.len(),
                },
            );
        }
        i = i + 1;
    }
    assert(text::views(out@).map_values(|s: EnvSummaryView| s.id) =~= names);
    out
}

/// Lists the environments of a frontend.
pub fn list_envs(state: &AppState, q: FrontendQuery) -> (r: Result<EnvList, ErrorReply>)
    ensures
        match text::wanted(text::opt_view(q.frontend)) {
            None => r matches Err(e) && e@ == refused("缺少 frontend 参数"@),
            Some(fid) => if table::has_key(state@.frontends, fid) {
                r matches Ok(l) && is_env_list(l, fid, table::value_of(state@.frontends, fid))
            } else {
                r matches Err(e) && e@ == no_frontend(fid)
            },
        },
{
    let fid = match text::wanted_text(&q.frontend) {
        Some(fid) => fid,
        None => {
            return Err(bad("缺少 frontend 参数".to_string()));
        },
    };
    match state.frontends.get(fid.as_str()) {
        None => Err(bad_about("前端 '", fid.as_str(), "' 不存在")),
        Some(fe) => Ok(
            EnvList {
                frontend: fid,
                active: fe.active_env.clone(),
                envs: summarize_envs(&fe.envs),
            },
        ),
    }
}

/// Whether and as what the proxy runs.
#[derive(Debug)]
pub struct Health {
    pub ok: bool,
    pub listen: String,
    pub frontends: usize,
    pub frontend_ids: Vec<String>,
}

/// The health of the proxy: its address and its frontends.
pub fn health(state: &AppState) -> (r: Health)
    ensures
        r.ok,
        r.listen@ == state@.listen,
        r.frontends == state@.frontends.len(),
        table::are_sorted_keys(text::views(r.frontend_ids@), state@.frontends),
{
    let frontend_ids = state.frontends.sorted_keys();
    Health {
        ok: true,
        listen: state.listen.clone(),
        frontends: frontend_ids.len(),
        frontend_ids,
    }
}

// ---------------------------------------------------------------------------
// Logs
// ---------------------------------------------------------------------------

/// How many log entries are shown where a request does not say.
pub fn default_limit() -> (r: usize)
    ensures
        r == 50,
{
    50
}

/// How many log entries are shown: at least one, at most 200.
pub open spec fn shown_limit(limit: usize) -> nat {
    if limit < 1 {
        1
    } else if limit > 200 {
        200
    } else {
        limit as nat
    }
}

/// Shows log entries, the newest first.
pub fn get_logs(state: &AppState, q: LogsQuery) -> (r: Vec<RequestLog>)
    ensures
        text::views(r@) == state::recent(
            state@.logs,
            shown_limit(q.limit),
            LogFilter {
                frontend: text::wanted(text::opt_view(q.frontend)),
                status_min: q.status_min,
                status_max: q.status_max,
            },
        ),
{
    let limit: usize = if q.limit < 1 {
        1
    } else if q.limit > 200 {
        200
    } else {
        q.limit
    };
    match text::wanted_text(&q.frontend) {
        Some(id) => state.recent_logs(limit, Some(id.as_str()), q.status_min, q.status_max),
        None => state.recent_logs(limit, None, q.status_min, q.status_max),
    }
}

/// Takes the entries of one frontend, or all entries, out of the log.
pub fn clear_logs(state: &mut AppState, body: ClearLogsBody)
    ensures
        final(state)@ == (StateView {
            logs: state::cleared(
                old(state)@.logs,
                text::wanted(text::opt_view(body.frontend)),
            ),
            ..old(state)@
        }),
{
    match text::wanted_text(&body.frontend) {
        Some(id) => state.clear_logs(Some(id.as_str())),
        None => state.clear_logs(None),
    }
}

// ---------------------------------------------------------------------------
// Probing
// ---------------------------------------------------------------------------

/// The first rule of the given name.
pub open spec fn rule_named(rules: Seq<RuleView>, name: Seq<char>) -> Option<RuleView>
    decreases rules.len(),
{
    if rules.len() == 0 {
        None
    } else if rules[0].name == name {
        Some(rules[0])
    } else {
        rule_named(rules.drop_first(), name)
    }
}

/// The first rule of the given prefix.
pub open spec fn rule_prefixed(rules: Seq<RuleView>, prefix: Seq<char>) -> Option<RuleView>
    decreases rules.len(),
{
    if rules.len() == 0 {
        None
    } else if rules[0].match_prefix == prefix {
        Some(rules[0])
    } else {
        rule_prefixed(rules.drop_first(), prefix)
    }
}

/// The rule that a probe tries: by name, else by prefix, else the first.
pub open spec fn probed_rule(rules: Seq<RuleView>, body: ProbeBody) -> Option<RuleView> {
    match text::wanted(text::opt_view(body.rule_name)) {
        Some(name) => rule_named(rules, name),
        None => match text::wanted(text::opt_view(body.match_prefix)) {
            Some(prefix) => rule_prefixed(rules, prefix),
            None => if rules.len() == 0 {
                None
            } else {
                Some(rules[0])
            },
        },
    }
}

/// What a probe asks for.
#[derive(Debug)]
pub struct ProbePlan {
    pub url: String,
    pub rule: String,
    pub env: String,
    pub frontend: String,
}

#[verifier::ext_equal]
pub struct ProbePlanView {
    pub url: Seq<char>,
    pub rule: Seq<char>,
    pub env: Seq<char>,
    pub frontend: Seq<char>,
}

impl View for ProbePlan {
    type V = ProbePlanView;

    open spec fn view(&self) -> ProbePlanView {
        ProbePlanView {
            url: self.url@,
            rule: self.rule@,
            env: self.env@,
            frontend: self.frontend@,
        }
    }
}

/// What a probe asks for, or how it is refused.
pub open spec fn probe_planned(st: StateView, body: ProbeBody) -> Result<
    ProbePlanView,
    ErrorReplyView,
> {
    let fid = text::trimmed(body.frontend@);
    let fe = table::value_of(st.frontends, fid);
    if !table::has_key(st.frontends, fid) {
        Err(no_frontend(fid))
    } else if !table::has_key(fe.envs, fe.active_env) {
        Err(no_env(fe.active_env))
    } else {
        match probed_rule(table::value_of(fe.envs, fe.active_env).rules, body) {
            None => Err(refused("未找到可探测的规则"@)),
            Some(rule) => {
                let path = match text::wanted(text::opt_view(body.path)) {
                    Some(p) => p,
                    None => rule.match_prefix,
                };
                Ok(
                    ProbePlanView {
                        url: proxy::upstream_url(
                            rule.target,
                            path,
                            None,
                            rule.strip_prefix,
                            rule.match_prefix,
                        ),
                        rule: rule.name,
                        env: fe.active_env,
                        frontend: fid,
                    },
                )
            },
        }
    }
}

fn find_named(rules: &Vec<Rule>, name: &str) -> (r: Option<Rule>)
    ensures
        text::opt_view(r) == rule_named(text::views(rules@), name@),
{
    let ghost all = text::views(rules@);
    let mut i: usize = 0;
    assert(all.skip(0) =~= all);
    while i < rules.len()
        invariant
            i <= rules@.len(),
            all == text::views(rules@),
            rule_named(all, name@) == rule_named(all.skip(i as int), name@),
        decreases rules@.len() - i,
    {
        assert(all.skip(i as int)[0] == rules@[i as int]@);
        assert(all.skip(i as int).drop_first() =~= all.skip(i + 1));
        if text::same(rules[i].name.as_str(), name) {
            return Some(rules[i].clone());
        }
        i = i + 1;
    }
    None
}

fn find_prefixed(rules: &Vec<Rule>, prefix: &str) -> (r: Option<Rule>)
    ensures
        text::opt_view(r) == rule_prefixed(text::views(rules@), prefix@),
{
    let ghost all = text::views(rules@);
    let mut i: usize = 0;
    assert(all.skip(0) =~= all);
    while i < rules.len()
        invariant
            i <= rules@.len(),
            all == text::views(rules@),
            rule_prefixed(all, prefix@) == rule_prefixed(all.skip(i as int), prefix@),
        decreases rules@.len() - i,
    {
        assert(all.skip(i as int)[0] == rules@[i as int]@);
        assert(all.skip(i as int).drop_first() =~= all.skip(i + 1));
        if text::same(rules[i].match_prefix.as_str(), prefix) {
            return Some(rules[i].clone());
        }
        i = i + 1;
    }
    None
}

/// Decides what a probe of a rule asks for.
pub fn probe_rule(state: &AppState, body: ProbeBody) -> (r: Result<ProbePlan, ErrorReply>)
    ensures
        config::result_view(r) == probe_planned(state@, body),
{
    let fid = text::trim(body.frontend.as_str());
    let fe = match state.frontends.get(fid.as_str()) {
        Some(fe) => fe,
        None => {
            return Err(bad_about("前端 '", fid.as_str(), "' 不存在"));
        },
    };
    let env = match fe.envs.get(fe.active_env.as_str()) {
        Some(env) => env,
        None => {
            return Err(bad_about("环境 '", fe.active_env.as_str(), "' 不存在"));
        },
    };
    let found = match text::wanted_text(&body.rule_name) {
        Some(name) => find_named(&env.rules, name.as_str()),
        None => match text::wanted_text(&body.match_prefix) {
            Some(prefix) => find_prefixed(&env.rules, prefix.as_str()),
            None => if env.rules.len() == 0 {
                None
            } else {
                Some(env.rules[0].clone())
            },
        },
    };
    let rule = match found {
        Some(rule) => rule,
        None => {
            return Err(bad("未找到可探测的规则".to_string()));
        },
    };
    let path = match text::wanted_text(&body.path) {
        Some(p) => p,
        None => rule.match_prefix.clone(),
    };
    let url = proxy::build_upstream_url(
        rule.target.as_str(),
        path.as_str(),
        None,
        rule.strip_prefix,
        rule.match_prefix.as_str(),
    );
    Ok(ProbePlan { url, rule: rule.name, env: fe.active_env.clone(), frontend: fid })
}

/// What came of a probe.
#[derive(Debug)]
pub enum ProbeOutcome {
    Failed(String),
    Answered { status: u16, headers: HeaderMap, body: Vec<u8> },
}

/// What a report says besides the plan.
#[derive(Debug)]
pub enum ProbeDetail {
    Error(String),
    BodyPreview(Option<String>),
}

/// The report of a probe.
#[derive(Debug)]
pub struct ProbeReport {
    /// The upstream answered, and not with a fault of its own.
    pub ok: bool,
    pub url: String,
    pub status: u16,
    pub duration_ms: u64,
    pub rule: String,
    pub env: String,
    pub frontend: String,
    pub detail: ProbeDetail,
}

/// The report of what came of a probe.
pub open spec fn is_probe_report(
    r: ProbeReport,
    plan: ProbePlanView,
    duration_ms: u64,
    outcome: ProbeOutcome,
) -> bool {
    &&& r.url@ == plan.url
    &&& r.rule@ == plan.rule
    &&& r.env@ == plan.env
    &&& r.frontend@ == plan.frontend
    &&& r.duration_ms == duration_ms
    &&& match outcome {
        ProbeOutcome::Failed(e) => {
            &&& !r.ok
            &&& r.status == 0
            &&& r.detail matches ProbeDetail::Error(x)
            &&& x@ == e@
        },
        ProbeOutcome::Answered { status, headers, body } => {
            &&& r.ok == (status < 500)
            &&& r.status == status
            &&& r.detail matches ProbeDetail::BodyPreview(p)
            &&& text::opt_view(p) == proxy::preview(
                state::text_header(headers, "content-type"@),
                body@,
            )
        },
    }
}

/// Reports what came of a probe.
pub fn probe_report(plan: ProbePlan, duration_ms: u64, outcome: ProbeOutcome) -> (r: ProbeReport)
    ensures
        is_probe_report(r, plan@, duration_ms, outcome),
{
    let (ok, status, detail) = match outcome {
        ProbeOutcome::Failed(e) => (false, 0u16, ProbeDetail::Error(e)),
        ProbeOutcome::Answered { status, headers, body } => (
            status < 500,
            status,
            ProbeDetail::BodyPreview(proxy::preview_with(&headers, body.as_slice())),
        ),
    };
    ProbeReport {
        ok,
        url: plan.url,
        status,
        duration_ms,
        rule: plan.rule,
        env: plan.env,
        frontend: plan.frontend,
        detail,
    }
}

} // verus!
