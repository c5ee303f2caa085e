//! What each request of the admin console is answered, and what it makes of
//! the configuration, field by field.

use crate::admin;
use crate::admin::{
    ActiveBody, CreateEnvBody, CreateFrontendBody, DeleteEnvBody, DeleteFrontendBody, EnvList,
    FrontendQuery, ProbeBody, ProbeDetail, ProbeOutcome, ProbePlanView, ProbeReport,
    UpdateFrontendBody,
};
use crate::config;
use crate::config::{ConfigView, EnvView, FrontendView, RuleView};
use crate::laws::console;
use crate::laws::settings;
use crate::laws::tables;
use crate::proxy;
use crate::proxy::ErrorReplyView;
use crate::state;
use crate::state::StateView;
use crate::table;
use crate::text;
use vstd::prelude::*;

verus! {

// ---------------------------------------------------------------------------
// Refusals
// ---------------------------------------------------------------------------

/// The request is answered 400, with this message.
pub open spec fn is_refused<T>(r: Result<T, ErrorReplyView>, msg: Seq<char>) -> bool {
    r matches Err(e) && e.status == 400 && e.error == msg
}

/// An entry has this name.
pub open spec fn is_there<V>(m: Seq<(Seq<char>, V)>, key: Seq<char>) -> bool {
    exists|j: int| 0 <= j < m.len() && (#[trigger] m[j]).0 == key
}

proof fn lemma_is_there<V>(m: Seq<(Seq<char>, V)>, key: Seq<char>)
    ensures
        table::has_key(m, key) == is_there(m, key),
{
    if table::has_key(m, key) {
        let j = table::key_index(m, key);
        assert(m[j].0 == key);
    }
}

/// A new configuration is refused with its first fault, and otherwise is what
/// the check leaves of it.
pub proof fn law_checked(c: ConfigView)
    ensures
        config::validated(c).1 matches Some(e) ==> is_refused(admin::checked(c), e),
        config::validated(c).1 is None ==> admin::checked(c) == Ok::<ConfigView, ErrorReplyView>(
            config::validated(c).0,
        ),
{
}

// ---------------------------------------------------------------------------
// Frontends
// ---------------------------------------------------------------------------

/// A frontend is not created without an id or with a slash in it, where the id
/// is taken, or where the frontend to copy is missing.
pub proof fn law_create_frontend_refused(st: StateView, body: CreateFrontendBody)
    ensures
        ({
            let id = text::trimmed(body.id@);
            let fs = state::snapshot(st).frontends;
            let r = admin::frontend_created(st, body);
            let bad_id = id.len() == 0 || id.contains('/');
            &&& bad_id ==> is_refused(r, "前端 id 无效"@)
            &&& !bad_id && is_there(fs, id) ==> is_refused(r, "前端 '"@ + id + "' 已存在"@)
            &&& !bad_id && !is_there(fs, id) ==> (text::wanted(
                text::opt_view(body.copy_from),
            ) matches Some(from) ==> (!is_there(fs, from) ==> is_refused(
                r,
                "复制源前端 '"@ + from + "' 不存在"@,
            )))
        }),
{
    let fs = state::snapshot(st).frontends;
    lemma_is_there(fs, text::trimmed(body.id@));
    if let Some(from) = text::wanted(text::opt_view(body.copy_from)) {
        lemma_is_there(fs, from);
    }
}

/// Otherwise the frontend stands behind the others, and the new configuration
/// is checked. It has the label or else the id, the origins tidied without
/// those that are empty, and the environments, the environment in force and
/// the cookie switch of the frontend that is copied; one empty environment
/// where none is.
pub proof fn law_create_frontend_fields(st: StateView, body: CreateFrontendBody, at: int)
    requires
        settings::is_well_named(st.frontends),
        text::trimmed(body.id@).len() > 0,
        !text::trimmed(body.id@).contains('/'),
        !is_there(state::snapshot(st).frontends, text::trimmed(body.id@)),
        text::wanted(text::opt_view(body.copy_from)) matches Some(from) ==> 0 <= at
            < state::snapshot(st).frontends.len() && state::snapshot(st).frontends[at].0 == from,
    ensures
        ({
            let id = text::trimmed(body.id@);
            let c = state::snapshot(st);
            let fe = admin::described_frontend(c, id, body);
            let w = ConfigView { frontends: c.frontends.push((id, fe)), ..c };
            let r = admin::frontend_created(st, body);
            &&& config::validated(w).1 matches Some(e) ==> is_refused(r, e)
            &&& config::validated(w).1 is None ==> r == Ok::<
                (ConfigView, Seq<char>),
                ErrorReplyView,
            >((config::validated(w).0, id))
            &&& fe.label == (if text::is_blank(body.label@) {
                id
            } else {
                text::trimmed(body.label@)
            })
            &&& fe.origins == text::tidy_list(text::views(body.origins@))
            &&& text::wanted(text::opt_view(body.copy_from)) is Some ==> {
                &&& fe.envs == c.frontends[at].1.envs
                &&& fe.active_env == c.frontends[at].1.active_env
                &&& fe.rewrite_cookies == c.frontends[at].1.rewrite_cookies
            }
            &&& text::wanted(text::opt_view(body.copy_from)) is None ==> {
                &&& fe.active_env == "default"@
                &&& !fe.rewrite_cookies
                &&& fe.envs.len() == 1
                &&& fe.envs[0].0 == "default"@
                &&& fe.envs[0].1.label == "默认"@
                &&& fe.envs[0].1.rules.len() == 0
            }
        }),
{
    let id = text::trimmed(body.id@);
    let c = state::snapshot(st);
    console::law_snapshot_runs(st);
    lemma_is_there(c.frontends, id);
    if let Some(from) = text::wanted(text::opt_view(body.copy_from)) {
        lemma_is_there(c.frontends, from);
        tables::law_lookup(c.frontends, at, from);
    }
}

/// A frontend is deleted where it is there and not the last; the others stay
/// in their order, and so does all else.
pub proof fn law_delete_frontend_fields(st: StateView, body: DeleteFrontendBody)
    requires
        settings::is_well_named(st.frontends),
    ensures
        ({
            let id = text::trimmed(body.id@);
            let c = state::snapshot(st);
            let r = admin::frontend_deleted(st, body);
            &&& c.frontends.len() <= 1 ==> is_refused(r, "至少保留一个前端"@)
            &&& c.frontends.len() > 1 && !is_there(c.frontends, id) ==> is_refused(
                r,
                "前端 '"@ + id + "' 不存在"@,
            )
            &&& c.frontends.len() > 1 && is_there(c.frontends, id) ==> {
                &&& r matches Ok(n)
                &&& n.frontends == c.frontends.filter(|e: (Seq<char>, FrontendView)| e.0 != id)
                &&& n.listen == c.listen && n.allow_origins == c.allow_origins
                &&& n.active_env == c.active_env && n.envs == c.envs && n.rules == c.rules
            }
        }),
{
    let id = text::trimmed(body.id@);
    let c = state::snapshot(st);
    console::law_snapshot_runs(st);
    lemma_is_there(c.frontends, id);
    tables::law_removed(c.frontends, id);
}

/// Frontend `at` of a snapshot with another in its place.
pub open spec fn with_frontend_at(c: ConfigView, at: int, fe: FrontendView) -> ConfigView {
    ConfigView { frontends: c.frontends.update(at, (c.frontends[at].0, fe)), ..c }
}

proof fn lemma_with_frontend_at(st: StateView, at: int, fe: FrontendView)
    requires
        settings::is_well_named(st.frontends),
        0 <= at < state::snapshot(st).frontends.len(),
    ensures
        ({
            let c = state::snapshot(st);
            let id = c.frontends[at].0;
            &&& table::has_key(c.frontends, id)
            &&& table::value_of(c.frontends, id) == c.frontends[at].1
            &&& admin::with_frontend(c, id, fe) == with_frontend_at(c, at, fe)
            &&& table::unique_keys(c.frontends[at].1.envs)
            &&& table::has_key(c.frontends[at].1.envs, c.frontends[at].1.active_env)
        }),
{
    let c = state::snapshot(st);
    console::law_snapshot_runs(st);
    table::law_key_index_unique(c.frontends, at);
    assert(table::unique_keys(c.frontends[at].1.envs));
    assert(table::has_key(c.frontends[at].1.envs, c.frontends[at].1.active_env));
}

/// A change of a frontend that is not there is refused. Otherwise the new
/// configuration, with that frontend changed in its place, is checked.
pub proof fn law_update_frontend_fields(st: StateView, body: UpdateFrontendBody, at: int)
    requires
        settings::is_well_named(st.frontends),
    ensures
        ({
            let id = text::trimmed(body.id@);
            let c = state::snapshot(st);
            let r = admin::frontend_updated(st, body);
            &&& !is_there(c.frontends, id) ==> is_refused(r, "前端 '"@ + id + "' 不存在"@)
            &&& 0 <= at < c.frontends.len() && c.frontends[at].0 == id ==> {
                let w = with_frontend_at(
                    c,
                    at,
                    admin::updated_frontend(c.frontends[at].1, body),
                );
                &&& config::validated(w).1 matches Some(e) ==> is_refused(r, e)
                &&& config::validated(w).1 is None ==> r == Ok::<ConfigView, ErrorReplyView>(
                    config::validated(w).0,
                )
            }
        }),
{
    let id = text::trimmed(body.id@);
    let c = state::snapshot(st);
    lemma_is_there(c.frontends, id);
    if 0 <= at < c.frontends.len() && c.frontends[at].0 == id {
        lemma_with_frontend_at(st, at, admin::updated_frontend(c.frontends[at].1, body));
    }
}

/// Of a frontend a request changes the label where it gives one that is not
/// blank, the origins and the cookie switch where it gives them, and nothing
/// else.
pub proof fn law_updated_frontend(fe: FrontendView, body: UpdateFrontendBody)
    ensures
        ({
            let n = admin::updated_frontend(fe, body);
            &&& n.envs == fe.envs
            &&& n.active_env == fe.active_env
            &&& body.label is None ==> n.label == fe.label
            &&& body.label matches Some(l) ==> n.label == (if text::is_blank(l@) {
                fe.label
            } else {
                text::trimmed(l@)
            })
            &&& body.origins is None ==> n.origins == fe.origins
            &&& body.origins matches Some(o) ==> n.origins == text::tidy_list(text::views(o@))
            &&& n.rewrite_cookies == (match body.rewrite_cookies {
                Some(b) => b,
                None => fe.rewrite_cookies,
            })
        }),
{
}

// ---------------------------------------------------------------------------
// Environments
// ---------------------------------------------------------------------------

/// The environment in force is switched where the frontend and the environment
/// are there; nothing else changes.
pub proof fn law_set_active_fields(st: StateView, body: ActiveBody, at: int)
    requires
        settings::is_well_named(st.frontends),
    ensures
        ({
            let fid = text::trimmed(body.frontend@);
            let eid = text::trimmed(body.id@);
            let c = state::snapshot(st);
            let fe = c.frontends[at].1;
            let r = admin::env_activated(st, body);
            &&& !is_there(c.frontends, fid) ==> is_refused(r, "前端 '"@ + fid + "' 不存在"@)
            &&& 0 <= at < c.frontends.len() && c.frontends[at].0 == fid ==> {
                &&& !is_there(fe.envs, eid) ==> is_refused(r, "环境 '"@ + eid + "' 不存在"@)
                &&& is_there(fe.envs, eid) ==> {
                    &&& r matches Ok(x)
                    &&& x.1 == (fid, eid)
                    &&& x.0 == with_frontend_at(
                        c,
                        at,
                        FrontendView {
                            label: fe.label,
                            origins: fe.origins,
                            active_env: eid,
                            envs: fe.envs,
                            rewrite_cookies: fe.rewrite_cookies,
                        },
                    )
                }
            }
        }),
{
    let fid = text::trimmed(body.frontend@);
    let eid = text::trimmed(body.id@);
    let c = state::snapshot(st);
    lemma_is_there(c.frontends, fid);
    if 0 <= at < c.frontends.len() && c.frontends[at].0 == fid {
        let fe = c.frontends[at].1;
        lemma_with_frontend_at(st, at, FrontendView { active_env: eid, ..fe });
        lemma_is_there(fe.envs, eid);
    }
}

/// An environment is created where it has an id, the frontend is there, the id
/// is free and the environment to copy is there. It stands behind the others,
/// with the label or else the id, and with the rules of the one that is copied
/// or none; the new configuration is checked.
pub proof fn law_create_env_fields(st: StateView, body: CreateEnvBody, at: int, src: int)
    requires
        settings::is_well_named(st.frontends),
    ensures
        ({
            let fid = text::trimmed(body.frontend@);
            let eid = text::trimmed(body.id@);
            let c = state::snapshot(st);
            let fe = c.frontends[at].1;
            let from = text::wanted(text::opt_view(body.copy_from));
            let r = admin::env_created(st, body);
            &&& eid.len() == 0 ==> is_refused(r, "环境 id 不能为空"@)
            &&& eid.len() > 0 && !is_there(c.frontends, fid) ==> is_refused(
                r,
                "前端 '"@ + fid + "' 不存在"@,
            )
            &&& eid.len() > 0 && 0 <= at < c.frontends.len() && c.frontends[at].0 == fid ==> {
                &&& is_there(fe.envs, eid) ==> is_refused(r, "环境 '"@ + eid + "' 已存在"@)
                &&& !is_there(fe.envs, eid) && from is Some && !is_there(fe.envs, from->0)
                    ==> is_refused(r, "复制源环境 '"@ + from->0 + "' 不存在"@)
                &&& !is_there(fe.envs, eid) && (from is None || (0 <= src < fe.envs.len()
                    && fe.envs[src].0 == from->0)) ==> {
                    let env = EnvView {
                        label: if text::is_blank(body.label@) {
                            eid
                        } else {
                            text::trimmed(body.label@)
                        },
                        rules: if from is Some {
                            fe.envs[src].1.rules
                        } else {
                            Seq::<RuleView>::empty()
                        },
                    };
                    let w = with_frontend_at(
                        c,
                        at,
                        FrontendView {
                            label: fe.label,
                            origins: fe.origins,
                            active_env: fe.active_env,
                            envs: fe.envs.push((eid, env)),
                            rewrite_cookies: fe.rewrite_cookies,
                        },
                    );
                    &&& config::validated(w).1 matches Some(e) ==> is_refused(r, e)
                    &&& config::validated(w).1 is None ==> r == Ok::<
                        (ConfigView, Seq<char>),
                        ErrorReplyView,
                    >((config::validated(w).0, eid))
                }
            }
        }),
{
    let fid = text::trimmed(body.frontend@);
    let eid = text::trimmed(body.id@);
    let c = state::snapshot(st);
    let fe = c.frontends[at].1;
    let from = text::wanted(text::opt_view(body.copy_from));
    lemma_is_there(c.frontends, fid);
    if 0 <= at < c.frontends.len() && c.frontends[at].0 == fid {
        let env = EnvView {
            label: if text::is_blank(body.label@) {
                eid
            } else {
                text::trimmed(body.label@)
            },
            rules: if from is Some {
                fe.envs[src].1.rules
            } else {
                Seq::<RuleView>::empty()
            },
        };
        lemma_with_frontend_at(
            st,
            at,
            FrontendView { envs: fe.envs.push((eid, env)), ..fe },
        );
        lemma_is_there(fe.envs, eid);
        if let Some(f) = from {
            lemma_is_there(fe.envs, f);
            tables::law_lookup(fe.envs, src, f);
        }
    }
}

/// An environment is deleted where the frontend is there and has another, the
/// environment is there and not in force; the others stay in their order.
pub proof fn law_delete_env_fields(st: StateView, body: DeleteEnvBody, at: int)
    requires
        settings::is_well_named(st.frontends),
    ensures
        ({
            let fid = text::trimmed(body.frontend@);
            let eid = text::trimmed(body.id@);
            let c = state::snapshot(st);
            let fe = c.frontends[at].1;
            let r = admin::env_deleted(st, body);
            &&& !is_there(c.frontends, fid) ==> is_refused(r, "前端 '"@ + fid + "' 不存在"@)
            &&& 0 <= at < c.frontends.len() && c.frontends[at].0 == fid ==> {
                &&& fe.envs.len() <= 1 ==> is_refused(r, "至少保留一个环境"@)
                &&& fe.envs.len() > 1 && fe.active_env == eid ==> is_refused(
                    r,
                    "不能删除当前生效环境，请先切换"@,
                )
                &&& fe.envs.len() > 1 && fe.active_env != eid && !is_there(fe.envs, eid)
                    ==> is_refused(r, "环境 '"@ + eid + "' 不存在"@)
                &&& fe.envs.len() > 1 && fe.active_env != eid && is_there(fe.envs, eid) ==> r
                    == Ok::<ConfigView, ErrorReplyView>(
                    with_frontend_at(
                        c,
                        at,
                        FrontendView {
                            label: fe.label,
                            origins: fe.origins,
                            active_env: fe.active_env,
                            envs: fe.envs.filter(|e: (Seq<char>, EnvView)| e.0 != eid),
                            rewrite_cookies: fe.rewrite_cookies,
                        },
                    ),
                )
            }
        }),
{
    let fid = text::trimmed(body.frontend@);
    let eid = text::trimmed(body.id@);
    let c = state::snapshot(st);
    let fe = c.frontends[at].1;
    lemma_is_there(c.frontends, fid);
    if 0 <= at < c.frontends.len() && c.frontends[at].0 == fid {
        let left = fe.envs.filter(|e: (Seq<char>, EnvView)| e.0 != eid);
        lemma_with_frontend_at(st, at, FrontendView { envs: left, ..fe });
        lemma_is_there(fe.envs, eid);
        tables::law_removed(fe.envs, eid);
    }
}

// ---------------------------------------------------------------------------
// Rules
// ---------------------------------------------------------------------------

/// Rules are put where a frontend is named that is there: they replace those
/// of the environment in force, whose label stays, and the new configuration
/// is checked.
pub proof fn law_put_rules_fields(
    st: StateView,
    q: FrontendQuery,
    rules: Seq<RuleView>,
    at: int,
    e: int,
)
    requires
        settings::is_well_named(st.frontends),
    ensures
        ({
            let c = state::snapshot(st);
            let fe = c.frontends[at].1;
            let r = admin::rules_put(st, q, rules);
            &&& text::wanted(text::opt_view(q.frontend)) is None ==> is_refused(
                r,
                "缺少 frontend 参数"@,
            )
            &&& text::wanted(text::opt_view(q.frontend)) matches Some(fid) ==> {
                &&& !is_there(c.frontends, fid) ==> is_refused(r, "前端 '"@ + fid + "' 不存在"@)
                &&& 0 <= at < c.frontends.len() && c.frontends[at].0 == fid && 0 <= e
                    < fe.envs.len() && fe.envs[e].0 == fe.active_env ==> {
                    let env = (
                        fe.active_env,
                        EnvView { label: fe.envs[e].1.label, rules },
                    );
                    let w = with_frontend_at(
                        c,
                        at,
                        FrontendView {
                            label: fe.label,
                            origins: fe.origins,
                            active_env: fe.active_env,
                            envs: fe.envs.update(e, env),
                            rewrite_cookies: fe.rewrite_cookies,
                        },
                    );
                    &&& config::validated(w).1 matches Some(fault) ==> is_refused(r, fault)
                    &&& config::validated(w).1 is None ==> {
                        &&& r matches Ok(x)
                        &&& x.0 == config::validated(w).0
                        &&& x.1.frontend == fid
                        &&& x.1.active == fe.active_env
                    }
                }
            }
        }),
{
    let c = state::snapshot(st);
    let fe = c.frontends[at].1;
    if let Some(fid) = text::wanted(text::opt_view(q.frontend)) {
        lemma_is_there(c.frontends, fid);
        if 0 <= at < c.frontends.len() && c.frontends[at].0 == fid && 0 <= e < fe.envs.len()
            && fe.envs[e].0 == fe.active_env {
            let env = EnvView { label: fe.envs[e].1.label, rules };
            lemma_with_frontend_at(
                st,
                at,
                FrontendView { envs: fe.envs.update(e, (fe.active_env, env)), ..fe },
            );
            table::law_key_index_unique(fe.envs, e);
        }
    }
}

/// What is shown of a frontend: its environment in force with the rules there,
/// its origins, label and cookie switch.
pub proof fn law_rules_shown(st: StateView, q: FrontendQuery, at: int, e: int)
    requires
        settings::is_well_named(st.frontends),
    ensures
        ({
            let fe = st.frontends[at].1;
            let r = admin::rules_shown(st, q);
            &&& text::wanted(text::opt_view(q.frontend)) is None ==> is_refused(
                r,
                "缺少 frontend 参数"@,
            )
            &&& text::wanted(text::opt_view(q.frontend)) matches Some(fid) ==> {
                &&& !is_there(st.frontends, fid) ==> is_refused(
                    r,
                    "前端 '"@ + fid + "' 不存在"@,
                )
                &&& 0 <= at < st.frontends.len() && st.frontends[at].0 == fid ==> {
                    &&& r matches Ok(s)
                    &&& s.frontend == fid
                    &&& s.active == fe.active_env
                    &&& s.origins == fe.origins
                    &&& s.label == fe.label
                    &&& s.rewrite_cookies == fe.rewrite_cookies
                    &&& 0 <= e < fe.envs.len() && fe.envs[e].0 == fe.active_env ==> s.rules
                        == fe.envs[e].1.rules
                    &&& !is_there(fe.envs, fe.active_env) ==> s.rules.len() == 0
                }
            }
        }),
{
    let fe = st.frontends[at].1;
    if let Some(fid) = text::wanted(text::opt_view(q.frontend)) {
        lemma_is_there(st.frontends, fid);
        if 0 <= at < st.frontends.len() && st.frontends[at].0 == fid {
            tables::law_lookup(st.frontends, at, fid);
            law_active_rules(fe, e);
        }
    }
}

/// The rules in force of a frontend are those of the environment that it names.
pub proof fn law_active_rules(fe: FrontendView, e: int)
    ensures
        table::unique_keys(fe.envs) && 0 <= e < fe.envs.len() && fe.envs[e].0 == fe.active_env
            ==> admin::active_rules(fe) == fe.envs[e].1.rules,
        !is_there(fe.envs, fe.active_env) ==> admin::active_rules(fe).len() == 0,
{
    lemma_is_there(fe.envs, fe.active_env);
    if table::unique_keys(fe.envs) {
        tables::law_lookup(fe.envs, e, fe.active_env);
    }
}

// ---------------------------------------------------------------------------
// Lists
// ---------------------------------------------------------------------------

/// What the list of frontends says of one.
pub proof fn law_frontend_summary(fs: Seq<(Seq<char>, FrontendView)>, i: int)
    requires
        table::unique_keys(fs),
        0 <= i < fs.len(),
    ensures
        ({
            let (id, fe) = fs[i];
            let s = admin::frontend_summary(fs, id);
            &&& s.id == id
            &&& s.label == (if fe.label.len() == 0 {
                id
            } else {
                fe.label
            })
            &&& s.origins == fe.origins
            &&& s.active_env == fe.active_env
            &&& s.rewrite_cookies == fe.rewrite_cookies
            &&& s.env_count == fe.envs.len()
            &&& s.rule_count == admin::active_rules(fe).len()
        }),
{
    tables::law_lookup(fs, i, fs[i].0);
}

/// What the list of environments says of one.
pub proof fn law_env_summary(envs: Seq<(Seq<char>, EnvView)>, i: int)
    requires
        table::unique_keys(envs),
        0 <= i < envs.len(),
    ensures
        ({
            let (id, env) = envs[i];
            let s = admin::env_summary(envs, id);
            &&& s.id == id
            &&& s.label == (if env.label.len() == 0 {
                id
            } else {
                env.label
            })
            &&& s.rule_count == env.rules.len()
        }),
{
    tables::law_lookup(envs, i, envs[i].0);
}

/// The list of environments names the frontend and the environment in force,
/// and every environment once, in the order of ids.
pub proof fn law_env_list(l: EnvList, fid: Seq<char>, fe: FrontendView, i: int, j: int)
    requires
        admin::is_env_list(l, fid, fe),
    ensures
        l.frontend@ == fid,
        l.active@ == fe.active_env,
        0 <= i < j < l.envs@.len() ==> text::precedes(l.envs@[i].id@, l.envs@[j].id@),
        0 <= i < fe.envs.len() ==> exists|k: int|
            0 <= k < l.envs@.len() && (#[trigger] l.envs@[k]).id@ == fe.envs[i].0,
        0 <= i < l.envs@.len() ==> is_there(fe.envs, l.envs@[i].id@) && l.envs@[i]@
            == admin::env_summary(fe.envs, l.envs@[i].id@),
{
    let ids = text::views(l.envs@).map_values(|s: admin::EnvSummaryView| s.id);
    if 0 <= i < j < l.envs@.len() {
        assert(ids[i] == l.envs@[i].id@ && ids[j] == l.envs@[j].id@);
        assert(text::precedes(ids[i], ids[j]));
    }
    if 0 <= i < fe.envs.len() {
        let id = fe.envs[i].0;
        assert(table::has_key(fe.envs, id));
        assert(ids.contains(id));
        let k = choose|k: int| 0 <= k < ids.len() && ids[k] == id;
        assert(l.envs@[k].id@ == id);
    }
    if 0 <= i < l.envs@.len() {
        assert(ids[i] == l.envs@[i].id@);
        assert(ids.contains(ids[i]));
        lemma_is_there(fe.envs, ids[i]);
    }
}

/// Names in order are in the order of code points, each once, and all of them.
pub proof fn law_sorted_names<V>(ids: Seq<Seq<char>>, m: Seq<(Seq<char>, V)>, i: int, j: int)
    requires
        table::are_sorted_keys(ids, m),
    ensures
        0 <= i < j < ids.len() ==> text::precedes(ids[i], ids[j]),
        0 <= i < ids.len() ==> is_there(m, ids[i]),
        0 <= i < m.len() ==> ids.contains(m[i].0),
{
    if 0 <= i < ids.len() {
        assert(ids.contains(ids[i]));
        lemma_is_there(m, ids[i]);
    }
    if 0 <= i < m.len() {
        assert(table::has_key(m, m[i].0));
    }
}

/// As many log entries are shown as are asked for, but at least one and at
/// most 200.
pub proof fn law_shown_limit(limit: usize)
    ensures
        1 <= limit <= 200 ==> admin::shown_limit(limit) == limit,
        limit == 0 ==> admin::shown_limit(limit) == 1,
        limit > 200 ==> admin::shown_limit(limit) == 200,
{
}

// ---------------------------------------------------------------------------
// Probes
// ---------------------------------------------------------------------------

/// The first rule of a name, or of a prefix, is found; none where there is
/// none.
pub proof fn law_first_rule(rules: Seq<RuleView>, key: Seq<char>, i: int)
    ensures
        0 <= i < rules.len() && rules[i].name == key && (forall|j: int|
            0 <= j < i ==> (#[trigger] rules[j]).name != key) ==> admin::rule_named(rules, key)
            == Some(rules[i]),
        (forall|j: int| 0 <= j < rules.len() ==> (#[trigger] rules[j]).name != key)
            ==> admin::rule_named(rules, key) is None,
        0 <= i < rules.len() && rules[i].match_prefix == key && (forall|j: int|
            0 <= j < i ==> (#[trigger] rules[j]).match_prefix != key) ==> admin::rule_prefixed(
            rules,
            key,
        ) == Some(rules[i]),
        (forall|j: int| 0 <= j < rules.len() ==> (#[trigger] rules[j]).match_prefix != key)
            ==> admin::rule_prefixed(rules, key) is None,
    decreases rules.len(),
{
    if rules.len() > 0 {
        let rest = rules.drop_first();
        law_first_rule(rest, key, i - 1);
        assert(forall|j: int| 0 <= j < rest.len() ==> #[trigger] rest[j] == rules[j + 1]);
        if forall|j: int| 0 <= j < rules.len() ==> (#[trigger] rules[j]).name != key {
            assert forall|j: int| 0 <= j < rest.len() implies (#[trigger] rest[j]).name != key by {
                assert(rules[j + 1].name != key);
            }
        }
        if forall|j: int| 0 <= j < rules.len() ==> (#[trigger] rules[j]).match_prefix != key {
            assert forall|j: int| 0 <= j < rest.len() implies (#[trigger] rest[j]).match_prefix
                != key by {
                assert(rules[j + 1].match_prefix != key);
            }
        }
        if 0 < i < rules.len() && forall|j: int|
            0 <= j < i ==> (#[trigger] rules[j]).name != key {
            assert forall|j: int| 0 <= j < i - 1 implies (#[trigger] rest[j]).name != key by {
                assert(rules[j + 1].name != key);
            }
            assert(rules[0].name != key);
        }
        if 0 < i < rules.len() && forall|j: int|
            0 <= j < i ==> (#[trigger] rules[j]).match_prefix != key {
            assert forall|j: int| 0 <= j < i - 1 implies (#[trigger] rest[j]).match_prefix
                != key by {
                assert(rules[j + 1].match_prefix != key);
            }
            assert(rules[0].match_prefix != key);
        }
    }
}

/// A probe tries the rule of the name that it gives, else the rule of the
/// prefix that it gives, else the first.
pub proof fn law_probed_rule(rules: Seq<RuleView>, body: ProbeBody)
    ensures
        ({
            let r = admin::probed_rule(rules, body);
            let name = text::wanted(text::opt_view(body.rule_name));
            let prefix = text::wanted(text::opt_view(body.match_prefix));
            &&& name is Some ==> r == admin::rule_named(rules, name->0)
            &&& name is None && prefix is Some ==> r == admin::rule_prefixed(rules, prefix->0)
            &&& name is None && prefix is None && rules.len() > 0 ==> r == Some(rules[0])
            &&& name is None && prefix is None && rules.len() == 0 ==> r is None
        }),
{
}

/// A probe asks the target of its rule for the path that it gives, or for the
/// prefix of the rule; it is refused where the frontend, its environment or
/// the rule is missing.
pub proof fn law_probe_plan(st: StateView, body: ProbeBody, at: int, e: int)
    requires
        settings::is_well_named(st.frontends),
    ensures
        ({
            let fid = text::trimmed(body.frontend@);
            let fe = st.frontends[at].1;
            let r = admin::probe_planned(st, body);
            &&& !is_there(st.frontends, fid) ==> is_refused(r, "前端 '"@ + fid + "' 不存在"@)
            &&& 0 <= at < st.frontends.len() && st.frontends[at].0 == fid ==> {
                &&& !is_there(fe.envs, fe.active_env) ==> is_refused(
                    r,
                    "环境 '"@ + fe.active_env + "' 不存在"@,
                )
                &&& 0 <= e < fe.envs.len() && fe.envs[e].0 == fe.active_env
                    ==> match admin::probed_rule(fe.envs[e].1.rules, body) {
                    None => is_refused(r, "未找到可探测的规则"@),
                    Some(rule) => {
                        let path = match text::wanted(text::opt_view(body.path)) {
                            Some(p) => p,
                            None => rule.match_prefix,
                        };
                        &&& r matches Ok(p)
                        &&& p.rule == rule.name
                        &&& p.env == fe.active_env
                        &&& p.frontend == fid
                        &&& p.url == proxy::upstream_url(
                            rule.target,
                            path,
                            None,
                            rule.strip_prefix,
                            rule.match_prefix,
                        )
                    },
                }
            }
        }),
{
    let fid = text::trimmed(body.frontend@);
    lemma_is_there(st.frontends, fid);
    if 0 <= at < st.frontends.len() && st.frontends[at].0 == fid {
        let fe = st.frontends[at].1;
        tables::law_lookup(st.frontends, at, fid);
        lemma_is_there(fe.envs, fe.active_env);
        assert(table::unique_keys(fe.envs));
        tables::law_lookup(fe.envs, e, fe.active_env);
    }
}

/// A report repeats the plan and the time. It is good where the upstream
/// answered below 500; it says what was answered, or why nothing was.
pub proof fn law_probe_report(
    r: ProbeReport,
    plan: ProbePlanView,
    duration_ms: u64,
    outcome: ProbeOutcome,
)
    requires
        admin::is_probe_report(r, plan, duration_ms, outcome),
    ensures
        r.url@ == plan.url,
        r.rule@ == plan.rule,
        r.env@ == plan.env,
        r.frontend@ == plan.frontend,
        r.duration_ms == duration_ms,
        outcome matches ProbeOutcome::Failed(e) ==> {
            &&& !r.ok
            &&& r.status == 0
            &&& r.detail matches ProbeDetail::Error(x)
            &&& x@ == e@
        },
        outcome matches ProbeOutcome::Answered { status, headers, body } ==> {
            &&& r.ok <==> status < 500
            &&& r.status == status
            &&& r.detail matches ProbeDetail::BodyPreview(p)
            &&& text::opt_view(p) == proxy::preview(
                state::text_header(headers, "content-type"@),
                body@,
            )
        },
{
}

} // verus!
