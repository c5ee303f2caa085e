//! What every request of the admin console keeps, and what one undoes or
//! shows of another.

use crate::admin;
use crate::admin::{
    ActiveBody, CreateEnvBody, CreateFrontendBody, DeleteEnvBody, DeleteFrontendBody,
    FrontendQuery, UpdateFrontendBody,
};
use crate::config;
use crate::config::{
    ConfigSource, ConfigView, EnvView, FrontendView, RuleView, SaveOutcome,
};
use crate::cors;
use crate::laws::routing;
use crate::laws::settings;
use crate::laws::strings;
use crate::state;
use crate::state::StateView;
use crate::table;
use crate::text;
use vstd::prelude::*;

verus! {

// ---------------------------------------------------------------------------
// What every change keeps
// ---------------------------------------------------------------------------

/// Every frontend can be run, and names are unique throughout.
pub open spec fn is_running(fs: Seq<(Seq<char>, FrontendView)>) -> bool {
    settings::is_runnable(fs) && settings::is_well_named(fs)
}

/// All frontends but `id` are there as before, up to slashes at the ends of
/// targets.
pub open spec fn leaves_others(
    before: Seq<(Seq<char>, FrontendView)>,
    after: Seq<(Seq<char>, FrontendView)>,
    id: Seq<char>,
) -> bool {
    forall|k: Seq<char>|
        k != id ==> {
            &&& #[trigger] table::has_key(after, k) == table::has_key(before, k)
            &&& table::has_key(before, k) ==> settings::is_frontend_like(
                (k, table::value_of(after, k)),
                (k, table::value_of(before, k)),
            )
        }
}

/// What every change of frontend `id` keeps: the proxy can be run with the new
/// configuration, the other frontends are as they were, and so are the address
/// and the origins that are allowed besides those of the frontends.
pub open spec fn is_orderly_change(st: StateView, n: ConfigView, id: Seq<char>) -> bool {
    &&& is_running(n.frontends)
    &&& leaves_others(state::snapshot(st).frontends, n.frontends, id)
    &&& n.listen == st.listen
    &&& n.allow_origins == st.cors_section
}

proof fn lemma_like_itself(k: Seq<char>, fe: FrontendView)
    ensures
        settings::is_frontend_like((k, fe), (k, fe)),
{
    assert forall|j: int| 0 <= j < fe.envs.len() implies settings::is_env_like(
        #[trigger] fe.envs[j],
        fe.envs[j],
    ) by {}
}

/// A snapshot can be run.
pub proof fn law_snapshot_runs(st: StateView)
    requires
        settings::is_well_named(st.frontends),
    ensures
        is_running(state::snapshot(st).frontends),
        state::snapshot(st).listen == st.listen,
        state::snapshot(st).allow_origins == st.cors_section,
{
    let c = ConfigView {
        listen: st.listen,
        allow_origins: st.cors_section,
        frontends: st.frontends,
        active_env: Seq::<char>::empty(),
        envs: Seq::<(Seq<char>, EnvView)>::empty(),
        rules: Seq::<RuleView>::empty(),
    };
    settings::law_normalized_runnable(c);
}

/// Putting a frontend that has an environment in force keeps all in order.
proof fn lemma_with_frontend(st: StateView, id: Seq<char>, fe: FrontendView)
    requires
        settings::is_well_named(st.frontends),
        table::has_key(fe.envs, fe.active_env),
        table::unique_keys(fe.envs),
    ensures
        is_orderly_change(st, admin::with_frontend(state::snapshot(st), id, fe), id),
        table::has_key(admin::with_frontend(state::snapshot(st), id, fe).frontends, id),
        table::value_of(admin::with_frontend(state::snapshot(st), id, fe).frontends, id) == fe,
{
    law_snapshot_runs(st);
    let before = state::snapshot(st).frontends;
    let after = table::with_entry(before, id, fe);
    table::law_with_entry(before, id, fe);
    assert forall|i: int| 0 <= i < after.len() implies table::has_key(
        (#[trigger] after[i]).1.envs,
        after[i].1.active_env,
    ) && table::unique_keys(after[i].1.envs) by {
        if i < before.len() {
            assert(table::has_key(before[i].1.envs, before[i].1.active_env));
            assert(table::unique_keys(before[i].1.envs));
        }
    }
    assert forall|k: Seq<char>| k != id implies {
        &&& #[trigger] table::has_key(after, k) == table::has_key(before, k)
        &&& table::has_key(before, k) ==> settings::is_frontend_like(
            (k, table::value_of(after, k)),
            (k, table::value_of(before, k)),
        )
    } by {
        if table::has_key(before, k) {
            assert(table::value_of(after, k) == table::value_of(before, k));
            lemma_like_itself(k, table::value_of(before, k));
        }
    }
}

/// A name stands at the same place in tables of the same names.
proof fn lemma_same_place<V, W>(m: Seq<(Seq<char>, V)>, n: Seq<(Seq<char>, W)>, key: Seq<char>)
    requires
        table::unique_keys(m),
        m.len() == n.len(),
        forall|i: int| 0 <= i < m.len() ==> (#[trigger] n[i]).0 == m[i].0,
        table::has_key(m, key),
    ensures
        table::has_key(n, key),
        table::key_index(n, key) == table::key_index(m, key),
        0 <= table::key_index(m, key) < m.len(),
        m[table::key_index(m, key)].0 == key,
{
    settings::law_map_keeps_keys(m, n, key);
    let i = table::key_index(m, key);
    assert(n[i].0 == key);
    table::law_key_index_unique(n, i);
}

/// The check keeps all in order.
proof fn lemma_checked(st: StateView, w: ConfigView, id: Seq<char>)
    requires
        is_orderly_change(st, w, id),
        admin::checked(w) is Ok,
    ensures
        is_orderly_change(st, admin::checked(w)->Ok_0, id),
        table::has_key(w.frontends, id) ==> table::has_key(admin::checked(w)->Ok_0.frontends, id)
            && (id, table::value_of(admin::checked(w)->Ok_0.frontends, id))
            == settings::trimmed_frontend((id, table::value_of(w.frontends, id))),
{
    let n = admin::checked(w)->Ok_0;
    let c = state::snapshot(st).frontends;
    settings::law_validate_trims(w);
    settings::law_map_keeps_keys(w.frontends, n.frontends, id);
    assert forall|i: int| 0 <= i < n.frontends.len() implies table::has_key(
        (#[trigger] n.frontends[i]).1.envs,
        n.frontends[i].1.active_env,
    ) && table::unique_keys(n.frontends[i].1.envs) by {
        let e = w.frontends[i];
        assert(table::has_key(e.1.envs, e.1.active_env));
        assert(table::unique_keys(e.1.envs));
        assert(n.frontends[i] == settings::trimmed_frontend(e));
        settings::law_map_keeps_keys(e.1.envs, n.frontends[i].1.envs, e.1.active_env);
    }
    assert forall|k: Seq<char>| k != id implies {
        &&& #[trigger] table::has_key(n.frontends, k) == table::has_key(c, k)
        &&& table::has_key(c, k) ==> settings::is_frontend_like(
            (k, table::value_of(n.frontends, k)),
            (k, table::value_of(c, k)),
        )
    } by {
        settings::law_map_keeps_keys(w.frontends, n.frontends, k);
        assert(table::has_key(w.frontends, k) == table::has_key(c, k));
        if table::has_key(c, k) {
            lemma_same_place(w.frontends, n.frontends, k);
            let i = table::key_index(w.frontends, k);
            lemma_trimmed_like(w.frontends[i], table::value_of(c, k));
        }
    }
    if table::has_key(w.frontends, id) {
        lemma_same_place(w.frontends, n.frontends, id);
    }
}

/// Trimming does not make two frontends differ in more than targets.
proof fn lemma_trimmed_like(e: (Seq<char>, FrontendView), fe: FrontendView)
    requires
        settings::is_frontend_like(e, (e.0, fe)),
    ensures
        settings::is_frontend_like(settings::trimmed_frontend(e), (e.0, fe)),
{
    let t = settings::trimmed_frontend(e);
    assert forall|j: int| 0 <= j < t.1.envs.len() implies settings::is_env_like(
        #[trigger] t.1.envs[j],
        fe.envs[j],
    ) by {
        let a = e.1.envs[j];
        let b = fe.envs[j];
        assert(settings::is_env_like(a, b));
        assert(t.1.envs[j] == settings::trimmed_env(a));
        let rules = t.1.envs[j].1.rules;
        assert forall|k: int| 0 <= k < rules.len() implies (#[trigger] rules[k]) == b.1.rules[k]
            || rules[k] == config::trimmed_rule(b.1.rules[k]) by {
            assert(a.1.rules[k] == b.1.rules[k] || a.1.rules[k] == config::trimmed_rule(
                b.1.rules[k],
            ));
            strings::law_without_trailing(b.1.rules[k].target, '/');
            assert(rules[k] == config::trimmed_rule(a.1.rules[k]));
        }
    }
}

/// The frontends of a snapshot have unique environments with one in force.
proof fn lemma_snapshot_frontend(st: StateView, id: Seq<char>)
    requires
        settings::is_well_named(st.frontends),
        table::has_key(state::snapshot(st).frontends, id),
    ensures
        ({
            let fe = table::value_of(state::snapshot(st).frontends, id);
            table::has_key(fe.envs, fe.active_env) && table::unique_keys(fe.envs)
        }),
{
    law_snapshot_runs(st);
    let fs = state::snapshot(st).frontends;
    let i = table::key_index(fs, id);
    assert(0 <= i < fs.len() && fs[i].0 == id);
    assert(table::has_key(fs[i].1.envs, fs[i].1.active_env));
    assert(table::unique_keys(fs[i].1.envs));
}

/// Creating a frontend adds it and keeps all else.
pub proof fn law_create_frontend(st: StateView, body: CreateFrontendBody)
    requires
        settings::is_well_named(st.frontends),
        admin::frontend_created(st, body) is Ok,
    ensures
        ({
            let (n, id) = admin::frontend_created(st, body)->Ok_0;
            &&& is_orderly_change(st, n, id)
            &&& !table::has_key(state::snapshot(st).frontends, id)
            &&& table::has_key(n.frontends, id)
        }),
{
    let (n, id) = admin::frontend_created(st, body)->Ok_0;
    let c = state::snapshot(st);
    let fe = admin::described_frontend(c, id, body);
    match text::wanted(text::opt_view(body.copy_from)) {
        Some(from) => {
            lemma_snapshot_frontend(st, from);
        },
        None => {
            assert(fe.envs[0].0 == fe.active_env);
        },
    }
    lemma_with_frontend(st, id, fe);
    lemma_checked(st, admin::with_frontend(c, id, fe), id);
}

/// Deleting a frontend takes it out and keeps all else; one is left.
pub proof fn law_delete_frontend(st: StateView, body: DeleteFrontendBody)
    requires
        settings::is_well_named(st.frontends),
        admin::frontend_deleted(st, body) is Ok,
    ensures
        ({
            let n = admin::frontend_deleted(st, body)->Ok_0;
            let id = text::trimmed(body.id@);
            &&& is_orderly_change(st, n, id)
            &&& !table::has_key(n.frontends, id)
        }),
{
    let n = admin::frontend_deleted(st, body)->Ok_0.frontends;
    let id = text::trimmed(body.id@);
    let c = state::snapshot(st).frontends;
    law_snapshot_runs(st);
    table::law_without_entry(c, id);
    let at = table::key_index(c, id);
    assert(0 <= at < c.len() && c[at].0 == id);
    assert forall|i: int| 0 <= i < n.len() implies table::has_key(
        (#[trigger] n[i]).1.envs,
        n[i].1.active_env,
    ) && table::unique_keys(n[i].1.envs) by {
        let j = if i < at {
            i
        } else {
            i + 1
        };
        assert(n[i] == c[j]);
        assert(table::has_key(c[j].1.envs, c[j].1.active_env));
        assert(table::unique_keys(c[j].1.envs));
    }
    assert forall|k: Seq<char>| k != id implies {
        &&& #[trigger] table::has_key(n, k) == table::has_key(c, k)
        &&& table::has_key(c, k) ==> settings::is_frontend_like(
            (k, table::value_of(n, k)),
            (k, table::value_of(c, k)),
        )
    } by {
        if table::has_key(c, k) {
            assert(table::value_of(n, k) == table::value_of(c, k));
            lemma_like_itself(k, table::value_of(c, k));
        }
    }
}

/// Changing a frontend keeps all else, and its environments up to slashes at
/// the ends of targets.
pub proof fn law_update_frontend(st: StateView, body: UpdateFrontendBody)
    requires
        settings::is_well_named(st.frontends),
        admin::frontend_updated(st, body) is Ok,
    ensures
        ({
            let n = admin::frontend_updated(st, body)->Ok_0;
            let id = text::trimmed(body.id@);
            let before = table::value_of(state::snapshot(st).frontends, id);
            &&& is_orderly_change(st, n, id)
            &&& table::has_key(n.frontends, id)
            &&& (id, table::value_of(n.frontends, id)) == settings::trimmed_frontend(
                (id, admin::updated_frontend(before, body)),
            )
        }),
{
    let id = text::trimmed(body.id@);
    let c = state::snapshot(st);
    let fe = admin::updated_frontend(table::value_of(c.frontends, id), body);
    lemma_snapshot_frontend(st, id);
    lemma_with_frontend(st, id, fe);
    lemma_checked(st, admin::with_frontend(c, id, fe), id);
}

/// Switching the environment in force puts that environment into force, and
/// keeps all else.
pub proof fn law_set_active(st: StateView, body: ActiveBody)
    requires
        settings::is_well_named(st.frontends),
        admin::env_activated(st, body) is Ok,
    ensures
        ({
            let (n, (fid, eid)) = admin::env_activated(st, body)->Ok_0;
            let before = table::value_of(state::snapshot(st).frontends, fid);
            &&& is_orderly_change(st, n, fid)
            &&& table::has_key(n.frontends, fid)
            &&& table::value_of(n.frontends, fid) == (FrontendView { active_env: eid, ..before })
            &&& table::has_key(before.envs, eid)
        }),
{
    let fid = text::trimmed(body.frontend@);
    let eid = text::trimmed(body.id@);
    let c = state::snapshot(st);
    let fe = FrontendView { active_env: eid, ..table::value_of(c.frontends, fid) };
    lemma_snapshot_frontend(st, fid);
    lemma_with_frontend(st, fid, fe);
}

/// Creating an environment adds it, leaves the one in force, and keeps all
/// else.
pub proof fn law_create_env(st: StateView, body: CreateEnvBody)
    requires
        settings::is_well_named(st.frontends),
        admin::env_created(st, body) is Ok,
    ensures
        ({
            let (n, eid) = admin::env_created(st, body)->Ok_0;
            let fid = text::trimmed(body.frontend@);
            let before = table::value_of(state::snapshot(st).frontends, fid);
            let after = table::value_of(n.frontends, fid);
            &&& is_orderly_change(st, n, fid)
            &&& table::has_key(n.frontends, fid)
            &&& !table::has_key(before.envs, eid)
            &&& table::has_key(after.envs, eid)
            &&& after.active_env == before.active_env
        }),
{
    let (n, eid) = admin::env_created(st, body)->Ok_0;
    let fid = text::trimmed(body.frontend@);
    let c = state::snapshot(st);
    let fe = table::value_of(c.frontends, fid);
    let from = text::wanted(text::opt_view(body.copy_from));
    let env = EnvView {
        label: if text::is_blank(body.label@) {
            eid
        } else {
            text::trimmed(body.label@)
        },
        rules: match from {
            Some(f) => table::value_of(fe.envs, f).rules,
            None => Seq::<RuleView>::empty(),
        },
    };
    let w = FrontendView { envs: table::with_entry(fe.envs, eid, env), ..fe };
    lemma_snapshot_frontend(st, fid);
    table::law_with_entry(fe.envs, eid, env);
    assert(table::has_key(w.envs, w.active_env));
    lemma_with_frontend(st, fid, w);
    lemma_checked(st, admin::with_frontend(c, fid, w), fid);
    let t = settings::trimmed_frontend((fid, w));
    settings::law_map_keeps_keys(w.envs, t.1.envs, eid);
}

/// Deleting an environment takes it out, leaves the one in force, and keeps
/// all else.
pub proof fn law_delete_env(st: StateView, body: DeleteEnvBody)
    requires
        settings::is_well_named(st.frontends),
        admin::env_deleted(st, body) is Ok,
    ensures
        ({
            let n = admin::env_deleted(st, body)->Ok_0;
            let fid = text::trimmed(body.frontend@);
            let eid = text::trimmed(body.id@);
            let before = table::value_of(state::snapshot(st).frontends, fid);
            let after = table::value_of(n.frontends, fid);
            &&& is_orderly_change(st, n, fid)
            &&& table::has_key(n.frontends, fid)
            &&& !table::has_key(after.envs, eid)
            &&& after.active_env == before.active_env
        }),
{
    let fid = text::trimmed(body.frontend@);
    let eid = text::trimmed(body.id@);
    let c = state::snapshot(st);
    let fe = table::value_of(c.frontends, fid);
    let w = FrontendView { envs: table::without_entry(fe.envs, eid), ..fe };
    lemma_snapshot_frontend(st, fid);
    table::law_without_entry(fe.envs, eid);
    assert(table::has_key(w.envs, w.active_env));
    lemma_with_frontend(st, fid, w);
}

/// Putting rules into the environment in force puts them there, with no slash
/// at the end of a target, and keeps all else; what is answered are the rules
/// as they then are.
pub proof fn law_put_rules(st: StateView, q: FrontendQuery, rules: Seq<RuleView>)
    requires
        settings::is_well_named(st.frontends),
        admin::rules_put(st, q, rules) is Ok,
    ensures
        ({
            let (n, answer) = admin::rules_put(st, q, rules)->Ok_0;
            let fid = answer.frontend;
            let before = table::value_of(state::snapshot(st).frontends, fid);
            let after = table::value_of(n.frontends, fid);
            &&& text::wanted(text::opt_view(q.frontend)) == Some(fid)
            &&& is_orderly_change(st, n, fid)
            &&& table::has_key(n.frontends, fid)
            &&& after.active_env == before.active_env
            &&& answer.active == after.active_env
            &&& answer.rules == admin::active_rules(after)
            &&& answer.rules == rules.map_values(|r: RuleView| config::trimmed_rule(r))
        }),
{
    let (n, answer) = admin::rules_put(st, q, rules)->Ok_0;
    let fid = text::wanted(text::opt_view(q.frontend))->0;
    let c = state::snapshot(st);
    let fe = table::value_of(c.frontends, fid);
    let env = EnvView { rules, ..table::value_of(fe.envs, fe.active_env) };
    let w = FrontendView { envs: table::with_entry(fe.envs, fe.active_env, env), ..fe };
    lemma_snapshot_frontend(st, fid);
    table::law_with_entry(fe.envs, fe.active_env, env);
    lemma_with_frontend(st, fid, w);
    lemma_checked(st, admin::with_frontend(c, fid, w), fid);
    let t = settings::trimmed_frontend((fid, w));
    lemma_same_place(w.envs, t.1.envs, w.active_env);
    let at = table::key_index(w.envs, w.active_env);
    assert(t.1.envs[at] == settings::trimmed_env(w.envs[at]));
    assert(table::value_of(t.1.envs, w.active_env).rules == rules.map_values(
        |r: RuleView| config::trimmed_rule(r),
    ));
}

// ---------------------------------------------------------------------------
// The state over time
// ---------------------------------------------------------------------------

/// The standard configuration can be run.
pub proof fn law_standard_config_runs()
    ensures
        is_running(config::standard_config().frontends),
{
    let fs = config::standard_config().frontends;
    assert(fs[0].1.envs[0].0 == fs[0].1.active_env);
}

/// What was loaded can be run.
pub proof fn law_loaded_runs(x: ConfigView, c: ConfigView)
    requires
        settings::is_well_named_config(x),
        config::loaded(x) == Ok::<ConfigView, Seq<char>>(c),
    ensures
        is_running(c.frontends),
{
    let n = config::normalized(x);
    settings::law_normalized_runnable(x);
    settings::law_validate_trims(n);
    settings::law_map_keeps_keys(n.frontends, c.frontends, Seq::<char>::empty());
    assert forall|i: int| 0 <= i < c.frontends.len() implies table::has_key(
        (#[trigger] c.frontends[i]).1.envs,
        c.frontends[i].1.active_env,
    ) && table::unique_keys(c.frontends[i].1.envs) by {
        let e = n.frontends[i];
        assert(table::has_key(e.1.envs, e.1.active_env));
        assert(table::unique_keys(e.1.envs));
        assert(c.frontends[i] == settings::trimmed_frontend(e));
        settings::law_map_keeps_keys(e.1.envs, c.frontends[i].1.envs, e.1.active_env);
    }
}

/// The proxy can be run at the start, and after every save and reload,
/// whatever comes of it.
pub proof fn law_state_runs(
    st: StateView,
    c: ConfigView,
    path: Seq<char>,
    outcome: SaveOutcome,
    source: ConfigSource,
)
    requires
        is_running(c.frontends),
        is_running(st.frontends),
        source matches ConfigSource::Parsed(x) ==> settings::is_well_named_config(x@),
    ensures
        is_running(state::initial_state(c, path).frontends),
        is_running(admin::after_save(st, c, outcome).frontends),
        is_running(admin::after_reload(st, source).frontends),
{
    if let ConfigSource::Parsed(x) = source {
        if let Ok(n) = config::loaded(x@) {
            law_loaded_runs(x@, n);
        }
    }
}

// ---------------------------------------------------------------------------
// One request after another
// ---------------------------------------------------------------------------

/// The rules that were put are the rules that are shown.
pub proof fn law_put_rules_are_shown(st: StateView, q: FrontendQuery, rules: Seq<RuleView>)
    requires
        settings::is_well_named(st.frontends),
        admin::rules_put(st, q, rules) is Ok,
    ensures
        ({
            let (n, _) = admin::rules_put(st, q, rules)->Ok_0;
            let shown = admin::rules_shown(admin::after_save(st, n, SaveOutcome::Written), q);
            &&& shown is Ok
            &&& shown->Ok_0.rules == rules.map_values(|r: RuleView| config::trimmed_rule(r))
        }),
{
    law_put_rules(st, q, rules);
}

/// Once the environment in force is switched, the requests of the frontend are
/// forwarded by the rules of the new one.
pub proof fn law_switch_takes_effect(
    st: StateView,
    body: ActiveBody,
    origin: Option<Seq<char>>,
    path: Seq<char>,
)
    requires
        settings::is_well_named(st.frontends),
        admin::env_activated(st, body) is Ok,
    ensures
        ({
            let (n, (fid, eid)) = admin::env_activated(st, body)->Ok_0;
            let now = admin::after_save(st, n, SaveOutcome::Written);
            state::resolved(now.frontends, origin, path) matches Ok(x) ==> x.0 == fid ==> {
                &&& x.1 == eid
                &&& state::best_rule(
                    table::value_of(
                        table::value_of(state::snapshot(st).frontends, fid).envs,
                        eid,
                    ).rules,
                    path,
                ) == Some(x.2)
            }
        }),
{
    let (n, (fid, eid)) = admin::env_activated(st, body)->Ok_0;
    let fs = n.frontends;
    law_set_active(st, body);
    if let Ok(x) = state::resolved(fs, origin, path) {
        if x.0 == fid {
            if let Some(o) = origin {
                routing::law_first_serving(fs, text::tidy(o));
            }
            let i = state::frontend_for(fs, origin)->Ok_0;
            table::law_key_index_unique(fs, i);
            assert(table::value_of(fs, fid) == fs[i].1);
        }
    }
}

/// The origins that a frontend was given may read answers as soon as the
/// change is saved.
pub proof fn law_new_origins_allowed(
    st: StateView,
    body: UpdateFrontendBody,
    origins: Vec<String>,
    j: int,
)
    requires
        settings::is_well_named(st.frontends),
        admin::frontend_updated(st, body) is Ok,
        body.origins == Some(origins),
        0 <= j < origins@.len(),
        !text::is_blank(text::tidy(origins@[j]@)),
    ensures
        ({
            let n = admin::frontend_updated(st, body)->Ok_0;
            cors::origin_allowed(
                admin::after_save(st, n, SaveOutcome::Written).cors_origins,
                Some(text::trimmed(text::tidy(origins@[j]@))),
            )
        }),
{
    let n = admin::frontend_updated(st, body)->Ok_0;
    let id = text::trimmed(body.id@);
    let given = text::views(origins@);
    law_update_frontend(st, body);
    let fe = table::value_of(n.frontends, id);
    let at = table::key_index(n.frontends, id);
    assert(0 <= at < n.frontends.len() && n.frontends[at].0 == id);
    let tidied = given.map_values(|s: Seq<char>| text::tidy(s));
    let pred = |s: Seq<char>| s.len() > 0;
    assert(fe.origins == tidied.filter(pred));
    let o = text::tidy(given[j]);
    assert(tidied[j] == o);
    assert(o.len() > 0) by {
        if o.len() == 0 {
            assert(text::trimmed(o) == o);
        }
    }
    tidied.lemma_filter_contains(pred, j);
    let k = choose|k: int| 0 <= k < fe.origins.len() && fe.origins[k] == o;
    settings::law_origins_allowed_at_once(st, n);
    assert(n.frontends[at].1.origins[k] == o);
}

/// An origin that was taken out of a frontend is no longer allowed once the
/// change is saved, where neither the CORS section nor another frontend asks
/// for it.
pub proof fn law_removed_origin_not_allowed(
    st: StateView,
    body: UpdateFrontendBody,
    origins: Vec<String>,
    t: Seq<char>,
)
    requires
        settings::is_well_named(st.frontends),
        admin::frontend_updated(st, body) is Ok,
        body.origins == Some(origins),
        t.len() > 0,
        forall|j: int|
            0 <= j < origins@.len() ==> text::trimmed(text::tidy(#[trigger] origins@[j]@)) != t,
        forall|k: int|
            0 <= k < st.cors_section.len() ==> text::trimmed(#[trigger] st.cors_section[k]) != t,
        forall|i: int, j: int|
            0 <= i < state::snapshot(st).frontends.len() && state::snapshot(st).frontends[i].0
                != text::trimmed(body.id@) && 0 <= j < state::snapshot(
                st,
            ).frontends[i].1.origins.len() ==> text::trimmed(
                #[trigger] state::snapshot(st).frontends[i].1.origins[j],
            ) != t,
    ensures
        ({
            let n = admin::frontend_updated(st, body)->Ok_0;
            !admin::after_save(st, n, SaveOutcome::Written).cors_origins.contains(t)
        }),
{
    let n = admin::frontend_updated(st, body)->Ok_0;
    let id = text::trimmed(body.id@);
    let c = state::snapshot(st).frontends;
    let fs = n.frontends;
    let given = text::views(origins@);
    let tidied = given.map_values(|s: Seq<char>| text::tidy(s));
    let pred = |s: Seq<char>| s.len() > 0;
    law_snapshot_runs(st);
    law_update_frontend(st, body);
    assert forall|i: int, j: int| 0 <= i < fs.len() && 0 <= j
        < fs[i].1.origins.len() implies text::trimmed(#[trigger] fs[i].1.origins[j]) != t by {
        let k = fs[i].0;
        let o = fs[i].1.origins[j];
        table::law_key_index_unique(fs, i);
        if k == id {
            assert(fs[i].1.origins == tidied.filter(pred));
            assert(tidied.filter(pred).contains(o));
            tidied.lemma_filter_contains_rev(pred, o);
            let m = choose|m: int| 0 <= m < tidied.len() && tidied[m] == o;
            assert(text::tidy(origins@[m]@) == o);
        } else {
            assert(table::has_key(fs, k) == table::has_key(c, k));
            let at = table::key_index(c, k);
            assert(0 <= at < c.len() && c[at].0 == k);
            assert(settings::is_frontend_like(
                (k, table::value_of(fs, k)),
                (k, table::value_of(c, k)),
            ));
            assert(c[at].1.origins[j] == o);
        }
    }
    let now = admin::after_save(st, n, SaveOutcome::Written);
    settings::law_origins_in_step(st, n, st.config_path);
    assert(settings::is_in_step(now));
    assert(!settings::asks_for_origin(now.cors_section, now.frontends, t));
}

/// A frontend that was created can be deleted again, and then all is as it
/// was, up to slashes at the ends of targets; where a snapshot is in normal
/// form, that is, where no origin in it has white space at its end.
pub proof fn law_create_then_delete_frontend(
    st: StateView,
    body: CreateFrontendBody,
    undo: DeleteFrontendBody,
)
    requires
        settings::is_well_named(st.frontends),
        admin::frontend_created(st, body) is Ok,
        text::trimmed(undo.id@) == text::trimmed(body.id@),
        config::normalized(state::snapshot(st)) == state::snapshot(st),
    ensures
        ({
            let (n, _) = admin::frontend_created(st, body)->Ok_0;
            let now = admin::after_save(st, n, SaveOutcome::Written);
            &&& admin::frontend_deleted(now, undo) is Ok
            &&& admin::frontend_deleted(now, undo)->Ok_0.frontends == settings::trimmed_config(
                state::snapshot(st),
            ).frontends
        }),
{
    let (n, id) = admin::frontend_created(st, body)->Ok_0;
    let c = state::snapshot(st);
    let fe = admin::described_frontend(c, id, body);
    let w = admin::with_frontend(c, id, fe);
    let now = admin::after_save(st, n, SaveOutcome::Written);
    let again = state::snapshot(now).frontends;
    let trimmed = settings::trimmed_config(c).frontends;
    law_create_frontend(st, body);
    law_snapshot_runs(st);
    settings::law_validate_trims(w);
    assert(w.frontends == c.frontends.push((id, fe)));
    let last = settings::trimmed_frontend((id, fe));
    assert(n.frontends =~= trimmed.push(last));
    assert(again =~= trimmed.push(config::normal_frontend(last))) by {
        assert forall|i: int| 0 <= i < trimmed.len() implies config::normal_frontend(
            #[trigger] trimmed[i],
        ) == trimmed[i] by {
            assert(config::normalized(c).frontends[i] == config::normal_frontend(
                c.frontends[i],
            ));
            settings::law_normal_of_trimmed(c.frontends[i]);
        }
    }
    settings::law_map_keeps_keys(n.frontends, again, id);
    table::law_key_index_unique(again, trimmed.len() as int);
    assert(table::without_entry(again, id) =~= trimmed);
}

/// An environment that was created can be deleted again, and then all is as it
/// was, up to slashes at the ends of targets; where a snapshot is in normal
/// form, that is, where no origin in it has white space at its end.
pub proof fn law_create_then_delete_env(
    st: StateView,
    body: CreateEnvBody,
    undo: DeleteEnvBody,
)
    requires
        settings::is_well_named(st.frontends),
        admin::env_created(st, body) is Ok,
        text::trimmed(undo.frontend@) == text::trimmed(body.frontend@),
        text::trimmed(undo.id@) == text::trimmed(body.id@),
        config::normalized(state::snapshot(st)) == state::snapshot(st),
    ensures
        ({
            let (n, _) = admin::env_created(st, body)->Ok_0;
            let now = admin::after_save(st, n, SaveOutcome::Written);
            &&& admin::env_deleted(now, undo) is Ok
            &&& admin::env_deleted(now, undo)->Ok_0.frontends == settings::trimmed_config(
                state::snapshot(st),
            ).frontends
        }),
{
    let (n, eid) = admin::env_created(st, body)->Ok_0;
    let fid = text::trimmed(body.frontend@);
    let c = state::snapshot(st);
    let fe = table::value_of(c.frontends, fid);
    let from = text::wanted(text::opt_view(body.copy_from));
    let env = EnvView {
        label: if text::is_blank(body.label@) {
            eid
        } else {
            text::trimmed(body.label@)
        },
        rules: match from {
            Some(f) => table::value_of(fe.envs, f).rules,
            None => Seq::<RuleView>::empty(),
        },
    };
    let w = FrontendView { envs: table::with_entry(fe.envs, eid, env), ..fe };
    let wide = admin::with_frontend(c, fid, w);
    let now = admin::after_save(st, n, SaveOutcome::Written);
    let again = state::snapshot(now).frontends;
    let trimmed = settings::trimmed_config(c).frontends;
    let at = table::key_index(c.frontends, fid);
    law_snapshot_runs(st);
    law_create_env(st, body);
    lemma_snapshot_frontend(st, fid);
    settings::law_validate_trims(wide);
    assert(0 <= at < c.frontends.len() && c.frontends[at] == (fid, fe));
    assert(w.envs == fe.envs.push((eid, env)));
    assert(wide.frontends == c.frontends.update(at, (fid, w)));
    assert forall|i: int| 0 <= i < trimmed.len() implies config::normal_frontend(
        #[trigger] trimmed[i],
    ) == trimmed[i] by {
        assert(config::normalized(c).frontends[i] == config::normal_frontend(c.frontends[i]));
        settings::law_normal_of_trimmed(c.frontends[i]);
    }
    let kept = trimmed[at];
    assert(kept == settings::trimmed_frontend((fid, fe)));
    let grown = settings::trimmed_frontend((fid, w));
    let new_env = config::normal_env(settings::trimmed_env((eid, env)));
    assert(grown.1.envs =~= kept.1.envs.push(settings::trimmed_env((eid, env))));
    assert(n.frontends =~= trimmed.update(at, grown));
    let shown = config::normal_frontend(grown);
    assert(again =~= trimmed.update(at, shown));
    assert(kept.1.envs.len() > 0);
    assert(shown.1.envs =~= kept.1.envs.push(new_env)) by {
        assert forall|j: int| 0 <= j < kept.1.envs.len() implies config::normal_env(
            #[trigger] kept.1.envs[j],
        ) == kept.1.envs[j] by {
            assert(config::normal_frontend(kept).1.envs[j] == config::normal_env(
                kept.1.envs[j],
            ));
        }
    }
    settings::law_map_keeps_keys(fe.envs, kept.1.envs, eid);
    settings::law_map_keeps_keys(fe.envs, kept.1.envs, fe.active_env);
    assert(grown.1.envs[0] == kept.1.envs[0]);
    assert(table::has_key(grown.1.envs, fe.active_env)) by {
        let k = table::key_index(kept.1.envs, fe.active_env);
        assert(grown.1.envs[k].0 == fe.active_env);
    }
    assert(shown.1.active_env == fe.active_env);
    settings::law_map_keeps_keys(trimmed, again, fid);
    settings::law_map_keeps_keys(c.frontends, trimmed, fid);
    table::law_key_index_unique(again, at);
    assert(table::value_of(again, fid) == shown.1);
    assert(table::unique_keys(shown.1.envs)) by {
        assert forall|i: int, j: int| 0 <= i < j < shown.1.envs.len() implies (
        #[trigger] shown.1.envs[i]).0 != (#[trigger] shown.1.envs[j]).0 by {
            if j == kept.1.envs.len() {
                assert(kept.1.envs[i].0 != eid);
            } else {
                assert(kept.1.envs[i].0 != kept.1.envs[j].0);
            }
        }
    }
    table::law_key_index_unique(shown.1.envs, kept.1.envs.len() as int);
    assert(table::without_entry(shown.1.envs, eid) =~= kept.1.envs);
    let back = FrontendView { envs: kept.1.envs, ..shown.1 };
    assert(back =~= kept.1);
    assert(again.update(at, (fid, back)) =~= trimmed);
}

} // verus!
