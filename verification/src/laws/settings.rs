//! Normal form, the check, the allowed origins, and what saving and loading keep.

use crate::admin;
use crate::config;
use crate::config::{Config, ConfigSource, ConfigView, EnvView, FrontendView, RuleView, SaveOutcome};
use crate::cors;
use crate::laws::strings;
use crate::state;
use crate::state::StateView;
use crate::table;
use crate::text;
use vstd::prelude::*;

verus! {

// ---------------------------------------------------------------------------
// Normal form
// ---------------------------------------------------------------------------

/// Every frontend can be run: there is one, and each has an environment in
/// force.
pub open spec fn is_runnable(fs: Seq<(Seq<char>, FrontendView)>) -> bool {
    &&& fs.len() > 0
    &&& forall|i: int|
        0 <= i < fs.len() ==> table::has_key((#[trigger] fs[i]).1.envs, fs[i].1.active_env)
}

/// Names are unique throughout, as they are in every table.
pub open spec fn is_well_named(fs: Seq<(Seq<char>, FrontendView)>) -> bool {
    &&& table::unique_keys(fs)
    &&& forall|i: int| 0 <= i < fs.len() ==> table::unique_keys((#[trigger] fs[i]).1.envs)
}

/// Names are unique throughout a configuration.
pub open spec fn is_well_named_config(c: ConfigView) -> bool {
    is_well_named(c.frontends) && table::unique_keys(c.envs)
}

/// A name is kept by a change of values.
pub proof fn law_map_keeps_keys<V, W>(
    m: Seq<(Seq<char>, V)>,
    n: Seq<(Seq<char>, W)>,
    key: Seq<char>,
)
    requires
        m.len() == n.len(),
        forall|i: int| 0 <= i < m.len() ==> (#[trigger] n[i]).0 == m[i].0,
    ensures
        table::has_key(n, key) == table::has_key(m, key),
        table::unique_keys(m) ==> table::unique_keys(n),
{
    if table::has_key(m, key) {
        let i = table::key_index(m, key);
        assert(n[i].0 == key);
    }
    if table::has_key(n, key) {
        let i = table::key_index(n, key);
        assert(m[i].0 == key);
    }
    if table::unique_keys(m) {
        assert forall|i: int, j: int| 0 <= i < j < n.len() implies (#[trigger] n[i]).0 != (
        #[trigger] n[j]).0 by {
            assert(m[i].0 != m[j].0);
        }
    }
}

/// One frontend in normal form has an environment in force, and its labels
/// are blank only where the ids are.
pub proof fn law_normal_frontend(e: (Seq<char>, FrontendView))
    ensures
        ({
            let n = config::normal_frontend(e);
            &&& n.0 == e.0
            &&& table::has_key(n.1.envs, n.1.active_env)
            &&& text::is_blank(n.1.label) ==> text::is_blank(n.0)
            &&& forall|i: int|
                0 <= i < n.1.envs.len() && text::is_blank((#[trigger] n.1.envs[i]).1.label)
                    ==> text::is_blank(n.1.envs[i].0)
            &&& table::unique_keys(e.1.envs) ==> table::unique_keys(n.1.envs)
            &&& n.1.rewrite_cookies == e.1.rewrite_cookies
        }),
{
    let n = config::normal_frontend(e);
    let envs = config::some_envs(e.1.envs);
    assert(envs[0].0 == envs[0].0);
    assert(table::has_key(envs, envs[0].0));
    assert(table::has_key(envs, n.1.active_env));
    law_map_keeps_keys(envs, n.1.envs, n.1.active_env);
    assert forall|i: int|
        0 <= i < n.1.envs.len() && text::is_blank(
            (#[trigger] n.1.envs[i]).1.label,
        ) implies text::is_blank(n.1.envs[i].0) by {
        assert(n.1.envs[i] == config::normal_env(envs[i]));
    }
}

/// A configuration in normal form can be run, and names stay unique.
pub proof fn law_normalized_runnable(c: ConfigView)
    ensures
        is_runnable(config::normalized(c).frontends),
        is_well_named_config(c) ==> is_well_named_config(config::normalized(c)),
{
    let m = if c.frontends.len() == 0 {
        config::migrated(c)
    } else {
        c
    };
    let n = config::normalized(c).frontends;
    assert forall|i: int| 0 <= i < n.len() implies table::has_key(
        (#[trigger] n[i]).1.envs,
        n[i].1.active_env,
    ) && (table::unique_keys(m.frontends[i].1.envs) ==> table::unique_keys(n[i].1.envs)) by {
        law_normal_frontend(m.frontends[i]);
        assert(n[i] == config::normal_frontend(m.frontends[i]));
    }
    if is_well_named_config(c) {
        law_map_keeps_keys(m.frontends, n, "default"@);
        assert forall|i: int| 0 <= i < n.len() implies table::unique_keys(
            (#[trigger] n[i]).1.envs,
        ) by {
            if c.frontends.len() == 0 {
                assert(table::unique_keys(m.frontends[0].1.envs));
            } else {
                assert(table::unique_keys(m.frontends[i].1.envs));
            }
        }
    }
}

/// Tidying an origin a second time changes nothing. It does where white space
/// stands before the slashes that the first tidying takes off.
pub open spec fn is_settled_origin(o: Seq<char>) -> bool {
    text::tidy(text::tidy(o)) == text::tidy(o)
}

pub open spec fn has_settled_origins(fe: FrontendView) -> bool {
    forall|j: int| 0 <= j < fe.origins.len() ==> is_settled_origin(#[trigger] fe.origins[j])
}

/// Normal form is reached at once: bringing a frontend into it again changes
/// nothing, where its origins are settled.
pub proof fn law_normal_frontend_idempotent(e: (Seq<char>, FrontendView))
    requires
        has_settled_origins(e.1),
    ensures
        config::normal_frontend(config::normal_frontend(e)) == config::normal_frontend(e),
{
    let n = config::normal_frontend(e);
    let nn = config::normal_frontend(n);
    let envs = config::some_envs(e.1.envs);
    law_normal_frontend(e);
    assert(n.1.envs.len() > 0);
    assert(config::some_envs(n.1.envs) == n.1.envs);
    assert(nn.1.envs =~= n.1.envs) by {
        assert forall|i: int| 0 <= i < n.1.envs.len() implies config::normal_env(
            #[trigger] n.1.envs[i],
        ) == n.1.envs[i] by {
            assert(n.1.envs[i] == config::normal_env(envs[i]));
        }
    }
    assert(nn.1.origins =~= n.1.origins) by {
        assert forall|j: int| 0 <= j < n.1.origins.len() implies text::tidy(
            #[trigger] n.1.origins[j],
        ) == n.1.origins[j] by {
            assert(is_settled_origin(e.1.origins[j]));
        }
    }
    assert(n.1.envs[0].0 == envs[0].0);
    law_map_keeps_keys(envs, n.1.envs, n.1.active_env);
}

/// The frontends that bringing into normal form starts from.
pub open spec fn starting_frontends(c: ConfigView) -> Seq<(Seq<char>, FrontendView)> {
    if c.frontends.len() == 0 {
        config::migrated(c).frontends
    } else {
        c.frontends
    }
}

/// Normal form is reached at once, where the origins are settled.
pub proof fn law_normalize_idempotent(c: ConfigView)
    requires
        forall|i: int|
            0 <= i < starting_frontends(c).len() ==> has_settled_origins(
                (#[trigger] starting_frontends(c)[i]).1,
            ),
    ensures
        config::normalized(config::normalized(c)) == config::normalized(c),
{
    let n = config::normalized(c);
    let fs = starting_frontends(c);
    assert(n.frontends.len() == fs.len() && fs.len() > 0);
    assert(config::normalized(n).frontends =~= n.frontends) by {
        assert forall|i: int| 0 <= i < n.frontends.len() implies config::normal_frontend(
            #[trigger] n.frontends[i],
        ) == n.frontends[i] by {
            assert(has_settled_origins(fs[i].1));
            law_normal_frontend_idempotent(fs[i]);
            assert(n.frontends[i] == config::normal_frontend(fs[i]));
        }
    }
}

// ---------------------------------------------------------------------------
// Checking
// ---------------------------------------------------------------------------

/// A rule that can forward: named, with a prefix that begins with a slash and
/// with a target.
pub open spec fn is_sound_rule(r: RuleView) -> bool {
    &&& !text::is_blank(r.name)
    &&& r.match_prefix.len() > 0 && r.match_prefix[0] == '/'
    &&& !text::is_blank(r.target)
}

pub open spec fn is_sound_env(e: EnvView) -> bool {
    forall|k: int| 0 <= k < e.rules.len() ==> is_sound_rule(#[trigger] e.rules[k])
}

pub open spec fn is_sound_frontend(fe: FrontendView) -> bool {
    &&& table::has_key(fe.envs, fe.active_env)
    &&& forall|j: int| 0 <= j < fe.envs.len() ==> is_sound_env((#[trigger] fe.envs[j]).1)
}

/// A configuration that passes the check.
pub open spec fn is_sound(c: ConfigView) -> bool {
    &&& !text::is_blank(c.listen)
    &&& c.frontends.len() > 0
    &&& forall|i: int|
        0 <= i < c.frontends.len() ==> is_sound_frontend((#[trigger] c.frontends[i]).1)
}

/// The environment with no slash at the end of a target.
pub open spec fn trimmed_env(e: (Seq<char>, EnvView)) -> (Seq<char>, EnvView) {
    (
        e.0,
        EnvView { rules: e.1.rules.map_values(|r: RuleView| config::trimmed_rule(r)), ..e.1 },
    )
}

/// The frontend with no slash at the end of a target.
pub open spec fn trimmed_frontend(e: (Seq<char>, FrontendView)) -> (Seq<char>, FrontendView) {
    (
        e.0,
        FrontendView {
            envs: e.1.envs.map_values(|x: (Seq<char>, EnvView)| trimmed_env(x)),
            ..e.1
        },
    )
}

/// The configuration with no slash at the end of a target.
pub open spec fn trimmed_config(c: ConfigView) -> ConfigView {
    ConfigView {
        frontends: c.frontends.map_values(
            |e: (Seq<char>, FrontendView)| trimmed_frontend(e),
        ),
        ..c
    }
}

/// Rules pass where all are sound; each is then trimmed. Each is at most
/// trimmed in any case.
proof fn lemma_rules_pass(fid: Seq<char>, eid: Seq<char>, rules: Seq<RuleView>)
    ensures
        ({
            let p = config::rules_pass(fid, eid, rules);
            &&& p.1 is None <==> forall|k: int|
                0 <= k < rules.len() ==> is_sound_rule(#[trigger] rules[k])
            &&& p.0.len() == rules.len()
            &&& p.1 is None ==> p.0 == rules.map_values(|r: RuleView| config::trimmed_rule(r))
            &&& forall|k: int|
                0 <= k < rules.len() ==> (#[trigger] p.0[k]) == rules[k] || p.0[k]
                    == config::trimmed_rule(rules[k])
        }),
    decreases rules.len(),
{
    let p = config::rules_pass(fid, eid, rules);
    if rules.len() > 0 {
        let front = rules.drop_last();
        let b = config::rules_pass(fid, eid, front);
        lemma_rules_pass(fid, eid, front);
        assert(forall|k: int| 0 <= k < front.len() ==> front[k] == rules[k]);
        assert(rules.last() == rules[rules.len() - 1]);
        if forall|k: int| 0 <= k < rules.len() ==> is_sound_rule(#[trigger] rules[k]) {
            assert forall|k: int| 0 <= k < front.len() implies is_sound_rule(
                #[trigger] front[k],
            ) by {
                assert(is_sound_rule(rules[k]));
            }
            assert(is_sound_rule(rules[rules.len() - 1]));
        }
        if p.1 is None {
            assert forall|k: int| 0 <= k < rules.len() implies is_sound_rule(
                #[trigger] rules[k],
            ) by {
                if k < front.len() {
                    assert(is_sound_rule(front[k]));
                }
            }
            assert(p.0 =~= rules.map_values(|r: RuleView| config::trimmed_rule(r)));
        }
        assert forall|k: int| 0 <= k < rules.len() implies (#[trigger] p.0[k]) == rules[k]
            || p.0[k] == config::trimmed_rule(rules[k]) by {
            if k < front.len() {
                assert(p.0[k] == b.0[k]);
            }
        }
    } else {
        assert(p.0 =~= rules.map_values(|r: RuleView| config::trimmed_rule(r)));
    }
}

/// An environment that differs at most in the targets of its rules.
pub open spec fn is_env_like(a: (Seq<char>, EnvView), b: (Seq<char>, EnvView)) -> bool {
    &&& a.0 == b.0
    &&& a.1.label == b.1.label
    &&& a.1.rules.len() == b.1.rules.len()
    &&& forall|k: int|
        0 <= k < a.1.rules.len() ==> (#[trigger] a.1.rules[k]) == b.1.rules[k] || a.1.rules[k]
            == config::trimmed_rule(b.1.rules[k])
}

proof fn lemma_envs_pass(fid: Seq<char>, envs: Seq<(Seq<char>, EnvView)>)
    ensures
        ({
            let p = config::envs_pass(fid, envs);
            &&& p.1 is None <==> forall|k: int|
                0 <= k < envs.len() ==> is_sound_env((#[trigger] envs[k]).1)
            &&& p.0.len() == envs.len()
            &&& p.1 is None ==> p.0 == envs.map_values(
                |x: (Seq<char>, EnvView)| trimmed_env(x),
            )
            &&& forall|k: int| 0 <= k < envs.len() ==> is_env_like(#[trigger] p.0[k], envs[k])
        }),
    decreases envs.len(),
{
    let p = config::envs_pass(fid, envs);
    if envs.len() > 0 {
        let front = envs.drop_last();
        let last = envs.last();
        let b = config::envs_pass(fid, front);
        lemma_envs_pass(fid, front);
        lemma_rules_pass(fid, last.0, last.1.rules);
        assert(forall|k: int| 0 <= k < front.len() ==> front[k] == envs[k]);
        assert(last == envs[envs.len() - 1]);
        if forall|k: int| 0 <= k < envs.len() ==> is_sound_env((#[trigger] envs[k]).1) {
            assert forall|k: int| 0 <= k < front.len() implies is_sound_env(
                (#[trigger] front[k]).1,
            ) by {
                assert(is_sound_env(envs[k].1));
            }
            assert(is_sound_env(envs[envs.len() - 1].1));
        }
        if p.1 is None {
            assert forall|k: int| 0 <= k < envs.len() implies is_sound_env(
                (#[trigger] envs[k]).1,
            ) by {
                if k < front.len() {
                    assert(is_sound_env(front[k].1));
                }
            }
            assert(p.0 =~= envs.map_values(|x: (Seq<char>, EnvView)| trimmed_env(x)));
        }
        assert forall|k: int| 0 <= k < envs.len() implies is_env_like(
            #[trigger] p.0[k],
            envs[k],
        ) by {
            if k < front.len() {
                assert(p.0[k] == b.0[k]);
            }
        }
    } else {
        assert(p.0 =~= envs.map_values(|x: (Seq<char>, EnvView)| trimmed_env(x)));
    }
}

/// A frontend that differs at most in the targets of its rules.
pub open spec fn is_frontend_like(
    a: (Seq<char>, FrontendView),
    b: (Seq<char>, FrontendView),
) -> bool {
    &&& a.0 == b.0
    &&& a.1 == (FrontendView { envs: a.1.envs, ..b.1 })
    &&& a.1.envs.len() == b.1.envs.len()
    &&& forall|j: int|
        0 <= j < a.1.envs.len() ==> is_env_like(#[trigger] a.1.envs[j], b.1.envs[j])
}

proof fn lemma_frontend_pass(e: (Seq<char>, FrontendView))
    ensures
        config::frontend_pass(e).1 is None <==> is_sound_frontend(e.1),
        config::frontend_pass(e).1 is None ==> config::frontend_pass(e).0 == trimmed_frontend(e),
        is_frontend_like(config::frontend_pass(e).0, e),
{
    lemma_envs_pass(e.0, e.1.envs);
    if e.1.envs.len() == 0 {
        assert(!table::has_key(e.1.envs, e.1.active_env));
    }
    let p = config::frontend_pass(e).0;
    assert forall|j: int| 0 <= j < p.1.envs.len() implies is_env_like(
        #[trigger] p.1.envs[j],
        e.1.envs[j],
    ) by {}
}

proof fn lemma_frontends_pass(fs: Seq<(Seq<char>, FrontendView)>)
    ensures
        ({
            let p = config::frontends_pass(fs);
            &&& p.1 is None <==> forall|k: int|
                0 <= k < fs.len() ==> is_sound_frontend((#[trigger] fs[k]).1)
            &&& p.0.len() == fs.len()
            &&& p.1 is None ==> p.0 == fs.map_values(
                |e: (Seq<char>, FrontendView)| trimmed_frontend(e),
            )
            &&& forall|k: int| 0 <= k < fs.len() ==> is_frontend_like(#[trigger] p.0[k], fs[k])
        }),
    decreases fs.len(),
{
    let p = config::frontends_pass(fs);
    if fs.len() > 0 {
        let front = fs.drop_last();
        let last = fs.last();
        let b = config::frontends_pass(front);
        lemma_frontends_pass(front);
        lemma_frontend_pass(last);
        assert(forall|k: int| 0 <= k < front.len() ==> front[k] == fs[k]);
        assert(last == fs[fs.len() - 1]);
        if forall|k: int| 0 <= k < fs.len() ==> is_sound_frontend((#[trigger] fs[k]).1) {
            assert forall|k: int| 0 <= k < front.len() implies is_sound_frontend(
                (#[trigger] front[k]).1,
            ) by {
                assert(is_sound_frontend(fs[k].1));
            }
            assert(is_sound_frontend(fs[fs.len() - 1].1));
        }
        if p.1 is None {
            assert forall|k: int| 0 <= k < fs.len() implies is_sound_frontend(
                (#[trigger] fs[k]).1,
            ) by {
                if k < front.len() {
                    assert(is_sound_frontend(front[k].1));
                }
            }
            assert(p.0 =~= fs.map_values(|e: (Seq<char>, FrontendView)| trimmed_frontend(e)));
        }
        assert forall|k: int| 0 <= k < fs.len() implies is_frontend_like(
            #[trigger] p.0[k],
            fs[k],
        ) by {
            if k < front.len() {
                assert(p.0[k] == b.0[k]);
            }
        }
    } else {
        assert(p.0 =~= fs.map_values(|e: (Seq<char>, FrontendView)| trimmed_frontend(e)));
    }
}

/// The check accepts the sound configurations and no others.
pub proof fn law_validate_accepts(c: ConfigView)
    ensures
        config::validated(c).1 is None <==> is_sound(c),
{
    lemma_frontends_pass(c.frontends);
}

/// A configuration that passes the check comes out with every target trimmed,
/// and otherwise as it was.
pub proof fn law_validate_trims(c: ConfigView)
    requires
        config::validated(c).1 is None,
    ensures
        config::validated(c).0 == trimmed_config(c),
{
    lemma_frontends_pass(c.frontends);
}

/// Whatever comes of it, the check changes at most the targets of rules.
pub proof fn law_validate_changes_targets_only(c: ConfigView)
    ensures
        ({
            let v = config::validated(c).0;
            &&& v == (ConfigView { frontends: v.frontends, ..c })
            &&& v.frontends.len() == c.frontends.len()
            &&& forall|i: int|
                0 <= i < c.frontends.len() ==> is_frontend_like(
                    #[trigger] v.frontends[i],
                    c.frontends[i],
                )
        }),
{
    lemma_frontends_pass(c.frontends);
    let v = config::validated(c).0;
    assert forall|i: int| 0 <= i < c.frontends.len() implies is_frontend_like(
        #[trigger] v.frontends[i],
        c.frontends[i],
    ) by {}
}

/// A rule whose target holds more than slashes and white space.
pub open spec fn has_real_target(r: RuleView) -> bool {
    !text::is_blank(text::without_trailing(r.target, '/'))
}

pub open spec fn has_real_targets(fe: FrontendView) -> bool {
    forall|j: int, k: int|
        0 <= j < fe.envs.len() && 0 <= k < fe.envs[j].1.rules.len() ==> has_real_target(
            #[trigger] fe.envs[j].1.rules[k],
        )
}

/// Trimming a frontend twice is trimming it once.
proof fn lemma_trimmed_frontend_twice(e: (Seq<char>, FrontendView))
    ensures
        trimmed_frontend(trimmed_frontend(e)) == trimmed_frontend(e),
{
    let t = trimmed_frontend(e);
    let tt = trimmed_frontend(t);
    assert forall|j: int| 0 <= j < t.1.envs.len() implies tt.1.envs[j] == t.1.envs[j] by {
        let x = e.1.envs[j];
        assert(t.1.envs[j] == trimmed_env(x));
        assert(tt.1.envs[j] == trimmed_env(trimmed_env(x)));
        let r1 = trimmed_env(x).1.rules;
        let r2 = trimmed_env(trimmed_env(x)).1.rules;
        assert forall|k: int| 0 <= k < r1.len() implies r2[k] == r1[k] by {
            strings::law_without_trailing(x.1.rules[k].target, '/');
            assert(r1[k] == config::trimmed_rule(x.1.rules[k]));
            assert(r2[k] == config::trimmed_rule(r1[k]));
        }
        assert(r2 =~= r1);
    }
    assert(tt.1.envs =~= t.1.envs);
}

/// What passed the check passes it again, unchanged, where every target holds
/// more than slashes and white space. A target of slashes alone passes once,
/// and is then empty.
pub proof fn law_validate_stable(c: ConfigView)
    requires
        config::validated(c).1 is None,
        forall|i: int|
            0 <= i < c.frontends.len() ==> has_real_targets((#[trigger] c.frontends[i]).1),
    ensures
        config::validated(config::validated(c).0) == (
            config::validated(c).0,
            None::<Seq<char>>,
        ),
{
    let v = config::validated(c).0;
    law_validate_accepts(c);
    law_validate_trims(c);
    assert forall|i: int| 0 <= i < v.frontends.len() implies is_sound_frontend(
        (#[trigger] v.frontends[i]).1,
    ) by {
        let e = c.frontends[i];
        assert(is_sound_frontend(e.1));
        assert(has_real_targets(e.1));
        let t = trimmed_frontend(e);
        assert(v.frontends[i] == t);
        law_map_keeps_keys(e.1.envs, t.1.envs, e.1.active_env);
        assert forall|j: int| 0 <= j < t.1.envs.len() implies is_sound_env(
            (#[trigger] t.1.envs[j]).1,
        ) by {
            assert(is_sound_env(e.1.envs[j].1));
            assert(t.1.envs[j] == trimmed_env(e.1.envs[j]));
            assert forall|k: int| 0 <= k < t.1.envs[j].1.rules.len() implies is_sound_rule(
                #[trigger] t.1.envs[j].1.rules[k],
            ) by {
                assert(is_sound_rule(e.1.envs[j].1.rules[k]));
                assert(has_real_target(e.1.envs[j].1.rules[k]));
            }
        }
    }
    assert(is_sound(v));
    law_validate_accepts(v);
    law_validate_trims(v);
    assert(trimmed_config(v).frontends =~= v.frontends) by {
        assert forall|i: int| 0 <= i < v.frontends.len() implies trimmed_frontend(
            #[trigger] v.frontends[i],
        ) == v.frontends[i] by {
            lemma_trimmed_frontend_twice(c.frontends[i]);
            assert(v.frontends[i] == trimmed_frontend(c.frontends[i]));
        }
    }
}

// ---------------------------------------------------------------------------
// Origins
// ---------------------------------------------------------------------------

/// Gathered origins are trimmed, not blank, and each stands once; one is
/// gathered exactly where it occurs, trimmed, in the list.
pub proof fn law_gathered(list: Seq<Seq<char>>)
    ensures
        config::gathered(list).no_duplicates(),
        forall|t: Seq<char>| #[trigger]
            config::gathered(list).contains(t) <==> t.len() > 0 && exists|i: int|
                0 <= i < list.len() && text::trimmed(#[trigger] list[i]) == t,
        forall|j: int|
            0 <= j < config::gathered(list).len() ==> text::trimmed(
                #[trigger] config::gathered(list)[j],
            ) == config::gathered(list)[j],
    decreases list.len(),
{
    let g = config::gathered(list);
    if list.len() > 0 {
        let front = list.drop_last();
        let before = config::gathered(front);
        let last = text::trimmed(list.last());
        law_gathered(front);
        strings::law_trimmed(list.last());
        assert forall|t: Seq<char>| #[trigger] g.contains(t) <==> t.len() > 0 && exists|i: int|
            0 <= i < list.len() && text::trimmed(#[trigger] list[i]) == t by {
            if g.contains(t) {
                let j = choose|j: int| 0 <= j < g.len() && g[j] == t;
                if j < before.len() {
                    assert(before[j] == t);
                    assert(before.contains(t));
                    let i = choose|i: int|
                        0 <= i < front.len() && text::trimmed(#[trigger] front[i]) == t;
                    assert(text::trimmed(list[i]) == t);
                } else {
                    assert(text::trimmed(list[list.len() - 1]) == t);
                }
            }
            if t.len() > 0 && exists|i: int|
                0 <= i < list.len() && text::trimmed(#[trigger] list[i]) == t {
                let i = choose|i: int|
                    0 <= i < list.len() && text::trimmed(#[trigger] list[i]) == t;
                if i < front.len() {
                    assert(text::trimmed(front[i]) == t);
                    assert(before.contains(t));
                    let j = choose|j: int| 0 <= j < before.len() && before[j] == t;
                    assert(g[j] == t);
                } else {
                    assert(t == last);
                    if before.contains(t) {
                        let j = choose|j: int| 0 <= j < before.len() && before[j] == t;
                        assert(g[j] == t);
                    } else {
                        assert(g[before.len() as int] == t);
                    }
                }
            }
        }
    }
}

/// Gathering more origins keeps those gathered, in their places, and adds
/// none that are there.
proof fn lemma_gathered_known(list: Seq<Seq<char>>, more: Seq<Seq<char>>)
    requires
        forall|i: int|
            0 <= i < more.len() ==> text::trimmed(#[trigger] more[i]).len() == 0
                || config::gathered(list).contains(text::trimmed(more[i])),
    ensures
        config::gathered(list + more) == config::gathered(list),
    decreases more.len(),
{
    if more.len() == 0 {
        assert(list + more =~= list);
    } else {
        assert((list + more).drop_last() =~= list + more.drop_last());
        assert((list + more).last() == more[more.len() - 1]);
        assert forall|i: int| 0 <= i < more.drop_last().len() implies text::trimmed(
            #[trigger] more.drop_last()[i],
        ).len() == 0 || config::gathered(list).contains(
            text::trimmed(more.drop_last()[i]),
        ) by {
            assert(more.drop_last()[i] == more[i]);
        }
        lemma_gathered_known(list, more.drop_last());
    }
}

/// Gathering what was gathered gives the same.
proof fn lemma_gathered_again(list: Seq<Seq<char>>, n: int)
    requires
        0 <= n <= config::gathered(list).len(),
    ensures
        config::gathered(config::gathered(list).take(n)) == config::gathered(list).take(n),
    decreases n,
{
    let g = config::gathered(list);
    law_gathered(list);
    if n > 0 {
        lemma_gathered_again(list, n - 1);
        assert(g.take(n).drop_last() =~= g.take(n - 1));
        assert(g.take(n).last() == g[n - 1]);
        assert(g.contains(g[n - 1]));
        if g.take(n - 1).contains(g[n - 1]) {
            let j = choose|j: int|
                0 <= j < n - 1 && #[trigger] g.take(n - 1)[j] == g[n - 1];
            assert(g[j] == g[n - 1]);
        }
        assert(g.take(n - 1).push(g[n - 1]) =~= g.take(n));
    } else {
        assert(g.take(0) =~= Seq::<Seq<char>>::empty());
    }
}

/// The origins of a frontend are among those of all.
proof fn lemma_frontend_origin_listed(fs: Seq<(Seq<char>, FrontendView)>, i: int, j: int)
    requires
        0 <= i < fs.len(),
        0 <= j < fs[i].1.origins.len(),
    ensures
        config::frontend_origins(fs).contains(fs[i].1.origins[j]),
    decreases fs.len(),
{
    let per = fs.map_values(|e: (Seq<char>, FrontendView)| e.1.origins);
    let front = fs.drop_last();
    let per_front = front.map_values(|e: (Seq<char>, FrontendView)| e.1.origins);
    let last = fs.last().1.origins;
    assert(per =~= per_front.push(last));
    per_front.lemma_flatten_push(last);
    let o = fs[i].1.origins[j];
    let all = per_front.flatten() + last;
    assert(per.flatten() == all);
    if i < front.len() {
        lemma_frontend_origin_listed(front, i, j);
        let k = choose|k: int| 0 <= k < per_front.flatten().len() && per_front.flatten()[k] == o;
        assert(all[k] == o);
    } else {
        assert(all[per_front.flatten().len() + j] == o);
    }
}

/// The allowed origins are those of the CORS section and of every frontend:
/// trimmed, not blank, each once.
pub proof fn law_all_origins(c: ConfigView)
    ensures
        config::origins_of(c).no_duplicates(),
        forall|k: int|
            0 <= k < config::origins_of(c).len() ==> (#[trigger] config::origins_of(c)[k]).len()
                > 0 && text::trimmed(config::origins_of(c)[k]) == config::origins_of(c)[k],
        forall|k: int|
            0 <= k < c.allow_origins.len() && !text::is_blank(#[trigger] c.allow_origins[k])
                ==> config::origins_of(c).contains(text::trimmed(c.allow_origins[k])),
        forall|i: int, j: int|
            0 <= i < c.frontends.len() && 0 <= j < c.frontends[i].1.origins.len()
                && !text::is_blank(#[trigger] c.frontends[i].1.origins[j])
                ==> config::origins_of(c).contains(text::trimmed(c.frontends[i].1.origins[j])),
{
    let list = c.allow_origins + config::frontend_origins(c.frontends);
    let g = config::origins_of(c);
    law_gathered(list);
    assert forall|k: int| 0 <= k < g.len() implies (#[trigger] g[k]).len() > 0 by {
        assert(g.contains(g[k]));
    }
    assert forall|k: int|
        0 <= k < c.allow_origins.len() && !text::is_blank(
            #[trigger] c.allow_origins[k],
        ) implies g.contains(text::trimmed(c.allow_origins[k])) by {
        assert(text::trimmed(list[k]) == text::trimmed(c.allow_origins[k]));
    }
    assert forall|i: int, j: int|
        0 <= i < c.frontends.len() && 0 <= j < c.frontends[i].1.origins.len() && !text::is_blank(
            #[trigger] c.frontends[i].1.origins[j],
        ) implies g.contains(text::trimmed(c.frontends[i].1.origins[j])) by {
        lemma_frontend_origin_listed(c.frontends, i, j);
        let o = c.frontends[i].1.origins[j];
        let fo = config::frontend_origins(c.frontends);
        let k = choose|k: int| 0 <= k < fo.len() && fo[k] == o;
        assert(list[c.allow_origins.len() + k] == o);
        assert(text::trimmed(list[c.allow_origins.len() + k]) == text::trimmed(o));
    }
}

/// Saving does not change which origins are allowed.
pub proof fn law_save_keeps_origins(c: ConfigView)
    ensures
        config::origins_of(config::persisted(c)) == config::origins_of(c),
{
    let fo = config::frontend_origins(c.frontends);
    let list = c.allow_origins + fo;
    let g = config::gathered(list);
    law_gathered(list);
    assert(g.take(g.len() as int) =~= g);
    lemma_gathered_again(list, g.len() as int);
    assert forall|i: int| 0 <= i < fo.len() implies text::trimmed(#[trigger] fo[i]).len() == 0
        || config::gathered(g).contains(text::trimmed(fo[i])) by {
        assert(list[c.allow_origins.len() + i] == fo[i]);
        assert(text::trimmed(list[c.allow_origins.len() + i]) == text::trimmed(fo[i]));
        assert(text::trimmed(fo[i]).len() > 0 ==> g.contains(text::trimmed(fo[i])));
    }
    lemma_gathered_known(g, fo);
}

// ---------------------------------------------------------------------------
// Saving and loading
// ---------------------------------------------------------------------------

/// In normal form, and checked.
pub open spec fn is_settled(c: ConfigView) -> bool {
    &&& c.frontends.len() > 0
    &&& config::normalized(c).frontends == c.frontends
    &&& config::validated(c) == (c, None::<Seq<char>>)
}

/// Loading gives back what was saved: the same frontends, with all their
/// origins allowed.
pub proof fn law_load_after_save(c: ConfigView)
    requires
        is_settled(c),
    ensures
        config::loaded(config::persisted(c)) == Ok::<ConfigView, Seq<char>>(
            config::persisted(c),
        ),
        config::persisted(c).frontends == c.frontends,
        config::persisted(c).listen == c.listen,
        config::origins_of(config::persisted(c)) == config::origins_of(c),
{
    let p = config::persisted(c);
    law_save_keeps_origins(c);
    assert(config::normalized(p).frontends == config::normalized(c).frontends);
    assert(config::normalized(p) == p);
    let here = config::frontends_pass(c.frontends);
    assert(here.0 == c.frontends && here.1 is None);
    assert(config::validated(p).0 == p);
}

/// Bringing into normal form does not change a frontend whose targets were
/// trimmed, but for that.
pub proof fn law_normal_of_trimmed(e: (Seq<char>, FrontendView))
    requires
        config::normal_frontend(e) == e,
    ensures
        config::normal_frontend(trimmed_frontend(e)) == trimmed_frontend(e),
{
    let t = trimmed_frontend(e);
    let n = config::normal_frontend(t);
    law_normal_frontend(e);
    assert(e.1.envs.len() > 0);
    assert(config::some_envs(e.1.envs) == e.1.envs);
    assert(config::some_envs(t.1.envs) == t.1.envs);
    law_map_keeps_keys(e.1.envs, t.1.envs, e.1.active_env);
    assert(t.1.envs[0].0 == e.1.envs[0].0);
    assert(n.1.active_env == config::normal_frontend(e).1.active_env);
    assert(n.1.label == config::normal_frontend(e).1.label);
    assert(n.1.origins == config::normal_frontend(e).1.origins);
    assert(n.1.envs =~= t.1.envs) by {
        assert forall|j: int| 0 <= j < t.1.envs.len() implies config::normal_env(
            #[trigger] t.1.envs[j],
        ) == t.1.envs[j] by {
            assert(config::normal_frontend(e).1.envs[j] == config::normal_env(e.1.envs[j]));
            assert(t.1.envs[j] == trimmed_env(e.1.envs[j]));
        }
    }
}

/// What was loaded is settled, where its origins are and where every target
/// holds more than slashes and white space.
pub proof fn law_loaded_settled(x: ConfigView, c: ConfigView)
    requires
        config::loaded(x) == Ok::<ConfigView, Seq<char>>(c),
        forall|i: int|
            0 <= i < starting_frontends(x).len() ==> has_settled_origins(
                (#[trigger] starting_frontends(x)[i]).1,
            ),
        forall|i: int|
            0 <= i < starting_frontends(x).len() ==> has_real_targets(
                (#[trigger] starting_frontends(x)[i]).1,
            ),
    ensures
        is_settled(c),
{
    let n = config::normalized(x);
    let fs = starting_frontends(x);
    law_normalize_idempotent(x);
    assert(n.frontends.len() == fs.len() && fs.len() > 0);
    assert forall|i: int| 0 <= i < n.frontends.len() implies has_real_targets(
        (#[trigger] n.frontends[i]).1,
    ) by {
        let e = fs[i];
        assert(has_real_targets(e.1));
        let m = config::normal_frontend(e);
        assert(n.frontends[i] == m);
        assert forall|j: int, k: int|
            0 <= j < m.1.envs.len() && 0 <= k < m.1.envs[j].1.rules.len() implies has_real_target(
            #[trigger] m.1.envs[j].1.rules[k],
        ) by {
            assert(m.1.envs[j] == config::normal_env(config::some_envs(e.1.envs)[j]));
            if e.1.envs.len() > 0 {
                assert(has_real_target(e.1.envs[j].1.rules[k]));
            }
        }
    }
    law_validate_stable(n);
    law_validate_trims(n);
    assert(c == trimmed_config(n));
    assert(config::normalized(c).frontends =~= c.frontends) by {
        assert forall|i: int| 0 <= i < c.frontends.len() implies config::normal_frontend(
            #[trigger] c.frontends[i],
        ) == c.frontends[i] by {
            assert(config::normalized(n).frontends[i] == config::normal_frontend(
                n.frontends[i],
            ));
            law_normal_of_trimmed(n.frontends[i]);
            assert(c.frontends[i] == trimmed_frontend(n.frontends[i]));
        }
    }
}

/// A configuration that is loaded, saved and loaded again comes back the same,
/// with all its origins allowed, where its origins are settled and every
/// target holds more than slashes and white space.
pub proof fn law_round_trip(x: ConfigView, c: ConfigView)
    requires
        config::loaded(x) == Ok::<ConfigView, Seq<char>>(c),
        forall|i: int|
            0 <= i < starting_frontends(x).len() ==> has_settled_origins(
                (#[trigger] starting_frontends(x)[i]).1,
            ),
        forall|i: int|
            0 <= i < starting_frontends(x).len() ==> has_real_targets(
                (#[trigger] starting_frontends(x)[i]).1,
            ),
    ensures
        config::loaded(config::persisted(c)) == Ok::<ConfigView, Seq<char>>(
            config::persisted(c),
        ),
        config::persisted(c).frontends == c.frontends,
{
    law_loaded_settled(x, c);
    law_load_after_save(c);
}

// ---------------------------------------------------------------------------
// The running configuration
// ---------------------------------------------------------------------------

/// A settled configuration that is put into force is the one that a snapshot
/// shows, with the CORS section as it is; the address stays that of the state.
pub proof fn law_snapshot_of_applied(st: StateView, c: ConfigView)
    requires
        is_settled(c),
    ensures
        state::snapshot(state::applied(st, c)).frontends == c.frontends,
        state::snapshot(state::applied(st, c)).allow_origins == c.allow_origins,
        state::snapshot(state::applied(st, c)).listen == st.listen,
{
}

/// The file that was just written can be read back. That changes nothing but
/// the CORS section, which then holds all allowed origins, as the file does.
pub proof fn law_reload_after_save(st: StateView, c: ConfigView, file: Config)
    requires
        is_settled(c),
        file@ == config::persisted(c),
    ensures
        config::load_result(st.config_path, ConfigSource::Parsed(file)) is Ok,
        admin::after_reload(
            admin::after_save(st, c, SaveOutcome::Written),
            ConfigSource::Parsed(file),
        ) == (StateView {
            cors_section: config::origins_of(c),
            ..admin::after_save(st, c, SaveOutcome::Written)
        }),
{
    law_load_after_save(c);
}

/// Every origin of a frontend may read answers as soon as the configuration
/// is in force, and so may every origin of the CORS section.
pub proof fn law_origins_allowed_at_once(st: StateView, c: ConfigView)
    ensures
        forall|i: int, j: int|
            0 <= i < c.frontends.len() && 0 <= j < c.frontends[i].1.origins.len()
                && !text::is_blank(#[trigger] c.frontends[i].1.origins[j])
                ==> cors::origin_allowed(
                state::applied(st, c).cors_origins,
                Some(text::trimmed(c.frontends[i].1.origins[j])),
            ),
        forall|k: int|
            0 <= k < c.allow_origins.len() && !text::is_blank(#[trigger] c.allow_origins[k])
                ==> cors::origin_allowed(
                state::applied(st, c).cors_origins,
                Some(text::trimmed(c.allow_origins[k])),
            ),
{
    let all = config::origins_of(c);
    law_all_origins(c);
    assert forall|o: Seq<char>| #[trigger] all.contains(o) implies cors::allows(all, o) by {
        let k = choose|k: int| 0 <= k < all.len() && all[k] == o;
        assert(text::trimmed(all[k]) == o);
    }
}

/// Every origin of all frontends is one of some frontend.
proof fn lemma_listed_frontend_origin(fs: Seq<(Seq<char>, FrontendView)>, o: Seq<char>)
    requires
        config::frontend_origins(fs).contains(o),
    ensures
        exists|i: int, j: int|
            0 <= i < fs.len() && 0 <= j < fs[i].1.origins.len() && #[trigger] fs[i].1.origins[j]
                == o,
    decreases fs.len(),
{
    let per = fs.map_values(|e: (Seq<char>, FrontendView)| e.1.origins);
    if fs.len() == 0 {
        assert(per =~= Seq::<Seq<Seq<char>>>::empty());
    } else {
        let front = fs.drop_last();
        let per_front = front.map_values(|e: (Seq<char>, FrontendView)| e.1.origins);
        let last = fs.last().1.origins;
        assert(per =~= per_front.push(last));
        per_front.lemma_flatten_push(last);
        let all = per_front.flatten() + last;
        let k = choose|k: int| 0 <= k < all.len() && all[k] == o;
        if k < per_front.flatten().len() {
            assert(per_front.flatten()[k] == o);
            assert(config::frontend_origins(front).contains(o));
            lemma_listed_frontend_origin(front, o);
            let (i, j) = choose|i: int, j: int|
                0 <= i < front.len() && 0 <= j < front[i].1.origins.len()
                    && #[trigger] front[i].1.origins[j] == o;
            assert(fs[i].1.origins[j] == o);
        } else {
            let n = fs.len() - 1;
            assert(fs[n].1.origins[k - per_front.flatten().len()] == o);
        }
    }
}

/// The configuration asks for origin `t`: in its CORS section or in a
/// frontend, up to white space around.
pub open spec fn asks_for_origin(
    section: Seq<Seq<char>>,
    fs: Seq<(Seq<char>, FrontendView)>,
    t: Seq<char>,
) -> bool {
    ||| exists|k: int| 0 <= k < section.len() && text::trimmed(#[trigger] section[k]) == t
    ||| exists|i: int, j: int|
        0 <= i < fs.len() && 0 <= j < fs[i].1.origins.len() && text::trimmed(
            #[trigger] fs[i].1.origins[j],
        ) == t
}

/// The allowed origins are those that the CORS section or a frontend asks for
/// now, and no others.
pub open spec fn is_in_step(st: StateView) -> bool {
    forall|t: Seq<char>|
        t.len() > 0 ==> (#[trigger] st.cors_origins.contains(t) <==> asks_for_origin(
            st.cors_section,
            st.frontends,
            t,
        ))
}

/// The origins that a configuration allows are those that it asks for.
pub proof fn law_origins_asked_for(c: ConfigView, t: Seq<char>)
    requires
        t.len() > 0,
    ensures
        config::origins_of(c).contains(t) <==> asks_for_origin(c.allow_origins, c.frontends, t),
{
    let fo = config::frontend_origins(c.frontends);
    let list = c.allow_origins + fo;
    let n = c.allow_origins.len();
    law_gathered(list);
    law_all_origins(c);
    strings::law_trimmed(t);
    if config::origins_of(c).contains(t) {
        let k = choose|k: int| 0 <= k < list.len() && text::trimmed(#[trigger] list[k]) == t;
        if k < n {
            assert(text::trimmed(c.allow_origins[k]) == t);
        } else {
            let o = fo[k - n];
            assert(fo.contains(o));
            lemma_listed_frontend_origin(c.frontends, o);
            let (i, j) = choose|i: int, j: int|
                0 <= i < c.frontends.len() && 0 <= j < c.frontends[i].1.origins.len()
                    && #[trigger] c.frontends[i].1.origins[j] == o;
            assert(text::trimmed(c.frontends[i].1.origins[j]) == t);
        }
    }
}

/// The allowed origins follow the configuration: they are in step with it at
/// the start and after every change.
pub proof fn law_origins_in_step(st: StateView, c: ConfigView, path: Seq<char>)
    ensures
        is_in_step(state::initial_state(c, path)),
        is_in_step(state::applied(st, c)),
{
    assert forall|t: Seq<char>| t.len() > 0 implies (#[trigger] config::origins_of(c).contains(t)
        <==> asks_for_origin(c.allow_origins, c.frontends, t)) by {
        law_origins_asked_for(c, t);
    }
}

/// The allowed origins stay in step over every save and reload, whatever comes
/// of it.
pub proof fn law_origins_stay_in_step(
    st: StateView,
    c: ConfigView,
    outcome: SaveOutcome,
    source: ConfigSource,
)
    requires
        is_in_step(st),
    ensures
        is_in_step(admin::after_save(st, c, outcome)),
        is_in_step(admin::after_reload(st, source)),
{
    law_origins_in_step(st, c, st.config_path);
    if let Ok(n) = config::load_result(st.config_path, source) {
        law_origins_in_step(st, n, st.config_path);
    }
}

} // verus!
