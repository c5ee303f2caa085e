//! The configuration field by field: what bringing it into normal form, the
//! check, saving and loading do to each, and what they leave alone.

use crate::admin;
use crate::config;
use crate::config::{
    Config, ConfigSource, ConfigView, EnvView, FrontendView, RuleView, SaveOutcome,
};
use crate::laws::settings;
use crate::laws::strings;
use crate::state;
use crate::state::StateView;
use crate::table;
use crate::text;
use vstd::prelude::*;

verus! {

// ---------------------------------------------------------------------------
// Normal form
// ---------------------------------------------------------------------------

/// Normal form keeps the id of a frontend, its cookie switch, a label that
/// holds anything, the rules of every environment, and the environment asked
/// for where there is one of that name. Origins are tidied one for one. A
/// frontend without environments gets one without rules.
pub proof fn law_normal_frontend_fields(e: (Seq<char>, FrontendView))
    ensures
        ({
            let n = config::normal_frontend(e);
            let asked = exists|j: int|
                0 <= j < n.1.envs.len() && (#[trigger] n.1.envs[j]).0 == e.1.active_env;
            &&& n.0 == e.0
            &&& n.1.rewrite_cookies == e.1.rewrite_cookies
            &&& n.1.label == (if text::is_blank(e.1.label) {
                e.0
            } else {
                e.1.label
            })
            &&& n.1.origins.len() == e.1.origins.len()
            &&& forall|j: int|
                0 <= j < e.1.origins.len() ==> #[trigger] n.1.origins[j] == text::tidy(
                    e.1.origins[j],
                )
            &&& e.1.envs.len() > 0 ==> n.1.envs.len() == e.1.envs.len() && forall|j: int|
                0 <= j < e.1.envs.len() ==> {
                    &&& (#[trigger] n.1.envs[j]).0 == e.1.envs[j].0
                    &&& n.1.envs[j].1.rules == e.1.envs[j].1.rules
                    &&& n.1.envs[j].1.label == (if text::is_blank(e.1.envs[j].1.label) {
                        e.1.envs[j].0
                    } else {
                        e.1.envs[j].1.label
                    })
                }
            &&& e.1.envs.len() == 0 ==> n.1.envs.len() == 1 && n.1.envs[0].0 == "default"@
                && n.1.envs[0].1.label == "默认"@ && n.1.envs[0].1.rules.len() == 0
            &&& asked && !text::is_blank(e.1.active_env) ==> n.1.active_env == e.1.active_env
            &&& !asked || text::is_blank(e.1.active_env) ==> n.1.active_env == n.1.envs[0].0
        }),
{
    let n = config::normal_frontend(e);
    let envs = config::some_envs(e.1.envs);
    assert(n.1.envs.len() == envs.len());
    assert forall|j: int| 0 <= j < envs.len() implies #[trigger] n.1.envs[j]
        == config::normal_env(envs[j]) by {}
    if e.1.envs.len() == 0 {
        let lone = envs[0];
        assert(n.1.envs[0] == config::normal_env(lone));
        reveal_strlit("默认");
        strings::law_blank("默认"@);
        assert(!text::is_white("默认"@[0]));
    }
    settings::law_map_keeps_keys(envs, n.1.envs, e.1.active_env);
    let key = e.1.active_env;
    if table::has_key(n.1.envs, key) {
        let j = table::key_index(n.1.envs, key);
        assert(n.1.envs[j].0 == key);
    }
    if exists|j: int| 0 <= j < n.1.envs.len() && (#[trigger] n.1.envs[j]).0 == key {
        let j = choose|j: int| 0 <= j < n.1.envs.len() && (#[trigger] n.1.envs[j]).0 == key;
        assert(table::has_key(n.1.envs, key));
    }
}

/// A configuration with frontends keeps everything but what normal form does
/// to each frontend, one by one.
pub proof fn law_normalized_fields(c: ConfigView)
    requires
        c.frontends.len() > 0,
    ensures
        ({
            let n = config::normalized(c);
            &&& n.listen == c.listen
            &&& n.allow_origins == c.allow_origins
            &&& n.active_env == c.active_env
            &&& n.envs == c.envs
            &&& n.rules == c.rules
            &&& n.frontends.len() == c.frontends.len()
            &&& forall|i: int|
                0 <= i < c.frontends.len() ==> #[trigger] n.frontends[i]
                    == config::normal_frontend(c.frontends[i])
        }),
{
}

/// A configuration without frontends becomes one with a single frontend that
/// has the CORS section's origins, tidied, and all environments and rules that
/// were there; nothing stays in the old places.
pub proof fn law_single_frontend_fields(c: ConfigView)
    requires
        c.frontends.len() == 0,
    ensures
        ({
            let n = config::normalized(c);
            let fe = n.frontends[0].1;
            let active = if text::is_blank(c.active_env) {
                "default"@
            } else {
                c.active_env
            };
            &&& n.listen == c.listen
            &&& n.allow_origins == c.allow_origins
            &&& n.active_env.len() == 0 && n.envs.len() == 0 && n.rules.len() == 0
            &&& n.frontends.len() == 1
            &&& n.frontends[0].0 == "default"@
            &&& fe.label == "默认前端"@
            &&& !fe.rewrite_cookies
            &&& fe.origins.len() == c.allow_origins.len()
            &&& forall|j: int|
                0 <= j < c.allow_origins.len() ==> #[trigger] fe.origins[j] == text::tidy(
                    c.allow_origins[j],
                )
            &&& c.envs.len() > 0 ==> fe.envs.len() == c.envs.len() && forall|j: int|
                0 <= j < c.envs.len() ==> {
                    &&& (#[trigger] fe.envs[j]).0 == c.envs[j].0
                    &&& fe.envs[j].1.rules == c.envs[j].1.rules
                }
            &&& c.envs.len() > 0 && (exists|j: int|
                0 <= j < c.envs.len() && (#[trigger] c.envs[j]).0 == active) ==> fe.active_env
                == (if text::is_blank(active) {
                c.envs[0].0
            } else {
                active
            })
            &&& c.envs.len() > 0 && (forall|j: int|
                0 <= j < c.envs.len() ==> (#[trigger] c.envs[j]).0 != active) ==> fe.active_env
                == c.envs[0].0
            &&& c.envs.len() == 0 ==> fe.envs.len() == 1 && fe.envs[0].0 == active
                && fe.envs[0].1.label == "默认"@ && fe.envs[0].1.rules == c.rules
                && fe.active_env == active
        }),
{
    let n = config::normalized(c);
    let m = config::migrated(c);
    let e = m.frontends[0];
    law_normal_frontend_fields(e);
    assert(n.frontends[0] == config::normal_frontend(e));
    reveal_strlit("默认前端");
    strings::law_blank("默认前端"@);
    assert(!text::is_white("默认前端"@[0]));
    reveal_strlit("默认");
    strings::law_blank("默认"@);
    assert(!text::is_white("默认"@[0]));
    let fe = n.frontends[0].1;
    if c.envs.len() == 0 {
        assert(fe.envs[0].0 == e.1.envs[0].0);
    } else if exists|j: int| 0 <= j < c.envs.len() && (#[trigger] c.envs[j]).0 == e.1.active_env {
        let j = choose|j: int| 0 <= j < c.envs.len() && (#[trigger] c.envs[j]).0
            == e.1.active_env;
        assert(fe.envs[j].0 == e.1.active_env);
        assert(fe.envs[0].0 == c.envs[0].0);
    } else {
        assert(fe.envs[0].0 == c.envs[0].0);
        assert forall|j: int| 0 <= j < fe.envs.len() implies (#[trigger] fe.envs[j]).0
            != e.1.active_env by {
            assert(fe.envs[j].0 == c.envs[j].0);
        }
    }
}

// ---------------------------------------------------------------------------
// The check
// ---------------------------------------------------------------------------

/// A rule that is the same but for slashes at the end of its target.
pub open spec fn same_but_slashes(after: RuleView, before: RuleView) -> bool {
    &&& after.name == before.name
    &&& after.match_prefix == before.match_prefix
    &&& after.strip_prefix == before.strip_prefix
    &&& after.headers == before.headers
    &&& after.target.len() <= before.target.len()
    &&& after.target == before.target.take(after.target.len() as int)
    &&& forall|i: int|
        after.target.len() <= i < before.target.len() ==> #[trigger] before.target[i] == '/'
}

proof fn lemma_same_rule(r: RuleView)
    ensures
        same_but_slashes(r, r),
        same_but_slashes(config::trimmed_rule(r), r),
        config::trimmed_rule(r).target.len() > 0 ==> config::trimmed_rule(r).target.last() != '/',
{
    strings::law_without_trailing(r.target, '/');
    strings::law_only_the_run_is_cut_off(r.target, '/');
    assert(r.target.take(r.target.len() as int) =~= r.target);
}

/// The check keeps the address, the CORS section, and of every frontend and
/// environment all but the rules; of every rule it keeps the name, the prefix,
/// the switch and the headers, and the target up to the slashes at its end.
pub proof fn law_check_keeps_fields(c: ConfigView)
    ensures
        ({
            let v = config::validated(c).0;
            &&& v.listen == c.listen
            &&& v.allow_origins == c.allow_origins
            &&& v.active_env == c.active_env
            &&& v.envs == c.envs
            &&& v.rules == c.rules
            &&& v.frontends.len() == c.frontends.len()
            &&& forall|i: int|
                0 <= i < c.frontends.len() ==> {
                    &&& (#[trigger] v.frontends[i]).0 == c.frontends[i].0
                    &&& v.frontends[i].1.label == c.frontends[i].1.label
                    &&& v.frontends[i].1.origins == c.frontends[i].1.origins
                    &&& v.frontends[i].1.active_env == c.frontends[i].1.active_env
                    &&& v.frontends[i].1.rewrite_cookies == c.frontends[i].1.rewrite_cookies
                    &&& v.frontends[i].1.envs.len() == c.frontends[i].1.envs.len()
                }
            &&& forall|i: int, j: int|
                0 <= i < c.frontends.len() && 0 <= j < c.frontends[i].1.envs.len() ==> {
                    &&& (#[trigger] v.frontends[i].1.envs[j]).0 == c.frontends[i].1.envs[j].0
                    &&& v.frontends[i].1.envs[j].1.label == c.frontends[i].1.envs[j].1.label
                    &&& v.frontends[i].1.envs[j].1.rules.len()
                        == c.frontends[i].1.envs[j].1.rules.len()
                }
            &&& forall|i: int, j: int, k: int|
                0 <= i < c.frontends.len() && 0 <= j < c.frontends[i].1.envs.len() && 0 <= k
                    < c.frontends[i].1.envs[j].1.rules.len() ==> same_but_slashes(
                    #[trigger] v.frontends[i].1.envs[j].1.rules[k],
                    c.frontends[i].1.envs[j].1.rules[k],
                )
        }),
{
    settings::law_validate_changes_targets_only(c);
    let v = config::validated(c).0;
    assert forall|i: int, j: int|
        0 <= i < c.frontends.len() && 0 <= j < c.frontends[i].1.envs.len() implies {
        &&& (#[trigger] v.frontends[i].1.envs[j]).0 == c.frontends[i].1.envs[j].0
        &&& v.frontends[i].1.envs[j].1.label == c.frontends[i].1.envs[j].1.label
        &&& v.frontends[i].1.envs[j].1.rules.len() == c.frontends[i].1.envs[j].1.rules.len()
    } by {
        assert(settings::is_frontend_like(v.frontends[i], c.frontends[i]));
        assert(settings::is_env_like(v.frontends[i].1.envs[j], c.frontends[i].1.envs[j]));
    }
    assert forall|i: int, j: int, k: int|
        0 <= i < c.frontends.len() && 0 <= j < c.frontends[i].1.envs.len() && 0 <= k
            < c.frontends[i].1.envs[j].1.rules.len() implies same_but_slashes(
        #[trigger] v.frontends[i].1.envs[j].1.rules[k],
        c.frontends[i].1.envs[j].1.rules[k],
    ) by {
        assert(settings::is_frontend_like(v.frontends[i], c.frontends[i]));
        assert(settings::is_env_like(v.frontends[i].1.envs[j], c.frontends[i].1.envs[j]));
        lemma_same_rule(c.frontends[i].1.envs[j].1.rules[k]);
        let a = v.frontends[i].1.envs[j].1.rules[k];
        let b = c.frontends[i].1.envs[j].1.rules[k];
        assert(a == b || a == config::trimmed_rule(b));
    }
}

/// What passed the check has no slash at the end of a target.
pub proof fn law_checked_targets_end_without_slash(c: ConfigView, i: int, j: int, k: int)
    requires
        config::validated(c).1 is None,
        0 <= i < c.frontends.len(),
        0 <= j < c.frontends[i].1.envs.len(),
        0 <= k < c.frontends[i].1.envs[j].1.rules.len(),
    ensures
        ({
            let target = config::validated(c).0.frontends[i].1.envs[j].1.rules[k].target;
            target.len() > 0 ==> target.last() != '/'
        }),
{
    settings::law_validate_trims(c);
    lemma_same_rule(c.frontends[i].1.envs[j].1.rules[k]);
    let t = settings::trimmed_frontend(c.frontends[i]);
    assert(config::validated(c).0.frontends[i] == t);
    assert(t.1.envs[j] == settings::trimmed_env(c.frontends[i].1.envs[j]));
}

/// What is said of a faulty rule: where it stands, and what is wrong first of
/// its name, its prefix and its target.
pub proof fn law_rule_fault(fid: Seq<char>, eid: Seq<char>, r: RuleView)
    ensures
        ({
            let place = "前端 '"@ + fid + "' / 环境 '"@ + eid + "' 规则 "@;
            let named = place + "'"@ + r.name;
            let slash = r.match_prefix.len() > 0 && r.match_prefix[0] == '/';
            config::rule_fault(fid, eid, r) == (if text::is_blank(r.name) {
                Some(place + "name 不能为空"@)
            } else if !slash {
                Some(named + "' 的 match_prefix 必须以 / 开头"@)
            } else if text::is_blank(r.target) {
                Some(named + "' 的 target 不能为空"@)
            } else {
                None
            })
        }),
{
}

/// The first faulty rule is the one that is reported; those before it are
/// trimmed, those from it on are as they were.
pub proof fn law_first_faulty_rule(fid: Seq<char>, eid: Seq<char>, rules: Seq<RuleView>, k: int)
    requires
        0 <= k < rules.len(),
        config::rule_fault(fid, eid, rules[k]) is Some,
        forall|j: int| 0 <= j < k ==> config::rule_fault(fid, eid, #[trigger] rules[j]) is None,
    ensures
        config::rules_pass(fid, eid, rules).1 == config::rule_fault(fid, eid, rules[k]),
        config::rules_pass(fid, eid, rules).0.len() == rules.len(),
        forall|j: int|
            k <= j < rules.len() ==> #[trigger] config::rules_pass(fid, eid, rules).0[j]
                == rules[j],
        forall|j: int|
            0 <= j < k ==> same_but_slashes(
                #[trigger] config::rules_pass(fid, eid, rules).0[j],
                rules[j],
            ) && (config::rules_pass(fid, eid, rules).0[j].target.len() > 0
                ==> config::rules_pass(fid, eid, rules).0[j].target.last() != '/'),
    decreases rules.len(),
{
    let front = rules.drop_last();
    let p = config::rules_pass(fid, eid, rules);
    let b = config::rules_pass(fid, eid, front);
    assert(forall|j: int| 0 <= j < front.len() ==> front[j] == rules[j]);
    if k < front.len() {
        law_first_faulty_rule(fid, eid, front, k);
        assert forall|j: int| k <= j < rules.len() implies #[trigger] p.0[j] == rules[j] by {
            if j < front.len() {
                assert(p.0[j] == b.0[j]);
            }
        }
        assert forall|j: int| 0 <= j < k implies same_but_slashes(#[trigger] p.0[j], rules[j]) && (
        p.0[j].target.len() > 0 ==> p.0[j].target.last() != '/') by {
            assert(p.0[j] == b.0[j]);
        }
    } else {
        lemma_sound_rules(fid, eid, front);
        assert forall|j: int| 0 <= j < k implies same_but_slashes(#[trigger] p.0[j], rules[j]) && (
        p.0[j].target.len() > 0 ==> p.0[j].target.last() != '/') by {
            assert(p.0[j] == b.0[j]);
        }
    }
}

/// Rules without a fault pass, trimmed.
proof fn lemma_sound_rules(fid: Seq<char>, eid: Seq<char>, rules: Seq<RuleView>)
    requires
        forall|j: int|
            0 <= j < rules.len() ==> config::rule_fault(fid, eid, #[trigger] rules[j]) is None,
    ensures
        config::rules_pass(fid, eid, rules).1 is None,
        config::rules_pass(fid, eid, rules).0.len() == rules.len(),
        forall|j: int|
            0 <= j < rules.len() ==> same_but_slashes(
                #[trigger] config::rules_pass(fid, eid, rules).0[j],
                rules[j],
            ) && (config::rules_pass(fid, eid, rules).0[j].target.len() > 0
                ==> config::rules_pass(fid, eid, rules).0[j].target.last() != '/'),
    decreases rules.len(),
{
    if rules.len() > 0 {
        let front = rules.drop_last();
        assert(forall|j: int| 0 <= j < front.len() ==> front[j] == rules[j]);
        lemma_sound_rules(fid, eid, front);
        assert(config::rule_fault(fid, eid, rules[rules.len() - 1]) is None);
        lemma_same_rule(rules.last());
        let p = config::rules_pass(fid, eid, rules).0;
        let b = config::rules_pass(fid, eid, front).0;
        assert forall|j: int| 0 <= j < rules.len() implies same_but_slashes(
            #[trigger] p[j],
            rules[j],
        ) && (p[j].target.len() > 0 ==> p[j].target.last() != '/') by {
            if j < front.len() {
                assert(p[j] == b[j]);
            }
        }
    }
}

/// The first environment with a faulty rule is the one that is reported; those
/// after it are as they were.
pub proof fn law_first_faulty_env(fid: Seq<char>, envs: Seq<(Seq<char>, EnvView)>, k: int)
    requires
        0 <= k < envs.len(),
        config::rules_pass(fid, envs[k].0, envs[k].1.rules).1 is Some,
        forall|j: int|
            0 <= j < k ==> config::rules_pass(
                fid,
                (#[trigger] envs[j]).0,
                envs[j].1.rules,
            ).1 is None,
    ensures
        config::envs_pass(fid, envs).1 == config::rules_pass(fid, envs[k].0, envs[k].1.rules).1,
        config::envs_pass(fid, envs).0.len() == envs.len(),
        forall|j: int|
            k < j < envs.len() ==> #[trigger] config::envs_pass(fid, envs).0[j] == envs[j],
        forall|j: int|
            0 <= j <= k ==> (#[trigger] config::envs_pass(fid, envs).0[j]).1.rules
                == config::rules_pass(fid, envs[j].0, envs[j].1.rules).0,
    decreases envs.len(),
{
    let front = envs.drop_last();
    assert(forall|j: int| 0 <= j < front.len() ==> front[j] == envs[j]);
    if k < front.len() {
        law_first_faulty_env(fid, front, k);
    } else {
        lemma_sound_envs(fid, front);
    }
    let p = config::envs_pass(fid, envs).0;
    let b = config::envs_pass(fid, front).0;
    assert forall|j: int| k < j < envs.len() implies #[trigger] p[j] == envs[j] by {
        if j < front.len() {
            assert(p[j] == b[j]);
        }
    }
    assert forall|j: int| 0 <= j <= k implies (#[trigger] p[j]).1.rules == config::rules_pass(
        fid,
        envs[j].0,
        envs[j].1.rules,
    ).0 by {
        if j < front.len() {
            assert(p[j] == b[j]);
        }
    }
}

proof fn lemma_sound_envs(fid: Seq<char>, envs: Seq<(Seq<char>, EnvView)>)
    requires
        forall|j: int|
            0 <= j < envs.len() ==> config::rules_pass(
                fid,
                (#[trigger] envs[j]).0,
                envs[j].1.rules,
            ).1 is None,
    ensures
        config::envs_pass(fid, envs).1 is None,
        config::envs_pass(fid, envs).0.len() == envs.len(),
        forall|j: int|
            0 <= j < envs.len() ==> (#[trigger] config::envs_pass(fid, envs).0[j]).1.rules
                == config::rules_pass(fid, envs[j].0, envs[j].1.rules).0,
    decreases envs.len(),
{
    if envs.len() > 0 {
        let front = envs.drop_last();
        assert(forall|j: int| 0 <= j < front.len() ==> front[j] == envs[j]);
        lemma_sound_envs(fid, front);
        assert(config::rules_pass(
            fid,
            envs[envs.len() - 1].0,
            envs[envs.len() - 1].1.rules,
        ).1 is None);
        let p = config::envs_pass(fid, envs).0;
        let b = config::envs_pass(fid, front).0;
        assert forall|j: int| 0 <= j < envs.len() implies (#[trigger] p[j]).1.rules
            == config::rules_pass(fid, envs[j].0, envs[j].1.rules).0 by {
            if j < front.len() {
                assert(p[j] == b[j]);
            }
        }
    }
}

/// What is said of a faulty frontend: that it has no environment, that the one
/// in force is missing, or what is wrong in its environments.
pub proof fn law_frontend_fault(e: (Seq<char>, FrontendView))
    ensures
        config::frontend_pass(e).1 == (if e.1.envs.len() == 0 {
            Some("前端 '"@ + e.0 + "' 至少需要一个环境"@)
        } else if forall|j: int|
            0 <= j < e.1.envs.len() ==> (#[trigger] e.1.envs[j]).0 != e.1.active_env {
            Some("前端 '"@ + e.0 + "' 的 active_env '"@ + e.1.active_env + "' 不存在"@)
        } else {
            config::envs_pass(e.0, e.1.envs).1
        }),
{
    let key = e.1.active_env;
    if table::has_key(e.1.envs, key) {
        let j = table::key_index(e.1.envs, key);
        assert(e.1.envs[j].0 == key);
    } else if !(forall|j: int| 0 <= j < e.1.envs.len() ==> (#[trigger] e.1.envs[j]).0 != key) {
        let j = choose|j: int| 0 <= j < e.1.envs.len() && (#[trigger] e.1.envs[j]).0 == key;
        assert(e.1.envs[j].0 == key);
    }
}

/// The first faulty frontend is the one that is reported; those after it are as
/// they were.
pub proof fn law_first_faulty_frontend(fs: Seq<(Seq<char>, FrontendView)>, k: int)
    requires
        0 <= k < fs.len(),
        config::frontend_pass(fs[k]).1 is Some,
        forall|j: int| 0 <= j < k ==> config::frontend_pass(#[trigger] fs[j]).1 is None,
    ensures
        config::frontends_pass(fs).1 == config::frontend_pass(fs[k]).1,
        config::frontends_pass(fs).0.len() == fs.len(),
        forall|j: int|
            k < j < fs.len() ==> #[trigger] config::frontends_pass(fs).0[j] == fs[j],
        forall|j: int|
            0 <= j <= k ==> #[trigger] config::frontends_pass(fs).0[j] == config::frontend_pass(
                fs[j],
            ).0,
    decreases fs.len(),
{
    let front = fs.drop_last();
    assert(forall|j: int| 0 <= j < front.len() ==> front[j] == fs[j]);
    if k < front.len() {
        law_first_faulty_frontend(front, k);
    } else {
        lemma_sound_frontends(front);
    }
    let p = config::frontends_pass(fs).0;
    let b = config::frontends_pass(front).0;
    assert forall|j: int| k < j < fs.len() implies #[trigger] p[j] == fs[j] by {
        if j < front.len() {
            assert(p[j] == b[j]);
        }
    }
    assert forall|j: int| 0 <= j <= k implies #[trigger] p[j] == config::frontend_pass(
        fs[j],
    ).0 by {
        if j < front.len() {
            assert(p[j] == b[j]);
        }
    }
}

proof fn lemma_sound_frontends(fs: Seq<(Seq<char>, FrontendView)>)
    requires
        forall|j: int|
            0 <= j < fs.len() ==> config::frontend_pass(#[trigger] fs[j]).1 is None,
    ensures
        config::frontends_pass(fs).1 is None,
        config::frontends_pass(fs).0.len() == fs.len(),
        forall|j: int|
            0 <= j < fs.len() ==> #[trigger] config::frontends_pass(fs).0[j]
                == config::frontend_pass(fs[j]).0,
    decreases fs.len(),
{
    if fs.len() > 0 {
        let front = fs.drop_last();
        assert(forall|j: int| 0 <= j < front.len() ==> front[j] == fs[j]);
        lemma_sound_frontends(front);
        assert(config::frontend_pass(fs[fs.len() - 1]).1 is None);
        let p = config::frontends_pass(fs).0;
        let b = config::frontends_pass(front).0;
        assert forall|j: int| 0 <= j < fs.len() implies #[trigger] p[j] == config::frontend_pass(
            fs[j],
        ).0 by {
            if j < front.len() {
                assert(p[j] == b[j]);
            }
        }
    }
}

/// Rules that pass have no slash at the end of a target.
proof fn lemma_passed_rules(fid: Seq<char>, eid: Seq<char>, rules: Seq<RuleView>)
    requires
        config::rules_pass(fid, eid, rules).1 is None,
    ensures
        config::rules_pass(fid, eid, rules).0.len() == rules.len(),
        forall|j: int|
            0 <= j < rules.len() ==> ((#[trigger] config::rules_pass(
                fid,
                eid,
                rules,
            ).0[j]).target.len() > 0 ==> config::rules_pass(fid, eid, rules).0[j].target.last()
                != '/'),
    decreases rules.len(),
{
    if rules.len() > 0 {
        let front = rules.drop_last();
        lemma_passed_rules(fid, eid, front);
        lemma_same_rule(rules.last());
        let p = config::rules_pass(fid, eid, rules).0;
        let b = config::rules_pass(fid, eid, front).0;
        assert forall|j: int| 0 <= j < rules.len() && (#[trigger] p[j]).target.len() > 0 implies p[
            j
        ].target.last() != '/' by {
            if j < front.len() {
                assert(p[j] == b[j]);
            }
        }
    }
}

/// Environments that pass have rules that pass.
proof fn lemma_passed_envs(fid: Seq<char>, envs: Seq<(Seq<char>, EnvView)>)
    requires
        config::envs_pass(fid, envs).1 is None,
    ensures
        forall|j: int|
            0 <= j < envs.len() ==> config::rules_pass(
                fid,
                (#[trigger] envs[j]).0,
                envs[j].1.rules,
            ).1 is None,
    decreases envs.len(),
{
    if envs.len() > 0 {
        let front = envs.drop_last();
        lemma_passed_envs(fid, front);
        assert forall|j: int| 0 <= j < envs.len() implies config::rules_pass(
            fid,
            (#[trigger] envs[j]).0,
            envs[j].1.rules,
        ).1 is None by {
            if j < front.len() {
                assert(envs[j] == front[j]);
            }
        }
    }
}

/// A check that stops at a faulty rule has taken the slashes from the ends of
/// the targets before it, in its environment, in the environments before that
/// one and in the frontends before; the rule itself and all that comes after it
/// are as they were.
pub proof fn law_refused_check(c: ConfigView, i: int, j: int, k: int)
    requires
        !text::is_blank(c.listen),
        0 <= i < c.frontends.len(),
        0 <= j < c.frontends[i].1.envs.len(),
        0 <= k < c.frontends[i].1.envs[j].1.rules.len(),
        exists|m: int|
            0 <= m < c.frontends[i].1.envs.len() && (#[trigger] c.frontends[i].1.envs[m]).0
                == c.frontends[i].1.active_env,
        forall|m: int| 0 <= m < i ==> config::frontend_pass(#[trigger] c.frontends[m]).1 is None,
        forall|m: int|
            0 <= m < j ==> config::rules_pass(
                c.frontends[i].0,
                (#[trigger] c.frontends[i].1.envs[m]).0,
                c.frontends[i].1.envs[m].1.rules,
            ).1 is None,
        forall|m: int|
            0 <= m < k ==> config::rule_fault(
                c.frontends[i].0,
                c.frontends[i].1.envs[j].0,
                #[trigger] c.frontends[i].1.envs[j].1.rules[m],
            ) is None,
        config::rule_fault(
            c.frontends[i].0,
            c.frontends[i].1.envs[j].0,
            c.frontends[i].1.envs[j].1.rules[k],
        ) is Some,
    ensures
        ({
            let v = config::validated(c).0;
            &&& config::validated(c).1 == config::rule_fault(
                c.frontends[i].0,
                c.frontends[i].1.envs[j].0,
                c.frontends[i].1.envs[j].1.rules[k],
            )
            &&& forall|a: int|
                i < a < c.frontends.len() ==> #[trigger] v.frontends[a] == c.frontends[a]
            &&& forall|b: int|
                j < b < c.frontends[i].1.envs.len() ==> #[trigger] v.frontends[i].1.envs[b]
                    == c.frontends[i].1.envs[b]
            &&& forall|m: int|
                k <= m < c.frontends[i].1.envs[j].1.rules.len()
                    ==> #[trigger] v.frontends[i].1.envs[j].1.rules[m]
                    == c.frontends[i].1.envs[j].1.rules[m]
            &&& forall|a: int, b: int, m: int|
                0 <= a <= i && 0 <= b < c.frontends[a].1.envs.len() && 0 <= m
                    < c.frontends[a].1.envs[b].1.rules.len() && (a < i || b < j || (b == j && m
                    < k)) ==> {
                    let target = (#[trigger] v.frontends[a].1.envs[b].1.rules[m]).target;
                    target.len() > 0 ==> target.last() != '/'
                }
        }),
{
    let v = config::validated(c).0;
    let fs = c.frontends;
    let e = fs[i];
    let rules = e.1.envs[j].1.rules;
    law_first_faulty_rule(e.0, e.1.envs[j].0, rules, k);
    law_first_faulty_env(e.0, e.1.envs, j);
    law_frontend_fault(e);
    let has = choose|m: int| 0 <= m < e.1.envs.len() && (#[trigger] e.1.envs[m]).0
        == e.1.active_env;
    assert(e.1.envs[has].0 == e.1.active_env);
    assert(table::has_key(e.1.envs, e.1.active_env));
    law_first_faulty_frontend(fs, i);
    assert(v.frontends[i] == config::frontend_pass(e).0);
    assert forall|a: int, b: int, m: int|
        0 <= a <= i && 0 <= b < fs[a].1.envs.len() && 0 <= m < fs[a].1.envs[b].1.rules.len() && (a
            < i || b < j || (b == j && m < k)) implies {
        let target = (#[trigger] v.frontends[a].1.envs[b].1.rules[m]).target;
        target.len() > 0 ==> target.last() != '/'
    } by {
        let f = fs[a];
        assert(v.frontends[a] == config::frontend_pass(f).0);
        if a < i {
            law_frontend_fault(f);
            assert(config::frontend_pass(f).1 is None);
            lemma_passed_envs(f.0, f.1.envs);
            lemma_sound_envs(f.0, f.1.envs);
            lemma_passed_rules(f.0, f.1.envs[b].0, f.1.envs[b].1.rules);
        } else if b < j {
            lemma_passed_rules(f.0, f.1.envs[b].0, f.1.envs[b].1.rules);
        }
    }
}

/// A check that stops before any rule, for want of an address or a frontend,
/// changes nothing; one that stops at a frontend without environments, or without
/// the one in force, has taken the slashes from the targets of the frontends
/// before it, and leaves that frontend and those after it.
pub proof fn law_refused_frontend(c: ConfigView, i: int)
    ensures
        text::is_blank(c.listen) || c.frontends.len() == 0 ==> config::validated(c).0 == c,
        ({
            let v = config::validated(c).0;
            let e = c.frontends[i];
            !text::is_blank(c.listen) && 0 <= i < c.frontends.len() && (forall|m: int|
                0 <= m < i ==> config::frontend_pass(#[trigger] c.frontends[m]).1 is None) && (
            forall|m: int|
                0 <= m < e.1.envs.len() ==> (#[trigger] e.1.envs[m]).0 != e.1.active_env) ==> {
                &&& forall|a: int|
                    i <= a < c.frontends.len() ==> #[trigger] v.frontends[a] == c.frontends[a]
                &&& forall|a: int, b: int, m: int|
                    0 <= a < i && 0 <= b < c.frontends[a].1.envs.len() && 0 <= m
                        < c.frontends[a].1.envs[b].1.rules.len() ==> {
                        let target = (#[trigger] v.frontends[a].1.envs[b].1.rules[m]).target;
                        target.len() > 0 ==> target.last() != '/'
                    }
            }
        }),
{
    let v = config::validated(c).0;
    let fs = c.frontends;
    let e = fs[i];
    if !text::is_blank(c.listen) && 0 <= i < fs.len() && (forall|m: int|
        0 <= m < i ==> config::frontend_pass(#[trigger] fs[m]).1 is None) && (forall|m: int|
        0 <= m < e.1.envs.len() ==> (#[trigger] e.1.envs[m]).0 != e.1.active_env) {
        law_frontend_fault(e);
        assert(!table::has_key(e.1.envs, e.1.active_env));
        law_first_faulty_frontend(fs, i);
        assert(v.frontends[i] == config::frontend_pass(e).0);
        assert forall|a: int, b: int, m: int|
            0 <= a < i && 0 <= b < fs[a].1.envs.len() && 0 <= m
                < fs[a].1.envs[b].1.rules.len() implies {
            let target = (#[trigger] v.frontends[a].1.envs[b].1.rules[m]).target;
            target.len() > 0 ==> target.last() != '/'
        } by {
            let f = fs[a];
            assert(v.frontends[a] == config::frontend_pass(f).0);
            law_frontend_fault(f);
            lemma_passed_envs(f.0, f.1.envs);
            lemma_sound_envs(f.0, f.1.envs);
            lemma_passed_rules(f.0, f.1.envs[b].0, f.1.envs[b].1.rules);
        }
    }
}

/// What is said of a configuration: that it has no address, that it has no
/// frontend, or what is wrong with its frontends.
pub proof fn law_fault(c: ConfigView)
    ensures
        config::validated(c).1 == (if text::is_blank(c.listen) {
            Some("listen 不能为空"@)
        } else if c.frontends.len() == 0 {
            Some("至少需要一个前端"@)
        } else {
            config::frontends_pass(c.frontends).1
        }),
{
}

// ---------------------------------------------------------------------------
// Origins
// ---------------------------------------------------------------------------

/// Gathering one origin more adds it behind the others, trimmed, where it is
/// not blank and not there; the others keep their places.
pub proof fn law_gathered_order(list: Seq<Seq<char>>, o: Seq<char>)
    ensures
        config::gathered(Seq::<Seq<char>>::empty()).len() == 0,
        ({
            let before = config::gathered(list);
            let t = text::trimmed(o);
            config::gathered(list.push(o)) == (if t.len() == 0 || exists|k: int|
                0 <= k < before.len() && #[trigger] before[k] == t {
                before
            } else {
                before.push(t)
            })
        }),
{
    assert(list.push(o).drop_last() =~= list);
    assert(list.push(o).last() == o);
}

/// The allowed origins are gathered from the CORS section first, and then from
/// one frontend after the other.
pub proof fn law_origins_order(c: ConfigView, e: (Seq<char>, FrontendView))
    ensures
        config::frontend_origins(Seq::<(Seq<char>, FrontendView)>::empty()).len() == 0,
        config::frontend_origins(c.frontends.push(e)) == config::frontend_origins(c.frontends)
            + e.1.origins,
        config::origins_of(c) == config::gathered(
            c.allow_origins + config::frontend_origins(c.frontends),
        ),
{
    let per = c.frontends.map_values(|x: (Seq<char>, FrontendView)| x.1.origins);
    per.lemma_flatten_push(e.1.origins);
    assert(c.frontends.push(e).map_values(|x: (Seq<char>, FrontendView)| x.1.origins)
        =~= per.push(e.1.origins));
    let none = Seq::<(Seq<char>, FrontendView)>::empty();
    assert(none.map_values(|x: (Seq<char>, FrontendView)| x.1.origins) =~= Seq::<
        Seq<Seq<char>>,
    >::empty());
}

// ---------------------------------------------------------------------------
// Disk
// ---------------------------------------------------------------------------

/// What is written to disk: the address and the frontends as they are, all
/// allowed origins, and nothing in the old places.
pub proof fn law_persisted_fields(c: ConfigView)
    ensures
        ({
            let p = config::persisted(c);
            &&& p.listen == c.listen
            &&& p.frontends == c.frontends
            &&& p.active_env.len() == 0 && p.envs.len() == 0 && p.rules.len() == 0
            &&& p.allow_origins.no_duplicates()
            &&& forall|t: Seq<char>|
                t.len() > 0 ==> (#[trigger] p.allow_origins.contains(t)
                    <==> settings::asks_for_origin(c.allow_origins, c.frontends, t))
            &&& forall|k: int|
                0 <= k < p.allow_origins.len() ==> (#[trigger] p.allow_origins[k]).len() > 0
        }),
{
    settings::law_all_origins(c);
    assert forall|t: Seq<char>| t.len() > 0 implies (#[trigger] config::persisted(
        c,
    ).allow_origins.contains(t) <==> settings::asks_for_origin(
        c.allow_origins,
        c.frontends,
        t,
    )) by {
        settings::law_origins_asked_for(c, t);
    }
}

/// Loading says why the file could not be read or parsed; a parsed file gives
/// the configuration in normal form and checked, or its first fault.
pub proof fn law_load_result(path: Seq<char>, e: String, file: Config)
    ensures
        config::load_result(path, ConfigSource::Unreadable(e)) == Err::<ConfigView, Seq<char>>(
            "读取配置失败 "@ + path + ": "@ + e@,
        ),
        config::load_result(path, ConfigSource::Unparsable(e)) == Err::<ConfigView, Seq<char>>(
            "解析配置失败 "@ + path + ": "@ + e@,
        ),
        config::validated(config::normalized(file@)).1 matches Some(fault) ==> config::load_result(
            path,
            ConfigSource::Parsed(file),
        ) == Err::<ConfigView, Seq<char>>(fault),
        config::validated(config::normalized(file@)).1 is None ==> config::load_result(
            path,
            ConfigSource::Parsed(file),
        ) == Ok::<ConfigView, Seq<char>>(config::validated(config::normalized(file@)).0),
{
}

/// Saving says why the file could not be made or written.
pub proof fn law_save_report(path: Seq<char>, e: String)
    ensures
        config::save_report(path, SaveOutcome::Written) is Ok,
        config::save_report(path, SaveOutcome::Unserializable(e)) == Err::<(), Seq<char>>(
            "序列化配置失败: "@ + e@,
        ),
        config::save_report(path, SaveOutcome::Unwritable(e)) == Err::<(), Seq<char>>(
            "写入配置失败 "@ + path + ": "@ + e@,
        ),
{
}

// ---------------------------------------------------------------------------
// The state
// ---------------------------------------------------------------------------

/// The state starts with the configuration and an empty log.
pub proof fn law_initial_state_fields(c: ConfigView, path: Seq<char>)
    ensures
        ({
            let st = state::initial_state(c, path);
            &&& st.frontends == c.frontends
            &&& st.logs.len() == 0
            &&& st.config_path == path
            &&& st.cors_section == c.allow_origins
            &&& st.cors_origins == config::origins_of(c)
            &&& st.listen == c.listen
        }),
{
}

/// A change of configuration puts its frontends and its CORS section into
/// force, and leaves the log, the path and the address.
pub proof fn law_applied_fields(st: StateView, c: ConfigView)
    ensures
        ({
            let now = state::applied(st, c);
            &&& now.frontends == c.frontends
            &&& now.cors_section == c.allow_origins
            &&& now.cors_origins == config::origins_of(c)
            &&& now.logs == st.logs
            &&& now.config_path == st.config_path
            &&& now.listen == st.listen
        }),
{
}

/// A snapshot has the address, the CORS section and the frontends of the
/// state, each frontend in normal form.
pub proof fn law_snapshot_fields(st: StateView)
    requires
        st.frontends.len() > 0,
    ensures
        ({
            let c = state::snapshot(st);
            &&& c.listen == st.listen
            &&& c.allow_origins == st.cors_section
            &&& c.frontends.len() == st.frontends.len()
            &&& forall|i: int|
                0 <= i < st.frontends.len() ==> #[trigger] c.frontends[i]
                    == config::normal_frontend(st.frontends[i])
            &&& c.active_env.len() == 0 && c.envs.len() == 0 && c.rules.len() == 0
        }),
{
}

/// A snapshot is the normal form of what the state runs.
pub proof fn law_snapshot_is_normal_form(st: StateView, c: ConfigView)
    requires
        c.listen == st.listen,
        c.allow_origins == st.cors_section,
        c.frontends == st.frontends,
        c.active_env.len() == 0,
        c.envs.len() == 0,
        c.rules.len() == 0,
    ensures
        state::snapshot(st) == config::normalized(c),
{
    assert(c.active_env =~= Seq::<char>::empty());
    assert(c.envs =~= Seq::<(Seq<char>, EnvView)>::empty());
    assert(c.rules =~= Seq::<RuleView>::empty());
}

/// A new configuration is in force once it is written, and not before; a
/// reload puts what was loaded into force. Otherwise the state stays.
pub proof fn law_save_and_reload(
    st: StateView,
    c: ConfigView,
    outcome: SaveOutcome,
    source: ConfigSource,
)
    ensures
        outcome is Written ==> admin::after_save(st, c, outcome) == state::applied(st, c),
        !(outcome is Written) ==> admin::after_save(st, c, outcome) == st,
        config::load_result(st.config_path, source) matches Ok(n) ==> admin::after_reload(
            st,
            source,
        ) == state::applied(st, n),
        config::load_result(st.config_path, source) is Err ==> admin::after_reload(st, source)
            == st,
{
}

/// The configuration that stands in for a missing one: one frontend with one
/// environment, without rules, for the usual local origins.
pub proof fn law_standard_config()
    ensures
        ({
            let c = config::standard_config();
            let origins = seq![
                "http://localhost:5173"@,
                "http://127.0.0.1:5173"@,
                "http://localhost:3000"@,
                "http://127.0.0.1:3000"@,
                "http://localhost:8080"@,
            ];
            let f = c.frontends[0].1;
            &&& c.listen == "127.0.0.1:8787"@
            &&& c.allow_origins == origins
            &&& c.frontends.len() == 1 && c.frontends[0].0 == "default"@
            &&& f.label == "默认前端"@ && f.origins == origins && f.active_env == "default"@
            &&& !f.rewrite_cookies
            &&& f.envs.len() == 1 && f.envs[0].0 == "default"@
            &&& f.envs[0].1.label == "默认"@ && f.envs[0].1.rules.len() == 0
            &&& c.active_env.len() == 0 && c.envs.len() == 0 && c.rules.len() == 0
        }),
{
}

} // verus!
