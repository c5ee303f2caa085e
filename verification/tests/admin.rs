use axum::http::{HeaderMap, HeaderValue};
use rust_api::admin::{
    bad, clear_logs, create_env, create_frontend, default_limit, delete_env, delete_frontend,
    get_logs, get_rules, health, list_envs, list_frontends, probe_report, probe_rule, put_rules,
    reload_config, save_apply, set_active, update_frontend, ActiveBody, ClearLogsBody,
    CreateEnvBody, CreateFrontendBody, DeleteEnvBody, DeleteFrontendBody, FrontendQuery, LogsQuery,
    ProbeBody, ProbeDetail, ProbeOutcome, UpdateFrontendBody,
};
use rust_api::config::{
    Config, ConfigSource, CorsConfig, EnvConfig, FrontendConfig, Rule, SaveOutcome,
};
use rust_api::cors::{dynamic_cors, CorsDecision};
use rust_api::state::{AppState, LogTime, RequestLog};
use rust_api::table::Table;

fn s(x: &str) -> String {
    x.to_string()
}

fn rule(name: &str, prefix: &str, target: &str) -> Rule {
    Rule {
        name: s(name),
        match_prefix: s(prefix),
        target: s(target),
        strip_prefix: true,
        headers: Table::new(),
    }
}

fn state() -> AppState {
    let mut envs = Table::new();
    envs.insert(
        s("test"),
        EnvConfig { label: s(""), rules: vec![rule("t", "/", "http://test")] },
    );
    envs.insert(
        s("dev"),
        EnvConfig {
            label: s("开发"),
            rules: vec![rule("api", "/api", "http://api"), rule("all", "/", "http://all")],
        },
    );
    let mut one = Table::new();
    one.insert(s("only"), EnvConfig { label: s("O"), rules: vec![] });
    let mut frontends = Table::new();
    frontends.insert(
        s("web"),
        FrontendConfig {
            label: s("Web"),
            origins: vec![s("http://localhost:8080")],
            active_env: s("dev"),
            envs,
            rewrite_cookies: true,
        },
    );
    frontends.insert(
        s("app"),
        FrontendConfig {
            label: s("App"),
            origins: vec![s("http://localhost:5173")],
            active_env: s("only"),
            envs: one,
            rewrite_cookies: false,
        },
    );
    let config = Config {
        listen: s("127.0.0.1:8787"),
        cors: CorsConfig { allow_origins: vec![] },
        frontends,
        active_env: s(""),
        envs: Table::new(),
        rules: vec![],
    };
    AppState::from_config(&config, s("c.yaml"))
}

fn query(id: &str) -> FrontendQuery {
    FrontendQuery { frontend: Some(s(id)) }
}

fn new_frontend(id: &str, copy_from: Option<&str>) -> CreateFrontendBody {
    CreateFrontendBody {
        id: s(id),
        label: s(" "),
        origins: vec![s(" http://new/ "), s("/")],
        copy_from: copy_from.map(s),
    }
}

fn apply(st: &mut AppState, c: &Config) {
    assert!(save_apply(st, c, SaveOutcome::Written).is_ok());
}

fn shown<T: std::fmt::Debug>(x: &T) -> String {
    format!("{x:?}")
}

#[test]
fn bad_requests() {
    let e = bad(s("x"));
    assert_eq!((e.status, e.error.as_str()), (400, "x"));
}

#[test]
fn a_frontend_is_created() {
    let mut st = state();
    let (c, id) = create_frontend(&st, new_frontend(" new ", None)).unwrap();
    assert_eq!(id, "new");
    let fe = c.frontends.get("new").unwrap();
    assert_eq!(fe.label, "new");
    assert_eq!(fe.origins, vec![s("http://new")]);
    assert_eq!(fe.active_env, "default");
    assert_eq!(fe.envs.get("default").unwrap().label, "默认");
    assert!(!fe.rewrite_cookies);
    assert!(!st.frontends.contains_key("new"));
    apply(&mut st, &c);
    assert_eq!(st.frontends.len(), 3);
    assert!(st.cors_origins.contains(&s("http://new")));
}

#[test]
fn a_frontend_is_copied() {
    let st = state();
    let mut body = new_frontend("copy", Some(" web "));
    body.label = s(" C ");
    let (c, _) = create_frontend(&st, body).unwrap();
    let fe = c.frontends.get("copy").unwrap();
    assert_eq!(fe.label, "C");
    assert_eq!(fe.active_env, "dev");
    assert_eq!(fe.envs.len(), 2);
    assert_eq!(fe.envs.get("dev").unwrap().rules.len(), 2);
    assert!(fe.rewrite_cookies);
    assert_eq!(fe.origins, vec![s("http://new")]);
}

#[test]
fn frontends_that_are_not_created() {
    let st = state();
    let e = |b: CreateFrontendBody| create_frontend(&st, b).unwrap_err();
    assert_eq!(e(new_frontend(" ", None)).error, "前端 id 无效");
    assert_eq!(e(new_frontend("a/b", None)).error, "前端 id 无效");
    assert_eq!(e(new_frontend("web", None)).error, "前端 'web' 已存在");
    assert_eq!(e(new_frontend("x", Some("gone"))).error, "复制源前端 'gone' 不存在");
    assert_eq!(e(new_frontend("x", Some("gone"))).status, 400);
    assert!(create_frontend(&st, new_frontend("x", Some("  "))).is_ok());
}

#[test]
fn a_new_configuration_is_checked() {
    let mut st = state();
    st.listen = s("");
    let e = create_frontend(&st, new_frontend("x", None)).unwrap_err();
    assert_eq!((e.status, e.error.as_str()), (400, "listen 不能为空"));
}

#[test]
fn a_frontend_is_deleted() {
    let mut st = state();
    let c = delete_frontend(&st, DeleteFrontendBody { id: s(" app ") }).unwrap();
    assert_eq!(c.frontends.len(), 1);
    let e = delete_frontend(&st, DeleteFrontendBody { id: s("gone") }).unwrap_err();
    assert_eq!(e.error, "前端 'gone' 不存在");
    apply(&mut st, &c);
    let e = delete_frontend(&st, DeleteFrontendBody { id: s("web") }).unwrap_err();
    assert_eq!(e.error, "至少保留一个前端");
}

#[test]
fn deleting_undoes_creating() {
    let mut st = state();
    let before = shown(&st.snapshot_config().frontends);
    let (c, _) = create_frontend(&st, new_frontend("new", Some("web"))).unwrap();
    apply(&mut st, &c);
    let c = delete_frontend(&st, DeleteFrontendBody { id: s("new") }).unwrap();
    apply(&mut st, &c);
    assert_eq!(shown(&st.snapshot_config().frontends), before);
    assert!(!st.cors_origins.contains(&s("http://new")));
}

#[test]
fn a_frontend_is_changed() {
    let mut st = state();
    let body = UpdateFrontendBody {
        id: s(" web "),
        label: Some(s(" L ")),
        origins: Some(vec![s("http://z/"), s(" ")]),
        rewrite_cookies: Some(false),
    };
    let c = update_frontend(&st, body).unwrap();
    let fe = c.frontends.get("web").unwrap();
    assert_eq!(fe.label, "L");
    assert_eq!(fe.origins, vec![s("http://z")]);
    assert!(!fe.rewrite_cookies);
    assert_eq!(fe.active_env, "dev");
    apply(&mut st, &c);
    let mut h = HeaderMap::new();
    h.insert("origin", HeaderValue::from_static("http://z"));
    assert!(matches!(dynamic_cors(&st, "GET", &h), CorsDecision::Forward(Some(_))));

    let body = UpdateFrontendBody {
        id: s("web"),
        label: Some(s(" ")),
        origins: None,
        rewrite_cookies: None,
    };
    let c = update_frontend(&st, body).unwrap();
    assert_eq!(c.frontends.get("web").unwrap().label, "L");
    assert_eq!(c.frontends.get("web").unwrap().origins, vec![s("http://z")]);

    let body = UpdateFrontendBody { id: s("x"), label: None, origins: None, rewrite_cookies: None };
    assert_eq!(update_frontend(&st, body).unwrap_err().error, "前端 'x' 不存在");
}

#[test]
fn the_environment_in_force_is_switched() {
    let mut st = state();
    let body = ActiveBody { frontend: s(" web "), id: s(" test ") };
    let (c, (f, e)) = set_active(&st, body).unwrap();
    assert_eq!((f.as_str(), e.as_str()), ("web", "test"));
    apply(&mut st, &c);
    let (_, env, r) = st.resolve(Some("http://localhost:8080"), "/api").unwrap();
    assert_eq!((env.as_str(), r.name.as_str()), ("test", "t"));
    let e = set_active(&st, ActiveBody { frontend: s("x"), id: s("test") }).unwrap_err();
    assert_eq!(e.error, "前端 'x' 不存在");
    let e = set_active(&st, ActiveBody { frontend: s("web"), id: s("x") }).unwrap_err();
    assert_eq!(e.error, "环境 'x' 不存在");
}

fn new_env(id: &str, copy_from: Option<&str>) -> CreateEnvBody {
    CreateEnvBody { frontend: s("web"), id: s(id), label: s(""), copy_from: copy_from.map(s) }
}

#[test]
fn an_environment_is_created() {
    let st = state();
    let (c, id) = create_env(&st, new_env(" prod ", Some("dev"))).unwrap();
    assert_eq!(id, "prod");
    let fe = c.frontends.get("web").unwrap();
    assert_eq!(fe.envs.get("prod").unwrap().label, "prod");
    assert_eq!(fe.envs.get("prod").unwrap().rules.len(), 2);
    assert_eq!(fe.active_env, "dev");
    let (c, _) = create_env(&st, new_env("prod", None)).unwrap();
    assert!(c.frontends.get("web").unwrap().envs.get("prod").unwrap().rules.is_empty());
    let e = |b: CreateEnvBody| create_env(&st, b).unwrap_err().error;
    assert_eq!(e(new_env(" ", None)), "环境 id 不能为空");
    assert_eq!(e(new_env("dev", None)), "环境 'dev' 已存在");
    assert_eq!(e(new_env("x", Some("gone"))), "复制源环境 'gone' 不存在");
    let mut b = new_env("x", None);
    b.frontend = s("gone");
    assert_eq!(e(b), "前端 'gone' 不存在");
}

#[test]
fn an_environment_is_deleted() {
    let mut st = state();
    let del = |f: &str, e: &str| DeleteEnvBody { frontend: s(f), id: s(e) };
    assert_eq!(delete_env(&st, del("gone", "dev")).unwrap_err().error, "前端 'gone' 不存在");
    assert_eq!(delete_env(&st, del("app", "only")).unwrap_err().error, "至少保留一个环境");
    assert_eq!(
        delete_env(&st, del("web", "dev")).unwrap_err().error,
        "不能删除当前生效环境，请先切换"
    );
    assert_eq!(delete_env(&st, del("web", "x")).unwrap_err().error, "环境 'x' 不存在");
    let c = delete_env(&st, del("web", " test ")).unwrap();
    assert_eq!(c.frontends.get("web").unwrap().envs.len(), 1);
    let before = shown(&st.snapshot_config().frontends);
    let (c, _) = create_env(&st, new_env("prod", Some("dev"))).unwrap();
    apply(&mut st, &c);
    let c = delete_env(&st, del("web", "prod")).unwrap();
    apply(&mut st, &c);
    assert_eq!(shown(&st.snapshot_config().frontends), before);
}

#[test]
fn rules_that_are_put_are_shown() {
    let mut st = state();
    let (c, put) = put_rules(&st, query(" web "), vec![rule("n", "/n", "http://n//")]).unwrap();
    assert_eq!(put.frontend, "web");
    assert_eq!(put.active, "dev");
    assert_eq!(put.rules.len(), 1);
    assert_eq!(put.rules[0].target, "http://n");
    apply(&mut st, &c);
    let got = get_rules(&st, query("web")).unwrap();
    assert_eq!(got.frontend, "web");
    assert_eq!(got.active, "dev");
    assert_eq!(got.label, "Web");
    assert_eq!(got.origins, vec![s("http://localhost:8080")]);
    assert!(got.rewrite_cookies);
    assert_eq!(shown(&got.rules), shown(&put.rules));
    assert_eq!(st.frontends.get("web").unwrap().envs.get("test").unwrap().rules.len(), 1);
}

#[test]
fn rules_that_are_not_put() {
    let st = state();
    let e = put_rules(&st, FrontendQuery { frontend: None }, vec![]).unwrap_err();
    assert_eq!(e.error, "缺少 frontend 参数");
    assert_eq!(put_rules(&st, query(" "), vec![]).unwrap_err().error, "缺少 frontend 参数");
    assert_eq!(put_rules(&st, query("x"), vec![]).unwrap_err().error, "前端 'x' 不存在");
    let e = put_rules(&st, query("web"), vec![rule("", "/", "t")]).unwrap_err();
    assert_eq!(e.error, "前端 'web' / 环境 'dev' 规则 name 不能为空");
    assert_eq!(get_rules(&st, query("")).unwrap_err().error, "缺少 frontend 参数");
    assert_eq!(get_rules(&st, query("x")).unwrap_err().error, "前端 'x' 不存在");
}

#[test]
fn rules_of_a_missing_environment_are_none() {
    let mut st = state();
    let mut fe = st.frontends.get("web").unwrap().clone();
    fe.active_env = s("gone");
    st.frontends.insert(s("web"), fe);
    assert!(get_rules(&st, query("web")).unwrap().rules.is_empty());
    assert_eq!(list_frontends(&st)[1].rule_count, 0);
    let e = probe_rule(&st, probe("web", None, None, None)).unwrap_err();
    assert_eq!(e.error, "环境 'gone' 不存在");
}

#[test]
fn lists_are_sorted() {
    let st = state();
    let l = list_frontends(&st);
    assert_eq!(l.len(), 2);
    assert_eq!(l[0].id, "app");
    assert_eq!(l[1].id, "web");
    assert_eq!(l[1].label, "Web");
    assert_eq!(l[1].origins, vec![s("http://localhost:8080")]);
    assert_eq!(l[1].active_env, "dev");
    assert!(l[1].rewrite_cookies);
    assert_eq!((l[1].env_count, l[1].rule_count), (2, 2));
    let e = list_envs(&st, query("web")).unwrap();
    assert_eq!((e.frontend.as_str(), e.active.as_str()), ("web", "dev"));
    assert_eq!(e.envs.len(), 2);
    assert_eq!((e.envs[0].id.as_str(), e.envs[0].label.as_str(), e.envs[0].rule_count), ("dev", "开发", 2));
    assert_eq!((e.envs[1].id.as_str(), e.envs[1].label.as_str(), e.envs[1].rule_count), ("test", "test", 1));
    assert_eq!(list_envs(&st, query(" ")).unwrap_err().error, "缺少 frontend 参数");
    assert_eq!(list_envs(&st, query("x")).unwrap_err().error, "前端 'x' 不存在");
}

#[test]
fn the_health_of_the_proxy() {
    let h = health(&state());
    assert!(h.ok);
    assert_eq!(h.listen, "127.0.0.1:8787");
    assert_eq!(h.frontends, 2);
    assert_eq!(h.frontend_ids, vec![s("app"), s("web")]);
}

#[test]
fn a_failed_save_changes_nothing() {
    let mut st = state();
    let before = shown(&st);
    let (c, _) = create_frontend(&st, new_frontend("new", None)).unwrap();
    let e = save_apply(&mut st, &c, SaveOutcome::Unwritable(s("full"))).unwrap_err();
    assert_eq!((e.status, e.error.as_str()), (500, "写入配置失败 c.yaml: full"));
    let e = save_apply(&mut st, &c, SaveOutcome::Unserializable(s("x"))).unwrap_err();
    assert_eq!((e.status, e.error.as_str()), (500, "序列化配置失败: x"));
    assert_eq!(shown(&st), before);
}

#[test]
fn reloading() {
    let mut st = state();
    let before = shown(&st);
    let e = reload_config(&mut st, ConfigSource::Unreadable(s("gone"))).unwrap_err();
    assert_eq!((e.status, e.error.as_str()), (500, "读取配置失败 c.yaml: gone"));
    assert_eq!(shown(&st), before);
    assert!(reload_config(&mut st, ConfigSource::Parsed(Config::default())).is_ok());
    assert!(st.frontends.contains_key("default"));
    assert_eq!(st.frontends.len(), 1);
    assert_eq!(st.listen, "127.0.0.1:8787");
}

#[test]
fn reloading_what_was_saved_changes_nothing() {
    let mut st = state();
    let (c, _) = create_frontend(&st, new_frontend("new", None)).unwrap();
    apply(&mut st, &c);
    let before = (shown(&st.frontends), st.cors_origins.clone(), st.listen.clone());
    assert!(reload_config(&mut st, ConfigSource::Parsed(c.save())).is_ok());
    assert_eq!((shown(&st.frontends), st.cors_origins.clone(), st.listen.clone()), before);
    assert_eq!(st.cors_section, st.cors_origins);
}

fn entry(n: u64, frontend: &str) -> RequestLog {
    RequestLog {
        time: LogTime { secs: 0, nanos: 0 },
        method: s("GET"),
        path: s("/"),
        target: s("t"),
        status: 200,
        duration_ms: n,
        rule: s("r"),
        env: s("e"),
        frontend: s(frontend),
        origin: s(""),
        req_preview: None,
        body_preview: None,
    }
}

fn logs(limit: usize, frontend: Option<&str>) -> LogsQuery {
    LogsQuery { limit, frontend: frontend.map(s), status_min: None, status_max: None }
}

#[test]
fn log_entries_are_shown() {
    let mut st = state();
    for n in 0..300 {
        st.push_log(entry(n, if n % 2 == 0 { "web" } else { "app" }));
    }
    assert_eq!(default_limit(), 50);
    assert_eq!(get_logs(&st, logs(0, None)).len(), 1);
    assert_eq!(get_logs(&st, logs(1000, None)).len(), 200);
    assert_eq!(get_logs(&st, logs(default_limit(), Some("  "))).len(), 50);
    let web = get_logs(&st, logs(2, Some(" web ")));
    assert_eq!((web[0].duration_ms, web[1].duration_ms), (298, 296));
    let mut q = logs(10, None);
    q.status_min = Some(300);
    assert!(get_logs(&st, q).is_empty());
    let mut q = logs(10, None);
    q.status_max = Some(300);
    assert_eq!(get_logs(&st, q).len(), 10);
    clear_logs(&mut st, ClearLogsBody { frontend: Some(s(" web ")) });
    assert_eq!(st.logs.len(), 150);
    clear_logs(&mut st, ClearLogsBody { frontend: Some(s(" ")) });
    assert!(st.logs.is_empty());
}

fn probe(f: &str, name: Option<&str>, prefix: Option<&str>, path: Option<&str>) -> ProbeBody {
    ProbeBody {
        frontend: s(f),
        rule_name: name.map(s),
        match_prefix: prefix.map(s),
        path: path.map(s),
    }
}

#[test]
fn probes_are_planned() {
    let st = state();
    let p = probe_rule(&st, probe(" web ", None, None, None)).unwrap();
    assert_eq!(p.url, "http://api/");
    assert_eq!(p.rule, "api");
    assert_eq!(p.env, "dev");
    assert_eq!(p.frontend, "web");
    let p = probe_rule(&st, probe("web", Some(" all "), Some("/api"), Some(" /x "))).unwrap();
    assert_eq!((p.rule.as_str(), p.url.as_str()), ("all", "http://all/x"));
    let p = probe_rule(&st, probe("web", Some(" "), Some(" /api "), Some("/api/y"))).unwrap();
    assert_eq!((p.rule.as_str(), p.url.as_str()), ("api", "http://api/y"));
    let e = |b: ProbeBody| probe_rule(&st, b).unwrap_err().error;
    assert_eq!(e(probe("x", None, None, None)), "前端 'x' 不存在");
    assert_eq!(e(probe("web", Some("x"), None, None)), "未找到可探测的规则");
    assert_eq!(e(probe("web", None, Some("/x"), None)), "未找到可探测的规则");
    assert_eq!(e(probe("app", None, None, None)), "未找到可探测的规则");
}

#[test]
fn probes_are_reported() {
    let st = state();
    let plan = || probe_rule(&st, probe("web", None, None, None)).unwrap();
    let r = probe_report(plan(), 7, ProbeOutcome::Failed(s("refused")));
    assert!(!r.ok);
    assert_eq!((r.status, r.duration_ms), (0, 7));
    assert_eq!((r.url.as_str(), r.rule.as_str()), ("http://api/", "api"));
    assert_eq!((r.env.as_str(), r.frontend.as_str()), ("dev", "web"));
    assert!(matches!(r.detail, ProbeDetail::Error(e) if e == "refused"));
    let mut h = HeaderMap::new();
    h.insert("content-type", HeaderValue::from_static("text/plain"));
    let answered = |status: u16, headers: HeaderMap| {
        probe_report(plan(), 1, ProbeOutcome::Answered { status, headers, body: b" hi ".to_vec() })
    };
    let r = answered(499, h);
    assert!(r.ok);
    assert_eq!(r.status, 499);
    assert!(matches!(r.detail, ProbeDetail::BodyPreview(Some(p)) if p == "hi"));
    let mut h = HeaderMap::new();
    h.insert("content-type", HeaderValue::from_static("image/png"));
    let r = answered(500, h);
    assert!(!r.ok);
    assert!(matches!(r.detail, ProbeDetail::BodyPreview(None)));
}

#[test]
fn changes_leave_the_other_frontends_alone() {
    let st = state();
    let app = shown(st.snapshot_config().frontends.get("app").unwrap());
    let left = |c: &Config| {
        assert_eq!(shown(c.frontends.get("app").unwrap()), app);
        assert_eq!(c.listen, "127.0.0.1:8787");
        assert_eq!(c.cors.allow_origins, st.cors_section);
    };
    left(&create_frontend(&st, new_frontend("new", Some("web"))).unwrap().0);
    left(&delete_frontend(&st, DeleteFrontendBody { id: s("web") }).unwrap());
    left(&set_active(&st, ActiveBody { frontend: s("web"), id: s("test") }).unwrap().0);
    left(&create_env(&st, new_env("prod", None)).unwrap().0);
    left(&delete_env(&st, DeleteEnvBody { frontend: s("web"), id: s("test") }).unwrap());
    left(&put_rules(&st, query("web"), vec![rule("n", "/", "http://n/")]).unwrap().0);
}

fn give_origins(st: &mut AppState, id: &str, origins: &[&str]) {
    let body = UpdateFrontendBody {
        id: s(id),
        label: None,
        origins: Some(origins.iter().map(|o| s(o)).collect()),
        rewrite_cookies: None,
    };
    let c = update_frontend(st, body).unwrap();
    apply(st, &c);
}

#[test]
fn an_origin_that_was_taken_out_is_no_longer_allowed() {
    let mut st = state();
    give_origins(&mut st, "web", &["http://a"]);
    assert_eq!(st.cors_origins, vec![s("http://a"), s("http://localhost:5173")]);
    give_origins(&mut st, "web", &["http://b"]);
    assert_eq!(st.cors_origins, vec![s("http://b"), s("http://localhost:5173")]);
    let mut h = HeaderMap::new();
    h.insert("origin", HeaderValue::from_static("http://a"));
    assert!(matches!(dynamic_cors(&st, "GET", &h), CorsDecision::Forward(None)));
    h.insert("origin", HeaderValue::from_static("http://b"));
    assert!(matches!(dynamic_cors(&st, "GET", &h), CorsDecision::Forward(Some(_))));
}

#[test]
fn an_origin_that_is_asked_for_elsewhere_stays_allowed() {
    let mut st = state();
    give_origins(&mut st, "web", &["http://localhost:5173"]);
    give_origins(&mut st, "web", &[]);
    assert_eq!(st.cors_origins, vec![s("http://localhost:5173")]);
    st.cors_section = vec![s(" http://c ")];
    give_origins(&mut st, "app", &["http://c"]);
    give_origins(&mut st, "app", &[]);
    assert_eq!(st.cors_origins, vec![s("http://c")]);
}
