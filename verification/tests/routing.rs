use axum::http::{HeaderMap, HeaderValue};
use rust_api::config::{Config, CorsConfig, EnvConfig, FrontendConfig, Rule};
use rust_api::proxy::{build_upstream_url, proxy_handler, refuse, route_request};
use rust_api::state::{
    extract_origin, find_best_rule, origin_from_url, path_matches, AppState, LogTime, RequestLog,
    ResolveError, LOG_CAPACITY,
};
use rust_api::table::Table;

fn rule(name: &str, prefix: &str, target: &str, strip: bool) -> Rule {
    Rule {
        name: name.to_string(),
        match_prefix: prefix.to_string(),
        target: target.to_string(),
        strip_prefix: strip,
        headers: Table::new(),
    }
}

fn frontend(origins: &[&str], active: &str, envs: Vec<(&str, Vec<Rule>)>) -> FrontendConfig {
    let mut table = Table::new();
    for (id, rules) in envs {
        table.insert(id.to_string(), EnvConfig { label: id.to_string(), rules });
    }
    FrontendConfig {
        label: "f".to_string(),
        origins: origins.iter().map(|s| s.to_string()).collect(),
        active_env: active.to_string(),
        envs: table,
        rewrite_cookies: false,
    }
}

fn state(list: Vec<(&str, FrontendConfig)>) -> AppState {
    let mut frontends = Table::new();
    for (id, fe) in list {
        frontends.insert(id.to_string(), fe);
    }
    let config = Config {
        listen: "127.0.0.1:8787".to_string(),
        cors: CorsConfig { allow_origins: vec![] },
        frontends,
        active_env: String::new(),
        envs: Table::new(),
        rules: vec![],
    };
    AppState::from_config(&config, "config.yaml".to_string())
}

fn two() -> AppState {
    state(vec![
        (
            "web",
            frontend(
                &["http://localhost:8080/", " http://127.0.0.1:8080"],
                "dev",
                vec![
                    (
                        "dev",
                        vec![
                            rule("all", "/", "http://all", false),
                            rule("api", "/api", "http://api", true),
                            rule("v1", "/api/v1", "http://v1", true),
                            rule("v1b", "/api/v1", "http://v1b", true),
                        ],
                    ),
                    ("prod", vec![rule("p", "/", "http://prod", false)]),
                ],
            ),
        ),
        ("app", frontend(&["http://localhost:5173"], "dev", vec![("dev", vec![])])),
    ])
}

fn headers(pairs: &[(&'static str, &str)]) -> HeaderMap {
    let mut m = HeaderMap::new();
    for (n, v) in pairs {
        m.append(*n, HeaderValue::from_bytes(v.as_bytes()).unwrap());
    }
    m
}

#[test]
fn prefixes_match_at_slashes() {
    assert!(path_matches("/anything", "/"));
    assert!(path_matches("", "/"));
    assert!(path_matches("/api", "/api"));
    assert!(path_matches("/api/x", "/api"));
    assert!(!path_matches("/apix", "/api"));
    assert!(!path_matches("/ap", "/api"));
    assert!(!path_matches("/api/x", "/api/"));
    assert!(path_matches("/api//x", "/api/"));
    assert!(path_matches("/中/文", "/中"));
}

#[test]
fn the_longest_prefix_wins_and_the_first_of_equals() {
    let rules = vec![
        rule("all", "/", "a", false),
        rule("api", "/api", "b", false),
        rule("v1", "/api/v1", "c", false),
        rule("v1b", "/api/v1", "d", false),
    ];
    let name = |p: &str| find_best_rule(&rules, p).map(|r| r.name);
    assert_eq!(name("/api/v1/x"), Some("v1".to_string()));
    assert_eq!(name("/api/v2"), Some("api".to_string()));
    assert_eq!(name("/other"), Some("all".to_string()));
    assert!(find_best_rule(&vec![rule("api", "/api", "b", false)], "/x").is_none());
}

#[test]
fn lengths_of_prefixes_are_counted_in_bytes() {
    let rules = vec![rule("wide", "/中", "a", false), rule("same", "/中", "b", false)];
    assert_eq!(find_best_rule(&rules, "/中").unwrap().name, "wide");
}

#[test]
fn a_request_belongs_to_the_frontend_of_its_origin() {
    let st = two();
    let (f, e, r) = st.resolve(Some("http://localhost:8080"), "/api/v1/x").unwrap();
    assert_eq!((f.as_str(), e.as_str(), r.name.as_str()), ("web", "dev", "v1"));
    let (f, _, r) = st.resolve(Some(" http://127.0.0.1:8080// "), "/x").unwrap();
    assert_eq!((f.as_str(), r.name.as_str()), ("web", "all"));
}

#[test]
fn requests_that_belong_nowhere() {
    let st = two();
    assert!(matches!(st.resolve(None, "/"), Err(ResolveError::MissingOrigin)));
    match st.resolve(Some("http://evil/ "), "/") {
        Err(ResolveError::UnknownOrigin(o)) => assert_eq!(o, "http://evil"),
        _ => panic!(),
    }
    match st.resolve(Some("http://localhost:5173"), "/x") {
        Err(ResolveError::NoRule(f, e, p)) => {
            assert_eq!((f.as_str(), e.as_str(), p.as_str()), ("app", "dev", "/x"))
        }
        _ => panic!(),
    }
    let lost = state(vec![("web", frontend(&[], "gone", vec![("dev", vec![])]))]);
    match lost.resolve(None, "/") {
        Err(ResolveError::NoEnv(f, e)) => assert_eq!((f.as_str(), e.as_str()), ("web", "gone")),
        _ => panic!(),
    }
}

#[test]
fn one_frontend_alone_needs_no_origin() {
    let st = state(vec![(
        "web",
        frontend(&["http://a"], "dev", vec![("dev", vec![rule("r", "/", "http://t", false)])]),
    )]);
    assert_eq!(st.resolve(None, "/x").unwrap().2.name, "r");
    assert!(matches!(st.resolve(Some("http://b"), "/x"), Err(ResolveError::UnknownOrigin(_))));
    let none = state(vec![]);
    assert!(matches!(none.resolve(None, "/"), Err(ResolveError::MissingOrigin)));
}

#[test]
fn of_two_frontends_with_an_origin_the_first_is_taken() {
    let st = state(vec![
        ("a", frontend(&["http://o"], "e", vec![("e", vec![rule("ra", "/", "t", false)])])),
        ("b", frontend(&["http://o"], "e", vec![("e", vec![rule("rb", "/", "t", false)])])),
    ]);
    assert_eq!(st.resolve(Some("http://o"), "/").unwrap().0, "a");
}

#[test]
fn origins_of_addresses() {
    let o = |s: &str| origin_from_url(s);
    assert_eq!(o("http://localhost:8080/a/b?c"), Some("http://localhost:8080".to_string()));
    assert_eq!(o("https://h?x=/y"), Some("https://h".to_string()));
    assert_eq!(o("https://h"), Some("https://h".to_string()));
    assert_eq!(o("http:///x"), None);
    assert_eq!(o("http://?x"), None);
    assert_eq!(o("ftp://h/"), None);
    assert_eq!(o(""), None);
}

#[test]
fn the_origin_header_comes_before_the_referer() {
    let o = |p: &[(&'static str, &str)]| extract_origin(&headers(p));
    assert_eq!(o(&[("origin", " http://a/ "), ("referer", "http://b/x")]), Some("http://a".to_string()));
    assert_eq!(o(&[("origin", "null"), ("referer", "http://b/x")]), Some("http://b".to_string()));
    assert_eq!(o(&[("origin", "  "), ("referer", "http://b/x")]), Some("http://b".to_string()));
    assert_eq!(o(&[("origin", "ü"), ("referer", "http://b/x")]), Some("http://b".to_string()));
    assert_eq!(o(&[("referer", "about:blank")]), None);
    assert_eq!(o(&[]), None);
    assert_eq!(o(&[("origin", "http://a"), ("origin", "http://c")]), Some("http://a".to_string()));
}

#[test]
fn upstream_addresses() {
    let u = build_upstream_url;
    assert_eq!(u("http://t", "/api/x", None, true, "/api"), "http://t/x");
    assert_eq!(u("http://t", "/api", None, true, "/api"), "http://t/");
    assert_eq!(u("http://t", "/api/x", None, false, "/api"), "http://t/api/x");
    assert_eq!(u("http://t", "/x", None, true, "/"), "http://t/x");
    assert_eq!(u("http://t", "//x", None, true, "/"), "http://t/x");
    assert_eq!(u("http://t", "/", None, true, "/"), "http://t/");
    assert_eq!(u("http://t", "/apix", None, true, "/api"), "http://t/apix");
    assert_eq!(u("http://t", "/other", None, true, "/api"), "http://t/other");
    assert_eq!(u("http://t", "/api/x", Some("a=1"), true, "/api"), "http://t/x?a=1");
    assert_eq!(u("http://t", "/api/x", Some(""), true, "/api"), "http://t/x");
}

#[test]
fn routes() {
    let st = two();
    let h = headers(&[("origin", "http://localhost:8080")]);
    let r = proxy_handler(&st, &h, "/api/v1/x", Some("q=1")).unwrap();
    assert_eq!(r.frontend, "web");
    assert_eq!(r.env, "dev");
    assert_eq!(r.rule.name, "v1");
    assert_eq!(r.url, "http://v1/x?q=1");
    assert_eq!(r.path, "/api/v1/x");
    assert_eq!(r.origin, "http://localhost:8080");
    assert!(r.origin_is_http);
    assert!(!r.rewrite_cookies);
    let alone = state(vec![(
        "web",
        frontend(&[], "dev", vec![("dev", vec![rule("r", "/", "http://t", false)])]),
    )]);
    let r = route_request(&alone, None, "/x", None).unwrap();
    assert_eq!(r.origin, "");
    assert!(!r.origin_is_http);
}

#[test]
fn refusals_say_why() {
    let st = two();
    let r = route_request(&st, None, "/x", None).unwrap_err();
    assert_eq!(r.status, 400);
    assert_eq!(r.error, "missing origin");
    assert_eq!(
        r.hint.as_deref(),
        Some("浏览器请求需带 Origin；推荐前端直连本代理；或仅配置一个前端后可用 curl")
    );
    assert_eq!(r.path.as_deref(), Some("/x"));
    assert!(r.origin.is_none() && r.frontend.is_none() && r.env.is_none());

    let r = route_request(&st, Some("http://evil/".to_string()), "/x", None).unwrap_err();
    assert_eq!(r.status, 403);
    assert_eq!(r.error, "unknown frontend origin");
    assert_eq!(r.origin.as_deref(), Some("http://evil"));
    assert_eq!(
        r.hint.as_deref(),
        Some("在管理台为该 Origin 新建前端并配置规则（注意 localhost 与 127.0.0.1 不同）")
    );
    assert_eq!(r.path.as_deref(), Some("/x"));

    let r = refuse(ResolveError::NoEnv("f".to_string(), "e".to_string()), "/x");
    assert_eq!(r.status, 500);
    assert_eq!(r.error, "active env missing");
    assert_eq!(r.frontend.as_deref(), Some("f"));
    assert_eq!(r.env.as_deref(), Some("e"));
    assert!(r.path.is_none() && r.hint.is_none());

    let r = route_request(&st, Some("http://localhost:5173".to_string()), "/x", None).unwrap_err();
    assert_eq!(r.status, 404);
    assert_eq!(r.error, "no matching proxy rule");
    assert_eq!(r.frontend.as_deref(), Some("app"));
    assert_eq!(r.env.as_deref(), Some("dev"));
    assert_eq!(r.path.as_deref(), Some("/x"));
}

fn entry(n: u64, frontend: &str, status: u16) -> RequestLog {
    RequestLog {
        time: LogTime { secs: 0, nanos: 0 },
        method: "GET".to_string(),
        path: "/".to_string(),
        target: "t".to_string(),
        status,
        duration_ms: n,
        rule: "r".to_string(),
        env: "e".to_string(),
        frontend: frontend.to_string(),
        origin: String::new(),
        req_preview: None,
        body_preview: Some("b".to_string()),
    }
}

fn numbers(list: &[RequestLog]) -> Vec<u64> {
    list.iter().map(|l| l.duration_ms).collect()
}

#[test]
fn the_log_keeps_the_newest_requests() {
    let mut st = state(vec![]);
    for n in 0..(LOG_CAPACITY as u64 + 7) {
        st.push_log(entry(n, "f", 200));
    }
    assert_eq!(LOG_CAPACITY, 500);
    assert_eq!(st.logs.len(), 500);
    assert_eq!(st.logs[0].duration_ms, 7);
    assert_eq!(st.logs[499].duration_ms, 506);
    assert_eq!(numbers(&st.recent_logs(3, None, None, None)), vec![506, 505, 504]);
}

#[test]
fn the_log_is_filtered() {
    let mut st = state(vec![]);
    st.push_log(entry(1, "a", 200));
    st.push_log(entry(2, "b", 404));
    st.push_log(entry(3, "a", 500));
    st.push_log(entry(4, "a", 404));
    assert_eq!(numbers(&st.recent_logs(10, Some("a"), None, None)), vec![4, 3, 1]);
    assert_eq!(numbers(&st.recent_logs(10, None, Some(404), Some(404))), vec![4, 2]);
    assert_eq!(numbers(&st.recent_logs(10, Some("a"), Some(300), None)), vec![4, 3]);
    assert_eq!(numbers(&st.recent_logs(2, None, None, Some(404))), vec![4, 2]);
    assert_eq!(numbers(&st.recent_logs(0, None, None, None)), Vec::<u64>::new());
    st.clear_logs(Some("a"));
    assert_eq!(numbers(&st.recent_logs(10, None, None, None)), vec![2]);
    assert!(st.recent_logs(10, Some("a"), None, None).is_empty());
    st.clear_logs(None);
    assert!(st.logs.is_empty());
}

#[test]
fn a_log_entry_is_copied_whole() {
    let e = entry(1, "a", 200);
    assert_eq!(format!("{:?}", e.clone()), format!("{e:?}"));
}
