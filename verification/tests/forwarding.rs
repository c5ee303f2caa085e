use axum::http::{HeaderMap, HeaderName, HeaderValue};
use rust_api::config::{Config, CorsConfig, EnvConfig, FrontendConfig, Rule};
use rust_api::cors::{dynamic_cors, grant_cors, inject_cors, CorsDecision, CorsGrant};
use rust_api::headers::HEADER_NAMES_MAX;
use rust_api::proxy::{
    body_preview, body_unreadable, finish_proxy, is_hop_by_hop, join_preview, log_entry,
    prepare_upstream, reply_to, request_preview, reqwest_headers_from_axum,
    response_headers, rewrite_set_cookie, text_preview, upstream_headers, upstream_method,
    wants_preview, ProxyReply, Route, UpstreamOutcome, CONNECT_TIMEOUT_SECS, PREVIEWED_BODY_MAX,
    PREVIEW_MAX, REQUEST_BODY_MAX, REQUEST_TIMEOUT_SECS,
};
use rust_api::state::{AppState, LogTime};
use rust_api::table::Table;

fn headers(pairs: &[(&str, &str)]) -> HeaderMap {
    let mut m = HeaderMap::new();
    for (n, v) in pairs {
        m.append(
            HeaderName::from_bytes(n.as_bytes()).unwrap(),
            HeaderValue::from_bytes(v.as_bytes()).unwrap(),
        );
    }
    m
}

fn values(m: &HeaderMap, name: &str) -> Vec<String> {
    m.get_all(name).iter().map(|v| String::from_utf8_lossy(v.as_bytes()).into_owned()).collect()
}

fn crowded(n: usize) -> HeaderMap {
    let mut m = HeaderMap::new();
    for i in 0..n {
        m.insert(
            HeaderName::from_bytes(format!("x-{i}").as_bytes()).unwrap(),
            HeaderValue::from_static("v"),
        );
    }
    m
}

fn rule(extra: &[(&str, &str)]) -> Rule {
    let mut table = Table::new();
    for (k, v) in extra {
        table.insert(k.to_string(), v.to_string());
    }
    Rule {
        name: "api".to_string(),
        match_prefix: "/api".to_string(),
        target: "http://t".to_string(),
        strip_prefix: true,
        headers: table,
    }
}

fn route(extra: &[(&str, &str)], rewrite_cookies: bool) -> Route {
    Route {
        frontend: "web".to_string(),
        env: "dev".to_string(),
        rule: rule(extra),
        url: "http://t/x".to_string(),
        path: "/api/x".to_string(),
        origin: "http://localhost:8080".to_string(),
        origin_is_http: true,
        rewrite_cookies,
    }
}

fn state(allow: &[&str]) -> AppState {
    let mut envs = Table::new();
    envs.insert("dev".to_string(), EnvConfig { label: String::new(), rules: vec![] });
    let mut frontends = Table::new();
    frontends.insert(
        "web".to_string(),
        FrontendConfig {
            label: String::new(),
            origins: vec!["http://localhost:8080".to_string()],
            active_env: "dev".to_string(),
            envs,
            rewrite_cookies: false,
        },
    );
    let config = Config {
        listen: "127.0.0.1:8787".to_string(),
        cors: CorsConfig { allow_origins: allow.iter().map(|s| s.to_string()).collect() },
        frontends,
        active_env: String::new(),
        envs: Table::new(),
        rules: vec![],
    };
    AppState::from_config(&config, "config.yaml".to_string())
}

#[test]
fn limits() {
    assert_eq!(PREVIEW_MAX, 8000);
    assert_eq!(PREVIEWED_BODY_MAX, 262_144);
    assert_eq!(REQUEST_BODY_MAX, 67_108_864);
    assert_eq!(CONNECT_TIMEOUT_SECS, 10);
    assert_eq!(REQUEST_TIMEOUT_SECS, 30);
}

#[test]
fn hop_by_hop_headers() {
    for n in [
        "connection",
        "keep-alive",
        "proxy-authenticate",
        "proxy-authorization",
        "te",
        "trailers",
        "transfer-encoding",
        "upgrade",
        "host",
        "content-length",
        "Host",
        "TE",
    ] {
        assert!(is_hop_by_hop(n), "{n}");
    }
    for n in ["accept", "set-cookie", "content-type", "hos", ""] {
        assert!(!is_hop_by_hop(n), "{n}");
    }
}

#[test]
fn headers_of_the_connection_stay_behind() {
    let h = headers(&[
        ("host", "localhost"),
        ("connection", "close"),
        ("accept", "a"),
        ("accept", "b"),
        ("x-raw", "ü"),
    ]);
    let out = upstream_headers(&h, &rule(&[])).unwrap();
    assert_eq!(out.len(), 2);
    assert_eq!(values(&out, "accept"), vec!["b"]);
    assert_eq!(values(&out, "x-raw"), vec!["ü"]);
}

#[test]
fn rule_headers_are_set_on_top() {
    let h = headers(&[("accept", "a"), ("x-a", "1")]);
    let extra = [("X-A", "2"), ("Host", "h"), ("bad name", "v"), ("x-b", "bad\nvalue"), ("x-c", "ü"), ("x-a", "3")];
    let out = upstream_headers(&h, &rule(&extra)).unwrap();
    assert_eq!(values(&out, "x-a"), vec!["3"]);
    assert_eq!(values(&out, "host"), vec!["h"]);
    assert_eq!(values(&out, "x-c"), vec!["ü"]);
    assert_eq!(values(&out, "accept"), vec!["a"]);
    assert_eq!(out.len(), 4);
}

fn sent(name: &str, value: &str) -> HeaderMap {
    upstream_headers(&HeaderMap::new(), &rule(&[(name, value)])).unwrap()
}

#[test]
fn header_names_are_tokens() {
    for c in (0u8..=127).map(|b| b as char) {
        let name = format!("x{c}");
        let out = sent(name.as_str(), "v");
        let token = c.is_ascii_alphanumeric() || "!#$%&'*+-.^_`|~".contains(c);
        assert_eq!(out.len() == 1, token, "{c:?}");
    }
    assert!(sent("", "v").is_empty());
    assert!(sent("é", "v").is_empty());
    let long = "a".repeat(65535);
    assert_eq!(sent(&long, "v").len(), 1);
    let longer = "a".repeat(65536);
    assert!(sent(&longer, "v").is_empty());
}

#[test]
fn header_values_hold_no_control_bytes() {
    for c in (0u8..=127).map(|b| b as char) {
        let value = format!("v{c}");
        let out = sent("x", value.as_str());
        assert_eq!(out.len() == 1, c == '\t' || !c.is_ascii_control(), "{c:?}");
    }
}

#[test]
fn the_hand_over_keeps_one_value_of_each() {
    let h = headers(&[("x-a", "1"), ("x-a", "2"), ("x-b", "3"), ("host", "h")]);
    let out = reqwest_headers_from_axum(&h).unwrap();
    assert_eq!(values(&out, "x-a"), vec!["2"]);
    assert_eq!(values(&out, "x-b"), vec!["3"]);
    assert_eq!(values(&out, "host"), vec!["h"]);
}

#[test]
fn methods_that_can_be_sent() {
    assert_eq!(upstream_method("POST"), "POST");
    assert_eq!(upstream_method("x-custom!"), "x-custom!");
    assert_eq!(upstream_method(""), "GET");
    assert_eq!(upstream_method("A B"), "GET");
    assert_eq!(upstream_method("É"), "GET");
    let long = "M".repeat(100);
    assert_eq!(upstream_method(&long), long);
}

#[test]
fn cookies_are_adapted() {
    let r = rewrite_set_cookie;
    assert_eq!(
        r("sid=1; Domain=.example.com; Path=/; Secure; HttpOnly", true),
        "sid=1; Path=/; HttpOnly"
    );
    assert_eq!(r("sid=1;domain=x;SECURE", false), "sid=1; SECURE");
    assert_eq!(r("Domain=1; Domain=2", true), "Domain=1");
    assert_eq!(r(" ; ;a=b ;; c ", true), "a=b; c");
    assert_eq!(r("secure; a", true), "a");
    assert_eq!(r("secure; domain=x; a", true), "a");
    assert_eq!(r("", true), "");
    assert_eq!(r("a; domain", true), "a; domain");
    assert_eq!(r("a; secure=1", true), "a; secure=1");
}

#[test]
fn adapting_a_cookie_again_changes_nothing() {
    for v in ["sid=1; Domain=x; Secure; Path=/", "secure; Domain=x; b", ";;", "a;b;c"] {
        for http in [true, false] {
            let once = rewrite_set_cookie(v, http);
            assert_eq!(rewrite_set_cookie(&once, http), once);
        }
    }
}

#[test]
fn answers_come_back_without_the_headers_of_their_connection() {
    let h = headers(&[
        ("transfer-encoding", "chunked"),
        ("content-type", "text/html"),
        ("x-a", "1"),
        ("x-a", "2"),
        ("set-cookie", "a=1; Domain=x"),
        ("set-cookie", "ü=1"),
        ("set-cookie", "b=2; Secure"),
    ]);
    let plain = response_headers(&h, false, true).unwrap();
    assert_eq!(values(&plain, "set-cookie"), vec!["a=1; Domain=x", "b=2; Secure"]);
    assert_eq!(values(&plain, "x-a"), vec!["2"]);
    assert_eq!(values(&plain, "content-type"), vec!["text/html"]);
    assert!(plain.get("transfer-encoding").is_none());
    let adapted = response_headers(&h, true, true).unwrap();
    assert_eq!(values(&adapted, "set-cookie"), vec!["a=1", "b=2"]);
    let kept = response_headers(&h, true, false).unwrap();
    assert_eq!(values(&kept, "set-cookie"), vec!["a=1", "b=2; Secure"]);
    let none = response_headers(&headers(&[("x", "y")]), true, true).unwrap();
    assert!(none.get("set-cookie").is_none());
}

#[test]
fn previews_of_texts() {
    assert_eq!(text_preview("  "), None);
    assert_eq!(text_preview(" a "), Some("a".to_string()));
    let exact = "中".repeat(8000);
    assert_eq!(text_preview(&exact), Some(exact.clone()));
    let more = "中".repeat(8001);
    assert_eq!(text_preview(&more), Some(format!("{exact}…")));
}

#[test]
fn bodies_that_are_shown() {
    assert!(wants_preview(None, 1));
    assert!(wants_preview(Some(""), 1));
    assert!(wants_preview(Some("Application/JSON; charset=utf-8"), 262_144));
    assert!(wants_preview(Some("text/plain"), 1));
    assert!(wants_preview(Some("image/svg+xml"), 1));
    assert!(wants_preview(Some("application/javascript"), 1));
    assert!(wants_preview(Some("application/x-www-form-urlencoded"), 1));
    assert!(!wants_preview(Some("image/png"), 1));
    assert!(!wants_preview(Some("text/plain"), 0));
    assert!(!wants_preview(Some("text/plain"), 262_145));
    assert_eq!(body_preview(None, b" {} "), Some("{}".to_string()));
    assert_eq!(body_preview(Some("image/png"), b"x"), None);
    assert_eq!(body_preview(None, b""), None);
    assert_eq!(body_preview(None, b" \n"), None);
    assert_eq!(body_preview(None, "ü".as_bytes()), Some("ü".to_string()));
    assert_eq!(body_preview(None, b"a\xffb"), Some("a\u{fffd}b".to_string()));
}

#[test]
fn previews_of_requests() {
    assert_eq!(request_preview(None, None, b""), None);
    assert_eq!(request_preview(Some(" "), None, b""), None);
    assert_eq!(request_preview(Some(" a=1 "), None, b""), Some("?a=1".to_string()));
    assert_eq!(request_preview(Some("a=1"), None, b"{}"), Some("?a=1\n{}".to_string()));
    assert_eq!(request_preview(None, None, b"{}"), Some("{}".to_string()));
    assert_eq!(join_preview(Some("q"), Some("b".to_string())), Some("?q\nb".to_string()));
}

#[test]
fn what_is_sent_upstream() {
    let h = headers(&[("content-type", "image/png"), ("host", "h"), ("accept", "a")]);
    let out = prepare_upstream(&route(&[("x-a", "1")], false), "PUT", Some("q=1"), &h, b"body").unwrap();
    assert_eq!(out.method, "PUT");
    assert_eq!(out.url, "http://t/x");
    assert_eq!(out.req_preview, Some("?q=1".to_string()));
    assert_eq!(out.body, b"body");
    assert_eq!(values(&out.headers, "x-a"), vec!["1"]);
    assert_eq!(values(&out.headers, "accept"), vec!["a"]);
    assert!(out.headers.get("host").is_none());
    let h = headers(&[("content-type", "text/plain")]);
    let out = prepare_upstream(&route(&[], false), "A B", None, &h, b"body").unwrap();
    assert_eq!(out.method, "GET");
    assert_eq!(out.req_preview, Some("body".to_string()));
}

#[test]
fn the_body_is_sent_as_it_came() {
    let all: Vec<u8> = (0..=255).cycle().take(300_000).collect();
    let out = prepare_upstream(&route(&[], false), "POST", None, &HeaderMap::new(), &all).unwrap();
    assert_eq!(out.body, all);
    assert_eq!(out.req_preview, None);
}

/// The given headers, and as many more as a header map takes.
fn filled(first: &[(&str, &str)]) -> HeaderMap {
    let mut m = headers(first);
    for i in 0.. {
        let name = HeaderName::from_bytes(format!("x-{i}").as_bytes()).unwrap();
        if m.try_insert(name, HeaderValue::from_static("v")).is_err() {
            break;
        }
    }
    m
}

#[test]
fn header_maps_take_many_names() {
    let many = crowded(HEADER_NAMES_MAX + 3000);
    let out = prepare_upstream(&route(&[("x", "y")], false), "GET", None, &many, b"").unwrap();
    assert_eq!(out.headers.len(), HEADER_NAMES_MAX + 3001);
    assert_eq!(response_headers(&many, true, true).unwrap().len(), HEADER_NAMES_MAX + 3000);
}

#[test]
fn full_header_maps_take_no_more() {
    let full = filled(&[]);
    let out = prepare_upstream(&route(&[], false), "GET", None, &full, b"").unwrap();
    assert_eq!(out.headers.len(), full.len());
    assert!(prepare_upstream(&route(&[("y", "z")], false), "GET", None, &full, b"").is_none());
    assert!(upstream_headers(&full, &rule(&[("y", "z")])).is_none());
}

fn finish(st: &mut AppState, rewrite: bool, outcome: UpstreamOutcome) -> Option<ProxyReply> {
    let time = LogTime { secs: 5, nanos: 6 };
    finish_proxy(st, &route(&[], rewrite), "GET", Some("?q".to_string()), time, 12, outcome)
}

#[test]
fn an_answer_is_logged_and_sent_back() {
    let mut st = state(&[]);
    let outcome = UpstreamOutcome::Answered {
        status: 201,
        headers: headers(&[("content-type", "text/plain"), ("set-cookie", "a=1; Domain=x; Secure")]),
        body: b"hello".to_vec(),
    };
    match finish(&mut st, true, outcome).unwrap() {
        ProxyReply::Forwarded { status, headers, body } => {
            assert_eq!(status, 201);
            assert_eq!(body, b"hello");
            assert_eq!(values(&headers, "set-cookie"), vec!["a=1"]);
        }
        _ => panic!(),
    }
    assert_eq!(st.logs.len(), 1);
    let l = &st.logs[0];
    assert_eq!(l.time, LogTime { secs: 5, nanos: 6 });
    assert_eq!(l.method, "GET");
    assert_eq!(l.path, "/api/x");
    assert_eq!(l.target, "http://t/x");
    assert_eq!(l.status, 201);
    assert_eq!(l.duration_ms, 12);
    assert_eq!(l.rule, "api");
    assert_eq!(l.env, "dev");
    assert_eq!(l.frontend, "web");
    assert_eq!(l.origin, "http://localhost:8080");
    assert_eq!(l.req_preview.as_deref(), Some("?q"));
    assert_eq!(l.body_preview.as_deref(), Some("hello"));
}

#[test]
fn failures_are_logged_and_answered() {
    let mut st = state(&[]);
    match finish(&mut st, false, UpstreamOutcome::Unreachable("no route".to_string())).unwrap() {
        ProxyReply::Failed(e) => {
            assert_eq!(e.status, 502);
            assert_eq!(e.error, "上游请求失败: no route");
        }
        _ => panic!(),
    }
    match finish(&mut st, false, UpstreamOutcome::Broken("cut".to_string())).unwrap() {
        ProxyReply::Failed(e) => {
            assert_eq!(e.status, 502);
            assert_eq!(e.error, "读取上游响应失败: cut");
        }
        _ => panic!(),
    }
    assert_eq!(st.logs[0].status, 502);
    assert_eq!(st.logs[0].body_preview.as_deref(), Some("上游错误: no route"));
    assert_eq!(st.logs[1].status, 502);
    assert_eq!(st.logs[1].body_preview, None);
}

#[test]
fn an_answer_with_too_many_headers_is_logged_only() {
    let mut st = state(&[]);
    let headers = filled(&[("set-cookie", "a=1"), ("set-cookie", "b=2")]);
    let outcome = UpstreamOutcome::Answered { status: 200, headers, body: vec![] };
    assert!(finish(&mut st, false, outcome).is_none());
    assert_eq!(st.logs.len(), 1);
}

#[test]
fn the_pieces_of_finishing() {
    let r = route(&[], false);
    let time = LogTime { secs: 0, nanos: 0 };
    let outcome = UpstreamOutcome::Broken("x".to_string());
    let l = log_entry(&r, "GET", None, time, 1, &outcome);
    assert_eq!((l.status, l.req_preview, l.body_preview), (502, None, None));
    assert!(matches!(reply_to(&r, outcome), Some(ProxyReply::Failed(_))));
}

#[test]
fn a_body_that_cannot_be_read() {
    let e = body_unreadable("length limit exceeded");
    assert_eq!(e.status, 400);
    assert_eq!(e.error, "读取请求体失败: length limit exceeded");
}

/// The headers of a preflight.
fn asking(origin: &str) -> HeaderMap {
    headers(&[("origin", origin), ("access-control-request-method", "GET")])
}

#[test]
fn preflights_of_allowed_origins() {
    let st = state(&[" http://a "]);
    let h = headers(&[
        ("origin", "http://a"),
        ("access-control-request-method", "POST"),
        ("access-control-request-headers", "x-one,x-two"),
    ]);
    match dynamic_cors(&st, "OPTIONS", &h) {
        CorsDecision::Preflight { status, headers } => {
            assert_eq!(status, 204);
            assert_eq!(values(&headers, "access-control-allow-origin"), vec!["http://a"]);
            assert_eq!(values(&headers, "access-control-allow-credentials"), vec!["true"]);
            assert_eq!(values(&headers, "vary"), vec!["Origin"]);
            assert_eq!(
                values(&headers, "access-control-allow-methods"),
                vec!["GET,POST,PUT,PATCH,DELETE,OPTIONS,HEAD"]
            );
            assert_eq!(values(&headers, "access-control-allow-headers"), vec!["x-one,x-two"]);
            assert_eq!(values(&headers, "access-control-expose-headers"), vec!["content-disposition"]);
            assert_eq!(values(&headers, "access-control-max-age"), vec!["86400"]);
            assert_eq!(headers.len(), 7);
        }
        _ => panic!(),
    }
}

#[test]
fn preflights_of_other_origins_get_no_grant() {
    let st = state(&["http://a"]);
    match dynamic_cors(&st, "OPTIONS", &asking("http://b")) {
        CorsDecision::Preflight { status, headers } => {
            assert_eq!(status, 204);
            assert!(headers.is_empty());
        }
        _ => panic!(),
    }
}

#[test]
fn preflights_that_ask_for_no_headers_get_the_usual_ones() {
    let st = state(&["http://a"]);
    match dynamic_cors(&st, "OPTIONS", &asking("http://a")) {
        CorsDecision::Preflight { headers, .. } => assert_eq!(
            values(&headers, "access-control-allow-headers"),
            vec!["authorization,content-type,accept,x-requested-with,cookie,origin"]
        ),
        _ => panic!(),
    }
}

#[test]
fn preflights_without_an_origin_name_none() {
    let st = state(&["http://a"]);
    let h = headers(&[("access-control-request-method", "GET")]);
    assert!(matches!(dynamic_cors(&st, "OPTIONS", &h), CorsDecision::Forward(None)));
    assert!(matches!(dynamic_cors(&st, "OPTIONS", &HeaderMap::new()), CorsDecision::Forward(None)));
}

#[test]
fn options_requests_that_are_no_preflights_go_on() {
    let st = state(&["http://a"]);
    match dynamic_cors(&st, "OPTIONS", &headers(&[("origin", "http://a")])) {
        CorsDecision::Forward(Some(g)) => assert_eq!(g.origin.as_deref(), Some("http://a")),
        _ => panic!(),
    }
    assert!(matches!(
        dynamic_cors(&st, "OPTIONS", &headers(&[("origin", "http://b")])),
        CorsDecision::Forward(None)
    ));
    assert!(matches!(dynamic_cors(&st, "POST", &asking("http://a")), CorsDecision::Forward(Some(_))));
}

#[test]
fn the_star_allows_all_without_credentials() {
    let st = state(&["*"]);
    match dynamic_cors(&st, "OPTIONS", &asking("http://b")) {
        CorsDecision::Preflight { headers, .. } => {
            assert_eq!(values(&headers, "access-control-allow-origin"), vec!["*"]);
            assert!(headers.get("access-control-allow-credentials").is_none());
            assert!(headers.get("vary").is_none());
        }
        _ => panic!(),
    }
}

#[test]
fn other_requests_go_on() {
    let st = state(&["http://a"]);
    match dynamic_cors(&st, "GET", &headers(&[("origin", "http://localhost:8080")])) {
        CorsDecision::Forward(Some(g)) => {
            assert_eq!(g.origin.as_deref(), Some("http://localhost:8080"));
            assert!(!g.allow_any);
            let mut answer = headers(&[("vary", "Accept"), ("x", "y")]);
            assert!(grant_cors(&mut answer, &g));
            assert_eq!(values(&answer, "vary"), vec!["Origin"]);
            assert_eq!(
                values(&answer, "access-control-allow-origin"),
                vec!["http://localhost:8080"]
            );
            assert_eq!(values(&answer, "x"), vec!["y"]);
        }
        _ => panic!(),
    }
    assert!(matches!(
        dynamic_cors(&st, "GET", &headers(&[("origin", "http://b")])),
        CorsDecision::Forward(None)
    ));
    assert!(matches!(dynamic_cors(&st, "GET", &HeaderMap::new()), CorsDecision::Forward(None)));
    assert!(matches!(
        dynamic_cors(&st, "options", &HeaderMap::new()),
        CorsDecision::Forward(None)
    ));
}

#[test]
fn a_grant_needs_room() {
    let g = CorsGrant { origin: Some("http://a".to_string()), allow_any: false };
    let mut full = filled(&[("y", "1"), ("y", "2")]);
    let n = full.len();
    assert!(!grant_cors(&mut full, &g));
    assert_eq!(full.len(), n);
    assert_eq!(values(&full, "y"), vec!["1", "2"]);
    let mut near = crowded(HEADER_NAMES_MAX - 7);
    assert!(grant_cors(&mut near, &g));
    assert_eq!(near.len(), HEADER_NAMES_MAX);
}

#[test]
fn an_origin_that_cannot_be_a_header_is_not_named() {
    let mut m = HeaderMap::new();
    assert!(inject_cors(&mut m, &Some("a\nb".to_string()), false, None));
    assert!(m.get("access-control-allow-origin").is_none());
    assert_eq!(m.len(), 4);
}

#[test]
fn names_that_cannot_be_parsed_are_passed_over() {
    let mut h = headers(&[("x-a", "1"), ("set-cookie", "a=1")]);
    h.insert(HeaderName::from_static("a\"b"), HeaderValue::from_static("2"));
    assert_eq!(h.len(), 3);
    let names = |m: &HeaderMap| {
        let mut n: Vec<String> = m.keys().map(|k| k.as_str().to_string()).collect();
        n.sort();
        n
    };
    let both = vec!["set-cookie".to_string(), "x-a".to_string()];
    assert_eq!(names(&upstream_headers(&h, &rule(&[])).unwrap()), both);
    assert_eq!(names(&reqwest_headers_from_axum(&h).unwrap()), both);
    assert_eq!(names(&response_headers(&h, false, true).unwrap()), both);
    let out = prepare_upstream(&route(&[("a\"b", "3")], false), "GET", None, &h, b"").unwrap();
    assert_eq!(names(&out.headers), both);
    let outcome = UpstreamOutcome::Answered { status: 200, headers: h.clone(), body: vec![] };
    match finish(&mut state(&[]), true, outcome).unwrap() {
        ProxyReply::Forwarded { headers, .. } => assert_eq!(names(&headers), both),
        _ => panic!(),
    }
    let g = CorsGrant { origin: None, allow_any: true };
    assert!(grant_cors(&mut h, &g));
    assert_eq!(h.len(), 8);
    assert!(matches!(dynamic_cors(&state(&[]), "GET", &h), CorsDecision::Forward(None)));
}
