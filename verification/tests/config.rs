use rust_api::config::{
    default_active_env, default_origins, save_result, Config, ConfigSource, CorsConfig, EnvConfig,
    FrontendConfig, Rule, SaveOutcome,
};
use rust_api::state::{AppState, ResolveError};
use rust_api::table::Table;

fn strings(list: &[&str]) -> Vec<String> {
    list.iter().map(|s| s.to_string()).collect()
}

fn rule(name: &str, prefix: &str, target: &str) -> Rule {
    Rule {
        name: name.to_string(),
        match_prefix: prefix.to_string(),
        target: target.to_string(),
        strip_prefix: false,
        headers: Table::new(),
    }
}

fn envs(list: Vec<(&str, &str, Vec<Rule>)>) -> Table<EnvConfig> {
    let mut t = Table::new();
    for (id, label, rules) in list {
        t.insert(id.to_string(), EnvConfig { label: label.to_string(), rules });
    }
    t
}

fn frontend(label: &str, origins: &[&str], active: &str, envs: Table<EnvConfig>) -> FrontendConfig {
    FrontendConfig {
        label: label.to_string(),
        origins: strings(origins),
        active_env: active.to_string(),
        envs,
        rewrite_cookies: false,
    }
}

fn config(allow: &[&str], list: Vec<(&str, FrontendConfig)>) -> Config {
    let mut frontends = Table::new();
    for (id, fe) in list {
        frontends.insert(id.to_string(), fe);
    }
    Config {
        listen: "127.0.0.1:8787".to_string(),
        cors: CorsConfig { allow_origins: strings(allow) },
        frontends,
        active_env: String::new(),
        envs: Table::new(),
        rules: Vec::new(),
    }
}

fn sample() -> Config {
    config(
        &[],
        vec![(
            "web8080",
            frontend(
                "本地8080",
                &["http://localhost:8080", "http://127.0.0.1:8080"],
                "dev",
                envs(vec![("dev", "开发", vec![rule("api", "/api", "http://172.20.127.168:8885")])]),
            ),
        )],
    )
}

fn shown<T: std::fmt::Debug>(x: &T) -> String {
    format!("{x:?}")
}

#[test]
fn the_standard_configuration() {
    let c = Config::default();
    assert_eq!(c.listen, "127.0.0.1:8787");
    assert_eq!(c.cors.allow_origins, default_origins());
    assert_eq!(c.frontends.len(), 1);
    let fe = c.frontends.get("default").unwrap();
    assert_eq!(fe.label, "默认前端");
    assert_eq!(fe.origins, default_origins());
    assert_eq!(fe.active_env, default_active_env());
    assert!(!fe.rewrite_cookies);
    let env = fe.envs.get("default").unwrap();
    assert_eq!(env.label, "默认");
    assert!(env.rules.is_empty());
    assert_eq!(
        default_origins(),
        strings(&[
            "http://localhost:5173",
            "http://127.0.0.1:5173",
            "http://localhost:3000",
            "http://127.0.0.1:3000",
            "http://localhost:8080",
        ])
    );
}

#[test]
fn empty_sections() {
    let fe = FrontendConfig::default();
    assert!(fe.label.is_empty() && fe.origins.is_empty() && fe.active_env.is_empty());
    assert!(fe.envs.is_empty() && !fe.rewrite_cookies);
    let env = EnvConfig::default();
    assert!(env.label.is_empty() && env.rules.is_empty());
    assert_eq!(CorsConfig::default().allow_origins, default_origins());
}

#[test]
fn the_standard_configuration_is_loaded_unchanged() {
    let got = Config::load("config.yaml", ConfigSource::Parsed(Config::default())).unwrap();
    assert_eq!(shown(&got), shown(&Config::default()));
}

#[test]
fn a_written_configuration_is_loaded_unchanged() {
    let got = Config::load("config.yaml", ConfigSource::Parsed(sample())).unwrap();
    assert_eq!(shown(&got), shown(&sample()));
}

#[test]
fn the_older_form_becomes_one_frontend() {
    let mut c = config(&["http://a/"], vec![]);
    c.rules = vec![rule("api", "/api", "http://x")];
    c.normalize().unwrap();
    assert_eq!(c.frontends.len(), 1);
    let fe = c.frontends.get("default").unwrap();
    assert_eq!(fe.label, "默认前端");
    assert_eq!(fe.origins, strings(&["http://a"]));
    assert_eq!(fe.active_env, "default");
    assert_eq!(fe.envs.get("default").unwrap().label, "默认");
    assert_eq!(fe.envs.get("default").unwrap().rules[0].name, "api");
    assert!(c.rules.is_empty() && c.envs.is_empty() && c.active_env.is_empty());
    assert_eq!(c.cors.allow_origins, strings(&["http://a/"]));
}

#[test]
fn the_older_form_keeps_its_environments() {
    let mut c = config(&[], vec![]);
    c.active_env = "test".to_string();
    c.envs = envs(vec![("dev", "", vec![]), ("test", "T", vec![rule("r", "/", "http://x")])]);
    c.rules = vec![rule("lost", "/", "http://y")];
    c.normalize().unwrap();
    let fe = c.frontends.get("default").unwrap();
    assert_eq!(fe.active_env, "test");
    assert_eq!(fe.envs.len(), 2);
    assert_eq!(fe.envs.get("dev").unwrap().label, "dev");
    assert_eq!(fe.envs.get("test").unwrap().rules.len(), 1);
    assert!(c.rules.is_empty());
}

#[test]
fn the_older_form_names_its_environment_after_the_active_one() {
    let mut c = config(&[], vec![]);
    c.active_env = "prod".to_string();
    c.normalize().unwrap();
    let fe = c.frontends.get("default").unwrap();
    assert_eq!(fe.active_env, "prod");
    assert!(fe.envs.contains_key("prod"));
}

#[test]
fn what_is_missing_is_filled_in() {
    let mut c = config(
        &[],
        vec![
            ("a", frontend(" ", &[" http://a// "], "", Table::new())),
            ("b", frontend("B", &[], "gone", envs(vec![("x", "\t", vec![]), ("y", "Y", vec![])]))),
        ],
    );
    c.normalize().unwrap();
    let a = c.frontends.get("a").unwrap();
    assert_eq!(a.label, "a");
    assert_eq!(a.origins, strings(&["http://a"]));
    assert_eq!(a.active_env, "default");
    assert_eq!(a.envs.get("default").unwrap().label, "默认");
    let b = c.frontends.get("b").unwrap();
    assert_eq!(b.label, "B");
    assert_eq!(b.active_env, "x");
    assert_eq!(b.envs.get("x").unwrap().label, "x");
    assert_eq!(b.envs.get("y").unwrap().label, "Y");
}

#[test]
fn normal_form_is_reached_at_once() {
    let mut c = config(&["http://z/"], vec![("a", frontend("", &[" http://a/ "], "", Table::new()))]);
    c.normalize().unwrap();
    let once = shown(&c);
    c.normalize().unwrap();
    assert_eq!(shown(&c), once);
}

#[test]
fn normal_form_takes_two_steps_for_space_before_a_slash() {
    let mut c = config(&[], vec![("a", frontend("", &["http://a /"], "", Table::new()))]);
    c.normalize().unwrap();
    assert_eq!(c.frontends.get("a").unwrap().origins, strings(&["http://a "]));
    c.normalize().unwrap();
    assert_eq!(c.frontends.get("a").unwrap().origins, strings(&["http://a"]));
}

#[test]
fn the_check_takes_slashes_off_targets() {
    let mut c = sample();
    let mut fe = c.frontends.get("web8080").unwrap().clone();
    fe.envs = envs(vec![("dev", "", vec![rule("api", "/api", "http://x//"), rule("b", "/", "y/")])]);
    c.frontends.insert("web8080".to_string(), fe);
    assert!(c.validate().is_ok());
    let rules = &c.frontends.get("web8080").unwrap().envs.get("dev").unwrap().rules;
    assert_eq!(rules[0].target, "http://x");
    assert_eq!(rules[1].target, "y");
    let once = shown(&c);
    assert!(c.validate().is_ok());
    assert_eq!(shown(&c), once);
}

fn fault(rules: Vec<Rule>) -> (String, Config) {
    let mut c = config(&[], vec![("w", frontend("W", &[], "dev", envs(vec![("dev", "D", rules)])))]);
    let e = c.validate().unwrap_err();
    (e, c)
}

#[test]
fn the_check_names_the_first_fault() {
    let mut c = sample();
    c.listen = " ".to_string();
    assert_eq!(c.validate().unwrap_err(), "listen 不能为空");

    let mut c = config(&[], vec![]);
    assert_eq!(c.validate().unwrap_err(), "至少需要一个前端");

    let mut c = config(&[], vec![("w", frontend("W", &[], "dev", Table::new()))]);
    assert_eq!(c.validate().unwrap_err(), "前端 'w' 至少需要一个环境");

    let mut c = config(&[], vec![("w", frontend("W", &[], "x", envs(vec![("dev", "", vec![])])))]);
    assert_eq!(c.validate().unwrap_err(), "前端 'w' 的 active_env 'x' 不存在");

    assert_eq!(fault(vec![rule(" ", "/", "t")]).0, "前端 'w' / 环境 'dev' 规则 name 不能为空");
    assert_eq!(
        fault(vec![rule("r", "api", "t")]).0,
        "前端 'w' / 环境 'dev' 规则 'r' 的 match_prefix 必须以 / 开头"
    );
    assert_eq!(
        fault(vec![rule("r", "", "t")]).0,
        "前端 'w' / 环境 'dev' 规则 'r' 的 match_prefix 必须以 / 开头"
    );
    assert_eq!(fault(vec![rule("r", "/", "  ")]).0, "前端 'w' / 环境 'dev' 规则 'r' 的 target 不能为空");
}

#[test]
fn what_stands_before_a_fault_is_trimmed_already() {
    let (e, c) = fault(vec![rule("a", "/", "t/"), rule("", "/", "u/"), rule("c", "/", "v/")]);
    assert_eq!(e, "前端 'w' / 环境 'dev' 规则 name 不能为空");
    let rules = &c.frontends.get("w").unwrap().envs.get("dev").unwrap().rules;
    assert_eq!(rules[0].target, "t");
    assert_eq!(rules[1].target, "u/");
    assert_eq!(rules[2].target, "v/");
}

#[test]
fn a_target_of_slashes_passes_once_only() {
    let mut c = config(
        &[],
        vec![("w", frontend("W", &[], "dev", envs(vec![("dev", "D", vec![rule("r", "/", "//")])])))],
    );
    assert!(c.validate().is_ok());
    assert_eq!(c.frontends.get("w").unwrap().envs.get("dev").unwrap().rules[0].target, "");
    assert!(c.validate().is_err());
}

#[test]
fn allowed_origins_are_gathered_once_each() {
    let c = config(
        &[" http://a ", "", "http://b", "http://a"],
        vec![
            ("x", frontend("", &["http://b", "http://c"], "", Table::new())),
            ("y", frontend("", &["  ", "http://d", " http://c"], "", Table::new())),
        ],
    );
    assert_eq!(c.all_origins(), strings(&["http://a", "http://b", "http://c", "http://d"]));
}

#[test]
fn saving_merges_origins_and_drops_the_older_form() {
    let mut c = sample();
    c.cors.allow_origins = strings(&["http://z"]);
    c.active_env = "x".to_string();
    c.rules = vec![rule("r", "/", "t")];
    c.envs = envs(vec![("x", "", vec![])]);
    let out = c.save();
    assert_eq!(
        out.cors.allow_origins,
        strings(&["http://z", "http://localhost:8080", "http://127.0.0.1:8080"])
    );
    assert!(out.active_env.is_empty() && out.envs.is_empty() && out.rules.is_empty());
    assert_eq!(shown(&out.frontends), shown(&c.frontends));
    assert_eq!(out.all_origins(), c.all_origins());
}

#[test]
fn what_was_saved_is_loaded_again() {
    let c = Config::load("c.yaml", ConfigSource::Parsed(sample())).unwrap();
    let again = Config::load("c.yaml", ConfigSource::Parsed(c.save())).unwrap();
    assert_eq!(shown(&again), shown(&c.save()));
    assert_eq!(shown(&again.frontends), shown(&c.frontends));
    assert_eq!(again.all_origins(), c.all_origins());
}

#[test]
fn loading_says_what_went_wrong() {
    let e = Config::load("c.yaml", ConfigSource::Unreadable("gone".to_string())).unwrap_err();
    assert_eq!(e, "读取配置失败 c.yaml: gone");
    let e = Config::load("c.yaml", ConfigSource::Unparsable("line 1".to_string())).unwrap_err();
    assert_eq!(e, "解析配置失败 c.yaml: line 1");
    let mut c = sample();
    c.listen = String::new();
    let e = Config::load("c.yaml", ConfigSource::Parsed(c)).unwrap_err();
    assert_eq!(e, "listen 不能为空");
}

#[test]
fn saving_says_what_went_wrong() {
    assert!(save_result("c.yaml", SaveOutcome::Written).is_ok());
    assert_eq!(
        save_result("c.yaml", SaveOutcome::Unserializable("x".to_string())).unwrap_err(),
        "序列化配置失败: x"
    );
    assert_eq!(
        save_result("c.yaml", SaveOutcome::Unwritable("full".to_string())).unwrap_err(),
        "写入配置失败 c.yaml: full"
    );
}

#[test]
fn the_state_runs_its_configuration() {
    let c = Config::load("c.yaml", ConfigSource::Parsed(sample())).unwrap();
    let mut st = AppState::from_config(&Config::default(), "c.yaml".to_string());
    assert_eq!(st.config_path, "c.yaml");
    assert_eq!(st.cors_origins, default_origins());
    assert!(st.logs.is_empty());
    st.apply_config(&c);
    let now = st.snapshot_config();
    assert_eq!(shown(&now.frontends), shown(&c.frontends));
    assert_eq!(now.cors.allow_origins, c.cors.allow_origins);
    assert_eq!(st.cors_section, c.cors.allow_origins);
    assert_eq!(st.cors_origins, c.all_origins());
    assert_eq!(now.listen, "127.0.0.1:8787");
}

#[test]
fn copies_are_the_same() {
    let c = sample();
    assert_eq!(shown(&c.clone()), shown(&c));
    let fe = c.frontends.get("web8080").unwrap();
    assert_eq!(shown(&fe.clone()), shown(fe));
    assert_eq!(shown(&c.cors.clone()), shown(&c.cors));
    let env = fe.envs.get("dev").unwrap();
    assert_eq!(shown(&env.clone()), shown(env));
}

#[test]
fn what_is_loaded_has_an_environment_in_force() {
    let broken = config(&[], vec![("a", frontend("", &["http://a"], "gone", Table::new()))]);
    let c = Config::load("c.yaml", ConfigSource::Parsed(broken)).unwrap();
    let st = AppState::from_config(&c, "c.yaml".to_string());
    assert!(matches!(st.resolve(Some("http://a"), "/"), Err(ResolveError::NoRule(_, _, _))));
}
