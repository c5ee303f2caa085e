//! The configuration: frontends, their environments and rules, how it is
//! brought into normal form, checked, and kept on disk.

use crate::laws::fields;
use crate::table;
use crate::table::Table;
use crate::text;
use crate::text::Duplicate;
use vstd::prelude::*;
use vstd::string::*;

verus! {

broadcast use vstd::string::group_string_axioms;

// ---------------------------------------------------------------------------
// Types
// ---------------------------------------------------------------------------

/// One forwarding rule.
#[derive(Debug)]
pub struct Rule {
    pub name: String,
    pub match_prefix: String,
    pub target: String,
    /// Whether `match_prefix` is taken off the path before it is forwarded.
    pub strip_prefix: bool,
    /// Headers set on every request that the rule forwards.
    pub headers: Table<String>,
}

/// One backend environment of a frontend.
#[derive(Debug)]
pub struct EnvConfig {
    pub label: String,
    pub rules: Vec<Rule>,
}

/// One frontend, told apart by the origins of its requests.
#[derive(Debug)]
pub struct FrontendConfig {
    pub label: String,
    pub origins: Vec<String>,
    /// The environment in force.
    pub active_env: String,
    pub envs: Table<EnvConfig>,
    /// Whether `Set-Cookie` of the upstream is adapted to local use.
    pub rewrite_cookies: bool,
}

#[derive(Debug)]
pub struct CorsConfig {
    pub allow_origins: Vec<String>,
}

/// The whole configuration. The last three fields hold the older form, with
/// one unnamed frontend.
#[derive(Debug)]
pub struct Config {
    pub listen: String,
    pub cors: CorsConfig,
    pub frontends: Table<FrontendConfig>,
    pub active_env: String,
    pub envs: Table<EnvConfig>,
    pub rules: Vec<Rule>,
}

/// What came of reading the configuration file.
#[derive(Debug)]
pub enum ConfigSource {
    Unreadable(String),
    Unparsable(String),
    Parsed(Config),
}

/// What came of writing the configuration file.
#[derive(Debug)]
pub enum SaveOutcome {
    Written,
    Unserializable(String),
    Unwritable(String),
}

// ---------------------------------------------------------------------------
// Models
// ---------------------------------------------------------------------------

#[verifier::ext_equal]
pub struct RuleView {
    pub name: Seq<char>,
    pub match_prefix: Seq<char>,
    pub target: Seq<char>,
    pub strip_prefix: bool,
    pub headers: Seq<(Seq<char>, Seq<char>)>,
}

#[verifier::ext_equal]
pub struct EnvView {
    pub label: Seq<char>,
    pub rules: Seq<RuleView>,
}

#[verifier::ext_equal]
pub struct FrontendView {
    pub label: Seq<char>,
    pub origins: Seq<Seq<char>>,
    pub active_env: Seq<char>,
    pub envs: Seq<(Seq<char>, EnvView)>,
    pub rewrite_cookies: bool,
}

#[verifier::ext_equal]
pub struct ConfigView {
    pub listen: Seq<char>,
    pub allow_origins: Seq<Seq<char>>,
    pub frontends: Seq<(Seq<char>, FrontendView)>,
    pub active_env: Seq<char>,
    pub envs: Seq<(Seq<char>, EnvView)>,
    pub rules: Seq<RuleView>,
}

impl View for Rule {
    type V = RuleView;

    open spec fn view(&self) -> RuleView {
        RuleView {
            name: self.name@,
            match_prefix: self.match_prefix@,
            target: self.target@,
            strip_prefix: self.strip_prefix,
            headers: self.headers@,
        }
    }
}

impl View for EnvConfig {
    type V = EnvView;

    open spec fn view(&self) -> EnvView {
        EnvView { label: self.label@, rules: text::views(self.rules@) }
    }
}

impl View for FrontendConfig {
    type V = FrontendView;

    open spec fn view(&self) -> FrontendView {
        FrontendView {
            label: self.label@,
            origins: text::views(self.origins@),
            active_env: self.active_env@,
            envs: self.envs@,
            rewrite_cookies: self.rewrite_cookies,
        }
    }
}

impl View for CorsConfig {
    type V = Seq<Seq<char>>;

    open spec fn view(&self) -> Seq<Seq<char>> {
        text::views(self.allow_origins@)
    }
}

impl View for Config {
    type V = ConfigView;

    open spec fn view(&self) -> ConfigView {
        ConfigView {
            listen: self.listen@,
            allow_origins: self.cors@,
            frontends: self.frontends@,
            active_env: self.active_env@,
            envs: self.envs@,
            rules: text::views(self.rules@),
        }
    }
}

// ---------------------------------------------------------------------------
// Copies and defaults
// ---------------------------------------------------------------------------

impl Duplicate for Rule {
    fn duplicate(&self) -> (r: Self) {
        Rule {
            name: self.name.clone(),
            match_prefix: self.match_prefix.clone(),
            target: self.target.clone(),
            strip_prefix: self.strip_prefix,
            headers: self.headers.duplicate(),
        }
    }
}

impl Duplicate for EnvConfig {
    fn duplicate(&self) -> (r: Self) {
        EnvConfig { label: self.label.clone(), rules: text::duplicate_all(&self.rules) }
    }
}

impl Duplicate for FrontendConfig {
    fn duplicate(&self) -> (r: Self) {
        FrontendConfig {
            label: self.label.clone(),
            origins: text::duplicate_all(&self.origins),
            active_env: self.active_env.clone(),
            envs: self.envs.duplicate(),
            rewrite_cookies: self.rewrite_cookies,
        }
    }
}

impl Duplicate for CorsConfig {
    fn duplicate(&self) -> (r: Self) {
        CorsConfig { allow_origins: text::duplicate_all(&self.allow_origins) }
    }
}

impl Duplicate for Config {
    fn duplicate(&self) -> (r: Self) {
        Config {
            listen: self.listen.clone(),
            cors: self.cors.duplicate(),
            frontends: self.frontends.duplicate(),
            active_env: self.active_env.clone(),
            envs: self.envs.duplicate(),
            rules: text::duplicate_all(&self.rules),
        }
    }
}

impl Clone for Rule {
    fn clone(&self) -> (r: Self)
        ensures
            r@ == self@,
    {
        self.duplicate()
    }
}

impl Clone for EnvConfig {
    fn clone(&self) -> (r: Self)
        ensures
            r@ == self@,
    {
        self.duplicate()
    }
}

impl Clone for FrontendConfig {
    fn clone(&self) -> (r: Self)
        ensures
            r@ == self@,
    {
        self.duplicate()
    }
}

impl Clone for CorsConfig {
    fn clone(&self) -> (r: Self)
        ensures
            r@ == self@,
    {
        self.duplicate()
    }
}

impl Clone for Config {
    fn clone(&self) -> (r: Self)
        ensures
            r@ == self@,
    {
        self.duplicate()
    }
}

/// The origins that are allowed where the configuration names none.
pub open spec fn standard_origins() -> Seq<Seq<char>> {
    seq![
        "http://localhost:5173"@,
        "http://127.0.0.1:5173"@,
        "http://localhost:3000"@,
        "http://127.0.0.1:3000"@,
        "http://localhost:8080"@,
    ]
}

/// A single environment named `id`, without a name of its own.
pub open spec fn lone_env(id: Seq<char>, rules: Seq<RuleView>) -> Seq<(Seq<char>, EnvView)> {
    seq![(id, EnvView { label: "默认"@, rules })]
}

/// A single frontend of the standard name.
pub open spec fn lone_frontend(
    origins: Seq<Seq<char>>,
    active_env: Seq<char>,
    envs: Seq<(Seq<char>, EnvView)>,
) -> Seq<(Seq<char>, FrontendView)> {
    seq![
        (
            "default"@,
            FrontendView {
                label: "默认前端"@,
                origins,
                active_env,
                envs,
                rewrite_cookies: false,
            },
        ),
    ]
}

/// The configuration that is used where none can be loaded.
pub open spec fn standard_config() -> ConfigView {
    ConfigView {
        listen: "127.0.0.1:8787"@,
        allow_origins: standard_origins(),
        frontends: lone_frontend(
            standard_origins(),
            "default"@,
            lone_env("default"@, Seq::<RuleView>::empty()),
        ),
        active_env: Seq::<char>::empty(),
        envs: Seq::<(Seq<char>, EnvView)>::empty(),
        rules: Seq::<RuleView>::empty(),
    }
}

/// The environment of a frontend that names none.
pub fn default_active_env() -> (r: String)
    ensures
        r@ == "default"@,
{
    "default".to_string()
}

pub fn default_origins() -> (r: Vec<String>)
    ensures
        text::views(r@) == standard_origins(),
{
    let mut out: Vec<String> = Vec::new();
    out.push("http://localhost:5173".to_string());
    out.push("http://127.0.0.1:5173".to_string());
    out.push("http://localhost:3000".to_string());
    out.push("http://127.0.0.1:3000".to_string());
    out.push("http://localhost:8080".to_string());
    assert(text::views(out@) =~= standard_origins());
    out
}

/// The table of one environment with the given rules.
pub(crate) fn single_env(id: String, rules: Vec<Rule>) -> (r: Table<EnvConfig>)
    ensures
        r@ == lone_env(id@, text::views(rules@)),
{
    let mut envs: Table<EnvConfig> = Table::new();
    let ghost rules_view = text::views(rules@);
    envs.insert(id, EnvConfig { label: "默认".to_string(), rules });
    assert(envs@ =~= lone_env(id@, rules_view));
    envs
}

/// The table of one frontend of the standard name.
fn single_frontend(origins: Vec<String>, active_env: String, envs: Table<EnvConfig>) -> (r: Table<
    FrontendConfig,
>)
    ensures
        r@ == lone_frontend(text::views(origins@), active_env@, envs@),
{
    let mut frontends: Table<FrontendConfig> = Table::new();
    let fe = FrontendConfig {
        label: "默认前端".to_string(),
        origins,
        active_env,
        envs,
        rewrite_cookies: false,
    };
    let ghost fe_view = fe@;
    frontends.insert("default".to_string(), fe);
    assert(frontends@ =~= seq![("default"@, fe_view)]);
    frontends
}

impl Default for CorsConfig {
    fn default() -> (r: Self)
        ensures
            r@ == standard_origins(),
    {
        CorsConfig { allow_origins: default_origins() }
    }
}

impl Default for EnvConfig {
    fn default() -> (r: Self)
        ensures
            r@ == (EnvView { label: Seq::<char>::empty(), rules: Seq::<RuleView>::empty() }),
    {
        let r = EnvConfig { label: String::new(), rules: Vec::new() };
        assert(r@.rules =~= Seq::<RuleView>::empty());
        r
    }
}

impl Default for FrontendConfig {
    fn default() -> (r: Self)
        ensures
            r@ == (FrontendView {
                label: Seq::<char>::empty(),
                origins: Seq::<Seq<char>>::empty(),
                active_env: Seq::<char>::empty(),
                envs: Seq::<(Seq<char>, EnvView)>::empty(),
                rewrite_cookies: false,
            }),
    {
        let r = FrontendConfig {
            label: String::new(),
            origins: Vec::new(),
            active_env: String::new(),
            envs: Table::new(),
            rewrite_cookies: false,
        };
        assert(r@.origins =~= Seq::<Seq<char>>::empty());
        r
    }
}

impl Default for Config {
    fn default() -> (r: Self)
        ensures
            r@ == standard_config(),
    {
        let rules: Vec<Rule> = Vec::new();
        assert(text::views(rules@) =~= Seq::<RuleView>::empty());
        let envs = single_env("default".to_string(), rules);
        let r = Config {
            listen: "127.0.0.1:8787".to_string(),
            cors: CorsConfig::default(),
            frontends: single_frontend(default_origins(), "default".to_string(), envs),
            active_env: String::new(),
            envs: Table::new(),
            rules: Vec::new(),
        };
        assert(r@.rules =~= Seq::<RuleView>::empty());
        r
    }
}

// ---------------------------------------------------------------------------
// Normal form
// ---------------------------------------------------------------------------

/// `label`, or `id` where the label is blank.
pub open spec fn label_or(label: Seq<char>, id: Seq<char>) -> Seq<char> {
    if text::is_blank(label) {
        id
    } else {
        label
    }
}

pub open spec fn normal_env(e: (Seq<char>, EnvView)) -> (Seq<char>, EnvView) {
    (e.0, EnvView { label: label_or(e.1.label, e.0), ..e.1 })
}

/// At least one environment.
pub open spec fn some_envs(envs: Seq<(Seq<char>, EnvView)>) -> Seq<(Seq<char>, EnvView)> {
    if envs.len() == 0 {
        lone_env("default"@, Seq::<RuleView>::empty())
    } else {
        envs
    }
}

/// The environment in force: the one asked for where it exists and is not
/// blank, else the first.
pub open spec fn normal_active(active: Seq<char>, envs: Seq<(Seq<char>, EnvView)>) -> Seq<char> {
    if text::is_blank(active) || !table::has_key(envs, active) {
        envs[0].0
    } else {
        active
    }
}

pub open spec fn normal_frontend(e: (Seq<char>, FrontendView)) -> (Seq<char>, FrontendView) {
    let envs = some_envs(e.1.envs);
    (
        e.0,
        FrontendView {
            label: label_or(e.1.label, e.0),
            origins: e.1.origins.map_values(|o: Seq<char>| text::tidy(o)),
            active_env: normal_active(e.1.active_env, envs),
            envs: envs.map_values(|x: (Seq<char>, EnvView)| normal_env(x)),
            rewrite_cookies: e.1.rewrite_cookies,
        },
    )
}

/// The older form turned into one frontend.
pub open spec fn migrated(c: ConfigView) -> ConfigView {
    let active = if text::is_blank(c.active_env) {
        "default"@
    } else {
        c.active_env
    };
    let envs = if c.envs.len() == 0 {
        lone_env(active, c.rules)
    } else {
        c.envs
    };
    ConfigView {
        frontends: lone_frontend(c.allow_origins, active, envs),
        active_env: Seq::<char>::empty(),
        envs: Seq::<(Seq<char>, EnvView)>::empty(),
        rules: Seq::<RuleView>::empty(),
        ..c
    }
}

/// The configuration in normal form.
pub open spec fn normalized(c: ConfigView) -> ConfigView {
    let m = if c.frontends.len() == 0 {
        migrated(c)
    } else {
        c
    };
    ConfigView {
        frontends: m.frontends.map_values(|e: (Seq<char>, FrontendView)| normal_frontend(e)),
        ..m
    }
}

/// Fills in the blank labels of environments.
fn normalize_envs(envs: &mut Table<EnvConfig>)
    ensures
        final(envs)@ == old(envs)@.map_values(|x: (Seq<char>, EnvView)| normal_env(x)),
{
    let ghost before = envs@;
    let n: usize = envs.len();
    let mut i: usize = 0;
    while i < n
        invariant
            i <= n == before.len(),
            envs@.len() == n,
            forall|j: int| 0 <= j < i ==> envs@[j] == normal_env(before[j]),
            forall|j: int| i <= j < n ==> envs@[j] == before[j],
        decreases n - i,
    {
        let mut env = envs.value_at(i).clone();
        if text::blank(env.label.as_str()) {
            env.label = envs.key_at(i).clone();
        }
        envs.set_at(i, env);
        i = i + 1;
    }
    assert(envs@ =~= before.map_values(|x: (Seq<char>, EnvView)| normal_env(x)));
}

/// Brings one frontend into normal form.
fn normalize_frontend(id: &String, fe: &FrontendConfig) -> (r: FrontendConfig)
    ensures
        r@ == normal_frontend((id@, fe@)).1,
{
    let label = if text::blank(fe.label.as_str()) {
        id.clone()
    } else {
        fe.label.clone()
    };
    let mut envs = fe.envs.duplicate();
    if envs.is_empty() {
        let none: Vec<Rule> = Vec::new();
        assert(text::views(none@) =~= Seq::<RuleView>::empty());
        envs = single_env("default".to_string(), none);
    }
    let active_env = if text::blank(fe.active_env.as_str()) || !envs.contains_key(
        fe.active_env.as_str(),
    ) {
        envs.key_at(0).clone()
    } else {
        fe.active_env.clone()
    };
    normalize_envs(&mut envs);
    FrontendConfig {
        label,
        origins: text::tidy_all(&fe.origins),
        active_env,
        envs,
        rewrite_cookies: fe.rewrite_cookies,
    }
}

// ---------------------------------------------------------------------------
// Checking
// ---------------------------------------------------------------------------

/// How a message names an environment of a frontend.
pub open spec fn env_place(fid: Seq<char>, eid: Seq<char>) -> Seq<char> {
    "前端 '"@ + fid + "' / 环境 '"@ + eid + "' 规则 "@
}

/// What is wrong with a rule, where anything is.
pub open spec fn rule_fault(fid: Seq<char>, eid: Seq<char>, r: RuleView) -> Option<Seq<char>> {
    if text::is_blank(r.name) {
        Some(env_place(fid, eid) + "name 不能为空"@)
    } else if !(r.match_prefix.len() > 0 && r.match_prefix[0] == '/') {
        Some(env_place(fid, eid) + "'"@ + r.name + "' 的 match_prefix 必须以 / 开头"@)
    } else if text::is_blank(r.target) {
        Some(env_place(fid, eid) + "'"@ + r.name + "' 的 target 不能为空"@)
    } else {
        None
    }
}

/// The rule with no slash at the end of its target.
pub open spec fn trimmed_rule(r: RuleView) -> RuleView {
    RuleView { target: text::without_trailing(r.target, '/'), ..r }
}

/// Goes through rules in order: those before the first faulty one get their
/// targets trimmed, the others stay; with the first fault.
pub open spec fn rules_pass(fid: Seq<char>, eid: Seq<char>, rules: Seq<RuleView>) -> (
    Seq<RuleView>,
    Option<Seq<char>>,
)
    decreases rules.len(),
{
    if rules.len() == 0 {
        (Seq::<RuleView>::empty(), None)
    } else {
        let before = rules_pass(fid, eid, rules.drop_last());
        let fault = rule_fault(fid, eid, rules.last());
        if before.1 is Some {
            (before.0.push(rules.last()), before.1)
        } else if fault is Some {
            (before.0.push(rules.last()), fault)
        } else {
            (before.0.push(trimmed_rule(rules.last())), None)
        }
    }
}

/// Goes through environments in order, up to the first fault.
pub open spec fn envs_pass(fid: Seq<char>, envs: Seq<(Seq<char>, EnvView)>) -> (
    Seq<(Seq<char>, EnvView)>,
    Option<Seq<char>>,
)
    decreases envs.len(),
{
    if envs.len() == 0 {
        (Seq::<(Seq<char>, EnvView)>::empty(), None)
    } else {
        let before = envs_pass(fid, envs.drop_last());
        let last = envs.last();
        let here = rules_pass(fid, last.0, last.1.rules);
        if before.1 is Some {
            (before.0.push(last), before.1)
        } else {
            (before.0.push((last.0, EnvView { rules: here.0, ..last.1 })), here.1)
        }
    }
}

/// Checks one frontend.
pub open spec fn frontend_pass(e: (Seq<char>, FrontendView)) -> (
    (Seq<char>, FrontendView),
    Option<Seq<char>>,
) {
    if e.1.envs.len() == 0 {
        (e, Some("前端 '"@ + e.0 + "' 至少需要一个环境"@))
    } else if !table::has_key(e.1.envs, e.1.active_env) {
        (
            e,
            Some("前端 '"@ + e.0 + "' 的 active_env '"@ + e.1.active_env + "' 不存在"@),
        )
    } else {
        let here = envs_pass(e.0, e.1.envs);
        ((e.0, FrontendView { envs: here.0, ..e.1 }), here.1)
    }
}

/// Goes through frontends in order, up to the first fault.
pub open spec fn frontends_pass(fs: Seq<(Seq<char>, FrontendView)>) -> (
    Seq<(Seq<char>, FrontendView)>,
    Option<Seq<char>>,
)
    decreases fs.len(),
{
    if fs.len() == 0 {
        (Seq::<(Seq<char>, FrontendView)>::empty(), None)
    } else {
        let before = frontends_pass(fs.drop_last());
        let here = frontend_pass(fs.last());
        if before.1 is Some {
            (before.0.push(fs.last()), before.1)
        } else {
            (before.0.push(here.0), here.1)
        }
    }
}

/// What a check leaves of the configuration, and the first fault.
pub open spec fn validated(c: ConfigView) -> (ConfigView, Option<Seq<char>>) {
    if text::is_blank(c.listen) {
        (c, Some("listen 不能为空"@))
    } else if c.frontends.len() == 0 {
        (c, Some("至少需要一个前端"@))
    } else {
        let here = frontends_pass(c.frontends);
        (ConfigView { frontends: here.0, ..c }, here.1)
    }
}

/// The beginning of a message about a rule.
fn env_place_text(fid: &str, eid: &str) -> (r: String)
    ensures
        r@ == env_place(fid@, eid@),
{
    let mut m = text::cat3("前端 '", fid, "' / 环境 '");
    m.append(eid);
    m.append("' 规则 ");
    m
}

fn find_rule_fault(fid: &str, eid: &str, rule: &Rule) -> (r: Option<String>)
    ensures
        text::opt_view(r) == rule_fault(fid@, eid@, rule@),
{
    let place = env_place_text(fid, eid);
    if text::blank(rule.name.as_str()) {
        Some(text::cat2(place.as_str(), "name 不能为空"))
    } else if !text::first_is(rule.match_prefix.as_str(), '/') {
        let mut m = text::cat3(place.as_str(), "'", rule.name.as_str());
        m.append("' 的 match_prefix 必须以 / 开头");
        Some(m)
    } else if text::blank(rule.target.as_str()) {
        let mut m = text::cat3(place.as_str(), "'", rule.name.as_str());
        m.append("' 的 target 不能为空");
        Some(m)
    } else {
        None
    }
}

fn check_rules(fid: &str, eid: &str, rules: &mut Vec<Rule>) -> (r: Option<String>)
    ensures
        (text::views(final(rules)@), text::opt_view(r)) == rules_pass(
            fid@,
            eid@,
            text::views(old(rules)@),
        ),
{
    let ghost before = text::views(rules@);
    let n: usize = rules.len();
    let mut fault: Option<String> = None;
    let mut i: usize = 0;
    assert(before.take(0) =~= Seq::<RuleView>::empty());
    assert(text::views(rules@).take(0) =~= Seq::<RuleView>::empty());
    while i < n
        invariant
            i <= n == before.len(),
            rules@.len() == n,
            (text::views(rules@).take(i as int), text::opt_view(fault)) == rules_pass(
                fid@,
                eid@,
                before.take(i as int),
            ),
            forall|j: int| i <= j < n ==> rules@[j]@ == before[j],
        decreases n - i,
    {
        let ghost done = text::views(rules@).take(i as int);
        assert(before.take(i + 1).drop_last() =~= before.take(i as int));
        if fault.is_none() {
            fault = find_rule_fault(fid, eid, &rules[i]);
            if fault.is_none() {
                let mut rule = rules[i].clone();
                rule.target = text::trim_end_char(rule.target.as_str(), '/');
                rules.set(i, rule);
            }
        }
        assert(text::views(rules@).take(i + 1) =~= done.push(rules@[i as int]@));
        i = i + 1;
    }
    assert(before.take(n as int) =~= before);
    assert(text::views(rules@).take(n as int) =~= text::views(rules@));
    fault
}

fn check_envs(fid: &str, envs: &mut Table<EnvConfig>) -> (r: Option<String>)
    ensures
        (final(envs)@, text::opt_view(r)) == envs_pass(fid@, old(envs)@),
{
    let ghost before = envs@;
    let n: usize = envs.len();
    let mut fault: Option<String> = None;
    let mut i: usize = 0;
    assert(before.take(0) =~= Seq::<(Seq<char>, EnvView)>::empty());
    assert(envs@.take(0) =~= Seq::<(Seq<char>, EnvView)>::empty());
    while i < n
        invariant
            i <= n == before.len(),
            envs@.len() == n,
            (envs@.take(i as int), text::opt_view(fault)) == envs_pass(
                fid@,
                before.take(i as int),
            ),
            forall|j: int| i <= j < n ==> envs@[j] == before[j],
        decreases n - i,
    {
        let ghost done = envs@.take(i as int);
        assert(before.take(i + 1).drop_last() =~= before.take(i as int));
        if fault.is_none() {
            let eid = envs.key_at(i).clone();
            let mut rules = text::duplicate_all(&envs.value_at(i).rules);
            fault = check_rules(fid, eid.as_str(), &mut rules);
            let label = envs.value_at(i).label.clone();
            envs.set_at(i, EnvConfig { label, rules });
        }
        assert(envs@.take(i + 1) =~= done.push(envs@[i as int]));
        i = i + 1;
    }
    assert(before.take(n as int) =~= before);
    assert(envs@.take(n as int) =~= envs@);
    fault
}

fn check_frontend(fid: &str, fe: &mut FrontendConfig) -> (r: Option<String>)
    ensures
        ((fid@, final(fe)@), text::opt_view(r)) == frontend_pass((fid@, old(fe)@)),
{
    if fe.envs.is_empty() {
        return Some(text::cat3("前端 '", fid, "' 至少需要一个环境"));
    }
    if !fe.envs.contains_key(fe.active_env.as_str()) {
        let mut m = text::cat3("前端 '", fid, "' 的 active_env '");
        m.append(fe.active_env.as_str());
        m.append("' 不存在");
        return Some(m);
    }
    check_envs(fid, &mut fe.envs)
}

fn check_frontends(fs: &mut Table<FrontendConfig>) -> (r: Option<String>)
    ensures
        (final(fs)@, text::opt_view(r)) == frontends_pass(old(fs)@),
{
    let ghost before = fs@;
    let n: usize = fs.len();
    let mut fault: Option<String> = None;
    let mut i: usize = 0;
    assert(before.take(0) =~= Seq::<(Seq<char>, FrontendView)>::empty());
    assert(fs@.take(0) =~= Seq::<(Seq<char>, FrontendView)>::empty());
    while i < n
        invariant
            i <= n == before.len(),
            fs@.len() == n,
            (fs@.take(i as int), text::opt_view(fault)) == frontends_pass(before.take(i as int)),
            forall|j: int| i <= j < n ==> fs@[j] == before[j],
        decreases n - i,
    {
        let ghost done = fs@.take(i as int);
        assert(before.take(i + 1).drop_last() =~= before.take(i as int));
        if fault.is_none() {
            let fid = fs.key_at(i).clone();
            let mut fe = fs.value_at(i).clone();
            fault = check_frontend(fid.as_str(), &mut fe);
            fs.set_at(i, fe);
        }
        assert(fs@.take(i + 1) =~= done.push(fs@[i as int]));
        i = i + 1;
    }
    assert(before.take(n as int) =~= before);
    assert(fs@.take(n as int) =~= fs@);
    fault
}

// ---------------------------------------------------------------------------
// Origins
// ---------------------------------------------------------------------------

/// The members of a list, trimmed, without blanks and without repetition, in
/// the order in which they first occur.
pub open spec fn gathered(list: Seq<Seq<char>>) -> Seq<Seq<char>>
    decreases list.len(),
{
    if list.len() == 0 {
        Seq::<Seq<char>>::empty()
    } else {
        let before = gathered(list.drop_last());
        let t = text::trimmed(list.last());
        if t.len() == 0 || before.contains(t) {
            before
        } else {
            before.push(t)
        }
    }
}

/// The origins of all frontends, one frontend after the other.
pub open spec fn frontend_origins(fs: Seq<(Seq<char>, FrontendView)>) -> Seq<Seq<char>> {
    fs.map_values(|e: (Seq<char>, FrontendView)| e.1.origins).flatten()
}

/// Every origin that the configuration allows.
pub open spec fn origins_of(c: ConfigView) -> Seq<Seq<char>> {
    gathered(c.allow_origins + frontend_origins(c.frontends))
}

/// Adds the origins of a list to those gathered so far.
fn gather(set: &mut Vec<String>, list: &Vec<String>, Ghost(so_far): Ghost<Seq<Seq<char>>>)
    requires
        text::views(old(set)@) == gathered(so_far),
    ensures
        text::views(final(set)@) == gathered(so_far + text::views(list@)),
{
    let ghost all = text::views(list@);
    let mut i: usize = 0;
    assert(so_far + all.take(0) =~= so_far);
    while i < list.len()
        invariant
            i <= list@.len(),
            all == text::views(list@),
            text::views(set@) == gathered(so_far + all.take(i as int)),
        decreases list@.len() - i,
    {
        let t = text::trim(list[i].as_str());
        assert((so_far + all.take(i + 1)).drop_last() =~= so_far + all.take(i as int));
        assert((so_far + all.take(i + 1)).last() == list@[i as int]@);
        let ghost set_before = text::views(set@);
        if !t.as_str().is_empty() && !text::among(set, t.as_str()) {
            set.push(t);
            assert(text::views(set@) =~= set_before.push(t@));
        }
        i = i + 1;
    }
    assert(all.take(all.len() as int) =~= all);
}

// ---------------------------------------------------------------------------
// Disk
// ---------------------------------------------------------------------------

/// What is written to the configuration file.
pub open spec fn persisted(c: ConfigView) -> ConfigView {
    ConfigView {
        allow_origins: origins_of(c),
        active_env: Seq::<char>::empty(),
        envs: Seq::<(Seq<char>, EnvView)>::empty(),
        rules: Seq::<RuleView>::empty(),
        ..c
    }
}

/// What loading a parsed configuration gives.
pub open spec fn loaded(c: ConfigView) -> Result<ConfigView, Seq<char>> {
    let v = validated(normalized(c));
    match v.1 {
        Some(e) => Err(e),
        None => Ok(v.0),
    }
}

/// What loading gives, whatever came of reading the file at `path`.
pub open spec fn load_result(path: Seq<char>, source: ConfigSource) -> Result<
    ConfigView,
    Seq<char>,
> {
    match source {
        ConfigSource::Unreadable(e) => Err("读取配置失败 "@ + path + ": "@ + e@),
        ConfigSource::Unparsable(e) => Err("解析配置失败 "@ + path + ": "@ + e@),
        ConfigSource::Parsed(c) => loaded(c@),
    }
}

/// The model of a result whose two sides have models.
pub open spec fn result_view<T: View, E: View>(r: Result<T, E>) -> Result<T::V, E::V> {
    match r {
        Ok(x) => Ok(x@),
        Err(e) => Err(e@),
    }
}

impl Config {
    /// Every origin that the configuration allows: those of the CORS section,
    /// then those of the frontends, trimmed, without blanks or repetition.
    pub fn all_origins(&self) -> (r: Vec<String>)
        ensures
            text::views(r@) == origins_of(self@),
    {
        let ghost per = self@.frontends.map_values(|e: (Seq<char>, FrontendView)| e.1.origins);
        let ghost cors = self@.allow_origins;
        let mut set: Vec<String> = Vec::new();
        assert(text::views(set@) =~= gathered(Seq::<Seq<char>>::empty()));
        assert(Seq::<Seq<char>>::empty() + cors =~= cors);
        gather(&mut set, &self.cors.allow_origins, Ghost(Seq::<Seq<char>>::empty()));
        let n: usize = self.frontends.len();
        let mut i: usize = 0;
        assert(cors + per.take(0).flatten() =~= cors);
        while i < n
            invariant
                i <= n == self@.frontends.len(),
                cors == self@.allow_origins,
                per == self@.frontends.map_values(
                    |e: (Seq<char>, FrontendView)| e.1.origins,
                ),
                text::views(set@) == gathered(cors + per.take(i as int).flatten()),
            decreases n - i,
        {
            let ghost so_far = cors + per.take(i as int).flatten();
            gather(&mut set, &self.frontends.value_at(i).origins, Ghost(so_far));
            proof {
                per.take(i as int).lemma_flatten_push(per[i as int]);
                assert(per.take(i + 1) =~= per.take(i as int).push(per[i as int]));
                assert(so_far + per[i as int] =~= cors + per.take(i + 1).flatten());
            }
            i = i + 1;
        }
        assert(per.take(n as int) =~= per);
        set
    }

    /// Brings the configuration into normal form: the older form becomes one
    /// frontend, blank labels become ids, every frontend has an environment in
    /// force, and origins are tidied.
    pub fn normalize(&mut self) -> (r: Result<(), String>)
        ensures
            r is Ok,
            final(self)@ == normalized(old(self)@),
    {
        let ghost start = self@;
        if self.frontends.is_empty() {
            let mut envs: Table<EnvConfig> = Table::new();
            std::mem::swap(&mut envs, &mut self.envs);
            let mut rules: Vec<Rule> = Vec::new();
            std::mem::swap(&mut rules, &mut self.rules);
            let active = if text::blank(self.active_env.as_str()) {
                "default".to_string()
            } else {
                self.active_env.clone()
            };
            if envs.is_empty() {
                envs = single_env(active.clone(), rules);
            }
            let origins = text::duplicate_all(&self.cors.allow_origins);
            self.frontends = single_frontend(origins, active, envs);
            self.active_env = String::new();
            assert(self@.rules =~= Seq::<RuleView>::empty());
            assert(self@ =~= migrated(start));
        }
        let ghost before = self@;
        let n: usize = self.frontends.len();
        let mut i: usize = 0;
        while i < n
            invariant
                i <= n == before.frontends.len(),
                self@ == (ConfigView { frontends: self.frontends@, ..before }),
                self.frontends@.len() == n,
                forall|j: int|
                    0 <= j < i ==> self.frontends@[j] == normal_frontend(before.frontends[j]),
                forall|j: int| i <= j < n ==> self.frontends@[j] == before.frontends[j],
            decreases n - i,
        {
            let fe = normalize_frontend(self.frontends.key_at(i), self.frontends.value_at(i));
            self.frontends.set_at(i, fe);
            i = i + 1;
        }
        assert(self.frontends@ =~= before.frontends.map_values(
            |e: (Seq<char>, FrontendView)| normal_frontend(e),
        ));
        Ok(())
    }

    /// Checks the configuration and takes the slashes off the ends of targets.
    /// The check stops at the first fault; what stands before it has been
    /// trimmed, what stands behind it has not.
    pub fn validate(&mut self) -> (r: Result<(), String>)
        ensures
            final(self)@ == validated(old(self)@).0,
            r is Ok <==> validated(old(self)@).1 is None,
            r matches Err(e) ==> validated(old(self)@).1 == Some(e@),
            forall|i: int, j: int, k: int|
                0 <= i < old(self)@.frontends.len() && 0 <= j
                    < old(self)@.frontends[i].1.envs.len() && 0 <= k
                    < old(self)@.frontends[i].1.envs[j].1.rules.len()
                    ==> fields::same_but_slashes(
                    #[trigger] final(self)@.frontends[i].1.envs[j].1.rules[k],
                    old(self)@.frontends[i].1.envs[j].1.rules[k],
                ),
    {
        proof {
            fields::law_check_keeps_fields(self@);
        }
        if text::blank(self.listen.as_str()) {
            return Err("listen 不能为空".to_string());
        }
        if self.frontends.is_empty() {
            return Err("至少需要一个前端".to_string());
        }
        match check_frontends(&mut self.frontends) {
            Some(e) => Err(e),
            None => Ok(()),
        }
    }

    /// The configuration that reading the file at `path` gives, normalized and
    /// checked.
    pub fn load(path: &str, source: ConfigSource) -> (r: Result<Config, String>)
        ensures
            result_view(r) == load_result(path@, source),
    {
        match source {
            ConfigSource::Unreadable(e) => {
                let mut m = text::cat3("读取配置失败 ", path, ": ");
                m.append(e.as_str());
                Err(m)
            },
            ConfigSource::Unparsable(e) => {
                let mut m = text::cat3("解析配置失败 ", path, ": ");
                m.append(e.as_str());
                Err(m)
            },
            ConfigSource::Parsed(c) => {
                let mut config = c;
                let _ = config.normalize();
                match config.validate() {
                    Ok(()) => Ok(config),
                    Err(e) => Err(e),
                }
            },
        }
    }

    /// What is written to the configuration file: the frontends, with all
    /// their origins allowed, and nothing of the older form.
    pub fn save(&self) -> (r: Config)
        ensures
            r@ == persisted(self@),
    {
        let r = Config {
            listen: self.listen.clone(),
            cors: CorsConfig { allow_origins: self.all_origins() },
            frontends: self.frontends.duplicate(),
            active_env: String::new(),
            envs: Table::new(),
            rules: Vec::new(),
        };
        assert(r@.rules =~= Seq::<RuleView>::empty());
        r
    }
}

/// What the caller of a save is told.
pub open spec fn save_report(path: Seq<char>, outcome: SaveOutcome) -> Result<(), Seq<char>> {
    match outcome {
        SaveOutcome::Written => Ok(()),
        SaveOutcome::Unserializable(e) => Err("序列化配置失败: "@ + e@),
        SaveOutcome::Unwritable(e) => Err("写入配置失败 "@ + path + ": "@ + e@),
    }
}

/// Turns the outcome of writing the file at `path` into a result.
pub fn save_result(path: &str, outcome: SaveOutcome) -> (r: Result<(), String>)
    ensures
        r is Ok <==> save_report(path@, outcome) is Ok,
        r matches Err(e) ==> save_report(path@, outcome) == Err::<(), Seq<char>>(e@),
{
    match outcome {
        SaveOutcome::Written => Ok(()),
        SaveOutcome::Unserializable(e) => Err(text::cat2("序列化配置失败: ", e.as_str())),
        SaveOutcome::Unwritable(e) => {
            let mut m = text::cat3("写入配置失败 ", path, ": ");
            m.append(e.as_str());
            Err(m)
        },
    }
}

} // verus!
