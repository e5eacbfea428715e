//! The configuration model, its defaults, and its validation.
//!
//! Maps keyed by name are held as vectors of `(key, value)` pairs in
//! ascending key order, as a sorted map iterates them. Fractions are held in
//! parts per million.

use vstd::prelude::*;
use crate::text::{is_blank, is_blank_str, starts_with_str, trim_seq, trim_string, lemma_trim_empty_iff_blank};

verus! {

#[derive(Debug, Clone)]
pub struct ProbeConfig {
    pub proxy_url: Option<String>,
    pub strategy_group: Option<String>,
}

#[derive(Debug, Clone)]
pub struct ControllerConfig {
    pub base_url: String,
    pub secret: Option<String>,
}

#[derive(Debug, Clone)]
pub struct GroupConfig {
    pub strategy_group: String,
}

#[derive(Debug, Clone)]
pub struct TargetConfig {
    pub name: String,
    pub url: String,
    pub method: String,
    pub timeout_ms: u64,
    pub success_status: Vec<u16>,
}

pub struct TargetView {
    pub name: Seq<char>,
    pub url: Seq<char>,
    pub method: Seq<char>,
    pub timeout_ms: u64,
    pub success_status: Seq<u16>,
}

impl View for TargetConfig {
    type V = TargetView;

    open spec fn view(&self) -> TargetView {
        TargetView {
            name: self.name@,
            url: self.url@,
            method: self.method@,
            timeout_ms: self.timeout_ms,
            success_status: self.success_status@,
        }
    }
}

/// A copy of a target.
pub fn clone_target(t: &TargetConfig) -> (r: TargetConfig)
    ensures
        r@ == t@,
{
    let statuses = t.success_status.clone();
    assert(statuses@ =~= t.success_status@);
    TargetConfig {
        name: t.name.clone(),
        url: t.url.clone(),
        method: t.method.clone(),
        timeout_ms: t.timeout_ms,
        success_status: statuses,
    }
}

/// Score weights in parts per million.
#[derive(Debug, Clone)]
pub struct ScoringConfig {
    pub availability_weight: i64,
    pub p50_weight: i64,
    pub p95_weight: i64,
    pub jitter_weight: i64,
}

#[derive(Debug, Clone)]
pub struct RoutingConfig {
    pub domain_to_group: Vec<(String, String)>,
}

#[derive(Debug, Clone)]
pub struct LoggingConfig {
    pub level: String,
}

/// The daemon's configuration. `min_improvement` is in parts per million.
#[derive(Debug, Clone)]
pub struct Config {
    pub controller: Option<ControllerConfig>,
    pub probe: Option<ProbeConfig>,
    pub interval_sec: u64,
    pub cooldown_sec: u64,
    pub min_wins: u32,
    pub min_improvement: i64,
    pub groups: Vec<(String, GroupConfig)>,
    pub targets: Vec<(String, Vec<TargetConfig>)>,
    pub scoring: Option<ScoringConfig>,
    pub routing: Option<RoutingConfig>,
    pub logging: Option<LoggingConfig>,
}

/// Why a configuration was refused.
#[derive(Debug, Clone, PartialEq, Eq)]
pub enum ConfigError {
    IntervalZero,
    CooldownZero,
    MinWinsZero,
    MinImprovementOutOfRange,
    GroupsEmpty,
    MissingGlobalBest,
    BlankProxyUrl,
    EmptyTargets { name: String },
    BlankTargetUrl { name: String, index: usize },
    ZeroTimeout { name: String, index: usize },
    InvalidMethod { name: String, index: usize, method: String },
    BlankRoutingDomain,
    BlankRoutingGroup { domain: String },
    UnknownRoutingGroup { domain: String, group: String },
}

pub enum ConfigErrorView {
    IntervalZero,
    CooldownZero,
    MinWinsZero,
    MinImprovementOutOfRange,
    GroupsEmpty,
    MissingGlobalBest,
    BlankProxyUrl,
    EmptyTargets { name: Seq<char> },
    BlankTargetUrl { name: Seq<char>, index: int },
    ZeroTimeout { name: Seq<char>, index: int },
    InvalidMethod { name: Seq<char>, index: int, method: Seq<char> },
    BlankRoutingDomain,
    BlankRoutingGroup { domain: Seq<char> },
    UnknownRoutingGroup { domain: Seq<char>, group: Seq<char> },
}

impl View for ConfigError {
    type V = ConfigErrorView;

    open spec fn view(&self) -> ConfigErrorView {
        match self {
            ConfigError::IntervalZero => ConfigErrorView::IntervalZero,
            ConfigError::CooldownZero => ConfigErrorView::CooldownZero,
            ConfigError::MinWinsZero => ConfigErrorView::MinWinsZero,
            ConfigError::MinImprovementOutOfRange => ConfigErrorView::MinImprovementOutOfRange,
            ConfigError::GroupsEmpty => ConfigErrorView::GroupsEmpty,
            ConfigError::MissingGlobalBest => ConfigErrorView::MissingGlobalBest,
            ConfigError::BlankProxyUrl => ConfigErrorView::BlankProxyUrl,
            ConfigError::EmptyTargets { name } => ConfigErrorView::EmptyTargets { name: name@ },
            ConfigError::BlankTargetUrl { name, index } => ConfigErrorView::BlankTargetUrl {
                name: name@,
                index: *index as int,
            },
            ConfigError::ZeroTimeout { name, index } => ConfigErrorView::ZeroTimeout {
                name: name@,
                index: *index as int,
            },
            ConfigError::InvalidMethod { name, index, method } => ConfigErrorView::InvalidMethod {
                name: name@,
                index: *index as int,
                method: method@,
            },
            ConfigError::BlankRoutingDomain => ConfigErrorView::BlankRoutingDomain,
            ConfigError::BlankRoutingGroup { domain } => ConfigErrorView::BlankRoutingGroup {
                domain: domain@,
            },
            ConfigError::UnknownRoutingGroup { domain, group } => ConfigErrorView::UnknownRoutingGroup {
                domain: domain@,
                group: group@,
            },
        }
    }
}

/// An RFC 9110 token character, as the http crate's method table lists
/// them.
pub open spec fn is_tchar(b: u8) -> bool {
    b == 33 || (35 <= b && b <= 39) || b == 42 || b == 43 || b == 45 || b == 46
        || (48 <= b && b <= 57) || (65 <= b && b <= 90) || (94 <= b && b <= 122)
        || b == 124 || b == 126
}

/// Whether the bytes form an HTTP method token: at least one byte, every
/// byte a token character.
pub open spec fn is_method_token(bytes: Seq<u8>) -> bool {
    bytes.len() > 0 && forall|i: int| 0 <= i < bytes.len() ==> is_tchar(bytes[i])
}

/// Calls `reqwest::Method::from_bytes` (the http crate's `Method`) on the
/// UTF-8 bytes of `method`. Its source accepts a byte string exactly when it
/// is non-empty and every byte is a token character of its method table;
/// the contract states that.
#[verifier::external_body]
fn method_accepted(method: &str) -> (r: bool)
    ensures
        r == is_method_token(vstd::utf8::encode_utf8(method@)),
{
    reqwest::Method::from_bytes(method.as_bytes()).is_ok()
}

pub open spec fn has_key<V>(entries: Seq<(String, V)>, key: Seq<char>) -> bool {
    exists|i: int| 0 <= i < entries.len() && entries[i].0@ == key
}

/// Whether `key` is one of the keys of `entries`.
pub fn contains_key<V>(entries: &Vec<(String, V)>, key: &str) -> (r: bool)
    ensures
        r == has_key(entries@, key@),
{
    let mut i: usize = 0;
    while i < entries.len()
        invariant
            i <= entries@.len(),
            forall|j: int| 0 <= j < i ==> entries@[j].0@ != key@,
        decreases entries@.len() - i,
    {
        let k = entries[i].0.as_str();
        if crate::text::str_equals(k, key) {
            return true;
        }
        i = i + 1;
    }
    false
}

pub open spec fn item_error(name: Seq<char>, t: TargetConfig, index: int) -> Option<ConfigErrorView> {
    if is_blank(t.url@) {
        Some(ConfigErrorView::BlankTargetUrl { name, index })
    } else if t.timeout_ms == 0 {
        Some(ConfigErrorView::ZeroTimeout { name, index })
    } else if !is_method_token(vstd::utf8::encode_utf8(t.method@)) {
        Some(ConfigErrorView::InvalidMethod { name, index, method: t.method@ })
    } else {
        None
    }
}

/// The first error among `items[i..]`.
pub open spec fn items_error(name: Seq<char>, items: Seq<TargetConfig>, i: int) -> Option<ConfigErrorView>
    decreases items.len() - i,
{
    if i < 0 || i >= items.len() {
        None
    } else {
        match item_error(name, items[i], i) {
            Some(e) => Some(e),
            None => items_error(name, items, i + 1),
        }
    }
}

pub open spec fn target_list_error(entry: (String, Vec<TargetConfig>)) -> Option<ConfigErrorView> {
    if entry.1@.len() == 0 {
        Some(ConfigErrorView::EmptyTargets { name: entry.0@ })
    } else {
        items_error(entry.0@, entry.1@, 0)
    }
}

/// The first error among the target lists `ts[k..]`.
pub open spec fn targets_error(ts: Seq<(String, Vec<TargetConfig>)>, k: int) -> Option<ConfigErrorView>
    decreases ts.len() - k,
{
    if k < 0 || k >= ts.len() {
        None
    } else {
        match target_list_error(ts[k]) {
            Some(e) => Some(e),
            None => targets_error(ts, k + 1),
        }
    }
}

pub open spec fn route_error(groups: Seq<(String, GroupConfig)>, entry: (String, String)) -> Option<ConfigErrorView> {
    let g = trim_seq(entry.1@);
    if is_blank(entry.0@) {
        Some(ConfigErrorView::BlankRoutingDomain)
    } else if g.len() == 0 {
        Some(ConfigErrorView::BlankRoutingGroup { domain: entry.0@ })
    } else if !has_key(groups, g) && !(3 <= g.len() && g.subrange(0, 3) =~= "RW_"@) {
        Some(ConfigErrorView::UnknownRoutingGroup { domain: entry.0@, group: g })
    } else {
        None
    }
}

/// The first error among the routing entries `rs[k..]`.
pub open spec fn routes_error(groups: Seq<(String, GroupConfig)>, rs: Seq<(String, String)>, k: int) -> Option<ConfigErrorView>
    decreases rs.len() - k,
{
    if k < 0 || k >= rs.len() {
        None
    } else {
        match route_error(groups, rs[k]) {
            Some(e) => Some(e),
            None => routes_error(groups, rs, k + 1),
        }
    }
}

pub open spec fn proxy_url_blank(cfg: Config) -> bool {
    cfg.probe matches Some(p) && p.proxy_url matches Some(u) && is_blank(u@)
}

/// The first rule that `cfg` breaks, checked in order; `None` when it
/// breaks none.
pub open spec fn config_error(cfg: Config) -> Option<ConfigErrorView> {
    if cfg.interval_sec == 0 {
        Some(ConfigErrorView::IntervalZero)
    } else if cfg.cooldown_sec == 0 {
        Some(ConfigErrorView::CooldownZero)
    } else if cfg.min_wins == 0 {
        Some(ConfigErrorView::MinWinsZero)
    } else if !(0 <= cfg.min_improvement <= 1_000_000) {
        Some(ConfigErrorView::MinImprovementOutOfRange)
    } else if cfg.groups@.len() == 0 {
        Some(ConfigErrorView::GroupsEmpty)
    } else if !has_key(cfg.groups@, "GLOBAL_BEST"@) {
        Some(ConfigErrorView::MissingGlobalBest)
    } else if proxy_url_blank(cfg) {
        Some(ConfigErrorView::BlankProxyUrl)
    } else if targets_error(cfg.targets@, 0) is Some {
        targets_error(cfg.targets@, 0)
    } else {
        match cfg.routing {
            Some(r) => routes_error(cfg.groups@, r.domain_to_group@, 0),
            None => None,
        }
    }
}

/// A target keeps its rules: a URL that is not blank, a timeout, and an
/// HTTP method token.
pub open spec fn target_ok(t: TargetConfig) -> bool {
    &&& !is_blank(t.url@)
    &&& t.timeout_ms > 0
    &&& is_method_token(vstd::utf8::encode_utf8(t.method@))
}

/// A routing entry keeps its rules: a domain that is not blank and a group
/// that, trimmed, is not empty and is a configured group or an `RW_` group.
pub open spec fn route_ok(groups: Seq<(String, GroupConfig)>, entry: (String, String)) -> bool {
    let g = trim_seq(entry.1@);
    &&& !is_blank(entry.0@)
    &&& g.len() > 0
    &&& (has_key(groups, g) || (3 <= g.len() && g.subrange(0, 3) =~= "RW_"@))
}

/// Every rule of a configuration, all at once.
pub open spec fn config_valid(cfg: Config) -> bool {
    &&& cfg.interval_sec > 0
    &&& cfg.cooldown_sec > 0
    &&& cfg.min_wins > 0
    &&& 0 <= cfg.min_improvement <= 1_000_000
    &&& cfg.groups@.len() > 0
    &&& has_key(cfg.groups@, "GLOBAL_BEST"@)
    &&& !proxy_url_blank(cfg)
    &&& forall|k: int| 0 <= k < cfg.targets@.len() ==> (#[trigger] cfg.targets@[k]).1@.len() > 0
    &&& forall|k: int, i: int| 0 <= k < cfg.targets@.len() && 0 <= i < cfg.targets@[k].1@.len()
        ==> target_ok(#[trigger] cfg.targets@[k].1@[i])
    &&& cfg.routing matches Some(r) ==> forall|k: int| 0 <= k < r.domain_to_group@.len()
        ==> route_ok(cfg.groups@, #[trigger] r.domain_to_group@[k])
}

proof fn lemma_items_error_none(name: Seq<char>, items: Seq<TargetConfig>, i: int)
    requires
        0 <= i <= items.len(),
    ensures
        (items_error(name, items, i) is None) <==> (forall|j: int| i <= j < items.len() ==> target_ok(#[trigger] items[j])),
    decreases items.len() - i,
{
    if i < items.len() {
        lemma_items_error_none(name, items, i + 1);
    }
}

proof fn lemma_targets_error_none(ts: Seq<(String, Vec<TargetConfig>)>, k: int)
    requires
        0 <= k <= ts.len(),
    ensures
        (targets_error(ts, k) is None) <==> (forall|m: int| k <= m < ts.len() ==> {
            &&& (#[trigger] ts[m]).1@.len() > 0
            &&& forall|i: int| 0 <= i < ts[m].1@.len() ==> target_ok(#[trigger] ts[m].1@[i])
        }),
    decreases ts.len() - k,
{
    if k < ts.len() {
        lemma_targets_error_none(ts, k + 1);
        lemma_items_error_none(ts[k].0@, ts[k].1@, 0);
    }
}

proof fn lemma_routes_error_none(groups: Seq<(String, GroupConfig)>, rs: Seq<(String, String)>, k: int)
    requires
        0 <= k <= rs.len(),
    ensures
        (routes_error(groups, rs, k) is None) <==> (forall|m: int| k <= m < rs.len() ==> route_ok(groups, #[trigger] rs[m])),
    decreases rs.len() - k,
{
    if k < rs.len() {
        lemma_routes_error_none(groups, rs, k + 1);
    }
}

/// Validation refuses a configuration exactly when it breaks one of its
/// rules, whichever rule is reported first.
pub proof fn law_valid_exactly_when_every_rule_holds(cfg: Config)
    ensures
        (config_error(cfg) is None) <==> config_valid(cfg),
{
    lemma_targets_error_none(cfg.targets@, 0);
    if let Some(r) = cfg.routing {
        lemma_routes_error_none(cfg.groups@, r.domain_to_group@, 0);
    }
    if targets_error(cfg.targets@, 0) is None {
        assert forall|k: int, i: int| 0 <= k < cfg.targets@.len() && 0 <= i < cfg.targets@[k].1@.len()
            implies target_ok(#[trigger] cfg.targets@[k].1@[i]) by {
            let e = cfg.targets@[k];
            assert(e.1@.len() > 0);
        }
    }
}

fn check_items(name: &String, items: &Vec<TargetConfig>) -> (r: Result<(), ConfigError>)
    ensures
        match r {
            Ok(()) => items_error(name@, items@, 0) is None,
            Err(e) => items_error(name@, items@, 0) == Some(e@),
        },
{
    let mut i: usize = 0;
    while i < items.len()
        invariant
            i <= items@.len(),
            items_error(name@, items@, 0) == items_error(name@, items@, i as int),
        decreases items@.len() - i,
    {
        let t = &items[i];
        if is_blank_str(t.url.as_str()) {
            return Err(ConfigError::BlankTargetUrl { name: name.clone(), index: i });
        }
        if t.timeout_ms == 0 {
            return Err(ConfigError::ZeroTimeout { name: name.clone(), index: i });
        }
        if !method_accepted(t.method.as_str()) {
            return Err(ConfigError::InvalidMethod { name: name.clone(), index: i, method: t.method.clone() });
        }
        i = i + 1;
    }
    Ok(())
}

fn check_targets(ts: &Vec<(String, Vec<TargetConfig>)>) -> (r: Result<(), ConfigError>)
    ensures
        match r {
            Ok(()) => targets_error(ts@, 0) is None,
            Err(e) => targets_error(ts@, 0) == Some(e@),
        },
{
    let mut k: usize = 0;
    while k < ts.len()
        invariant
            k <= ts@.len(),
            targets_error(ts@, 0) == targets_error(ts@, k as int),
        decreases ts@.len() - k,
    {
        let entry = &ts[k];
        if entry.1.len() == 0 {
            return Err(ConfigError::EmptyTargets { name: entry.0.clone() });
        }
        check_items(&entry.0, &entry.1)?;
        k = k + 1;
    }
    Ok(())
}

fn check_routes(groups: &Vec<(String, GroupConfig)>, rs: &Vec<(String, String)>) -> (r: Result<(), ConfigError>)
    ensures
        match r {
            Ok(()) => routes_error(groups@, rs@, 0) is None,
            Err(e) => routes_error(groups@, rs@, 0) == Some(e@),
        },
{
    let mut k: usize = 0;
    while k < rs.len()
        invariant
            k <= rs@.len(),
            routes_error(groups@, rs@, 0) == routes_error(groups@, rs@, k as int),
        decreases rs@.len() - k,
    {
        let entry = &rs[k];
        if is_blank_str(entry.0.as_str()) {
            return Err(ConfigError::BlankRoutingDomain);
        }
        let normalized = trim_string(entry.1.as_str());
        if normalized.as_str().unicode_len() == 0 {
            return Err(ConfigError::BlankRoutingGroup { domain: entry.0.clone() });
        }
        if !contains_key(groups, normalized.as_str()) && !starts_with_str(normalized.as_str(), "RW_") {
            proof {
                reveal_strlit("RW_");
            }
            return Err(ConfigError::UnknownRoutingGroup { domain: entry.0.clone(), group: normalized });
        }
        proof {
            reveal_strlit("RW_");
        }
        k = k + 1;
    }
    Ok(())
}

impl Config {
    /// Checks the configuration's rules in order and reports the first one
    /// broken.
    pub fn validate(&self) -> (r: Result<(), ConfigError>)
        ensures
            match r {
                Ok(()) => config_error(*self) is None,
                Err(e) => config_error(*self) == Some(e@),
            },
    {
        if self.interval_sec == 0 {
            return Err(ConfigError::IntervalZero);
        }
        if self.cooldown_sec == 0 {
            return Err(ConfigError::CooldownZero);
        }
        if self.min_wins == 0 {
            return Err(ConfigError::MinWinsZero);
        }
        if !(0 <= self.min_improvement && self.min_improvement <= 1_000_000) {
            return Err(ConfigError::MinImprovementOutOfRange);
        }
        if self.groups.len() == 0 {
            return Err(ConfigError::GroupsEmpty);
        }
        if !contains_key(&self.groups, "GLOBAL_BEST") {
            return Err(ConfigError::MissingGlobalBest);
        }
        if let Some(probe) = &self.probe {
            if let Some(proxy_url) = &probe.proxy_url {
                if is_blank_str(proxy_url.as_str()) {
                    return Err(ConfigError::BlankProxyUrl);
                }
            }
        }
        check_targets(&self.targets)?;
        if let Some(routing) = &self.routing {
            check_routes(&self.groups, &routing.domain_to_group)?;
        }
        Ok(())
    }
}

} // verus!

verus! {

// ---------------------------------------------------------------------
// Defaults.

pub open spec fn get_target_view(name: Seq<char>, url: Seq<char>, statuses: Seq<u16>) -> TargetView {
    TargetView { name, url, method: "GET"@, timeout_ms: 5000, success_status: statuses }
}

pub open spec fn targets_view(ts: Seq<TargetConfig>) -> Seq<TargetView> {
    ts.map_values(|t: TargetConfig| t@)
}

pub fn default_method() -> (r: String)
    ensures
        r@ == "GET"@,
{
    crate::text::to_owned_string("GET")
}

pub fn default_timeout_ms() -> (r: u64)
    ensures
        r == 5000,
{
    5_000
}

pub fn default_interval_sec() -> (r: u64)
    ensures
        r == 180,
{
    180
}

pub fn default_cooldown_sec() -> (r: u64)
    ensures
        r == 600,
{
    600
}

pub fn default_min_wins() -> (r: u32)
    ensures
        r == 3,
{
    3
}

/// 0.15, in parts per million.
pub fn default_min_improvement() -> (r: i64)
    ensures
        r == 150_000,
{
    150_000
}

pub fn default_controller() -> (r: Option<ControllerConfig>)
    ensures
        r matches Some(c) && c.base_url@ == "unix:///tmp/verge/verge-mihomo.sock"@
            && (c.secret matches Some(s) && s@.len() == 0),
{
    Some(ControllerConfig {
        base_url: crate::text::to_owned_string("unix:///tmp/verge/verge-mihomo.sock"),
        secret: Some(String::new()),
    })
}

pub fn default_probe() -> (r: Option<ProbeConfig>)
    ensures
        r matches Some(p) && (p.proxy_url matches Some(u) && u@ == "http://127.0.0.1:7890"@)
            && (p.strategy_group matches Some(g) && g@ == "RW_PROBE"@),
{
    Some(ProbeConfig {
        proxy_url: Some(crate::text::to_owned_string("http://127.0.0.1:7890")),
        strategy_group: Some(crate::text::to_owned_string("RW_PROBE")),
    })
}

pub fn default_scoring() -> (r: Option<ScoringConfig>)
    ensures
        r matches Some(s) && s.availability_weight == 700_000 && s.p50_weight == 150_000
            && s.p95_weight == 100_000 && s.jitter_weight == 50_000,
{
    Some(ScoringConfig {
        availability_weight: 700_000,
        p50_weight: 150_000,
        p95_weight: 100_000,
        jitter_weight: 50_000,
    })
}

pub fn default_logging() -> (r: Option<LoggingConfig>)
    ensures
        r matches Some(l) && l.level@ == "info"@,
{
    Some(LoggingConfig { level: crate::text::to_owned_string("info") })
}

fn group_entry(key: &str, strategy: &str) -> (r: (String, GroupConfig))
    ensures
        r.0@ == key@,
        r.1.strategy_group@ == strategy@,
{
    (crate::text::to_owned_string(key), GroupConfig { strategy_group: crate::text::to_owned_string(strategy) })
}

/// The five groups, in key order.
pub fn default_groups() -> (r: Vec<(String, GroupConfig)>)
    ensures
        r@.len() == 5,
        r@[0].0@ == "BINANCE_GROUP"@ && r@[0].1.strategy_group@ == "RW_BINANCE"@,
        r@[1].0@ == "GITHUB_GROUP"@ && r@[1].1.strategy_group@ == "RW_GITHUB"@,
        r@[2].0@ == "GLOBAL_BEST"@ && r@[2].1.strategy_group@ == "RW_GLOBAL"@,
        r@[3].0@ == "GOOGLE_GROUP"@ && r@[3].1.strategy_group@ == "RW_GOOGLE"@,
        r@[4].0@ == "OPENAI_GROUP"@ && r@[4].1.strategy_group@ == "RW_OPENAI"@,
{
    let mut v: Vec<(String, GroupConfig)> = Vec::new();
    v.push(group_entry("BINANCE_GROUP", "RW_BINANCE"));
    v.push(group_entry("GITHUB_GROUP", "RW_GITHUB"));
    v.push(group_entry("GLOBAL_BEST", "RW_GLOBAL"));
    v.push(group_entry("GOOGLE_GROUP", "RW_GOOGLE"));
    v.push(group_entry("OPENAI_GROUP", "RW_OPENAI"));
    v
}

fn statuses1(a: u16) -> (r: Vec<u16>)
    ensures
        r@ == seq![a],
{
    let mut v = Vec::new();
    v.push(a);
    assert(v@ =~= seq![a]);
    v
}

fn statuses2(a: u16, b: u16) -> (r: Vec<u16>)
    ensures
        r@ == seq![a, b],
{
    let mut v = Vec::new();
    v.push(a);
    v.push(b);
    assert(v@ =~= seq![a, b]);
    v
}

fn statuses3(a: u16, b: u16, c: u16) -> (r: Vec<u16>)
    ensures
        r@ == seq![a, b, c],
{
    let mut v = Vec::new();
    v.push(a);
    v.push(b);
    v.push(c);
    assert(v@ =~= seq![a, b, c]);
    v
}

fn get_target(name: &str, url: &str, statuses: Vec<u16>) -> (r: TargetConfig)
    ensures
        r@ == get_target_view(name@, url@, statuses@),
{
    TargetConfig {
        name: crate::text::to_owned_string(name),
        url: crate::text::to_owned_string(url),
        method: default_method(),
        timeout_ms: default_timeout_ms(),
        success_status: statuses,
    }
}

fn google_target() -> (r: TargetConfig)
    ensures
        r@ == get_target_view("google"@, "https://www.google.com/generate_204"@, seq![204u16]),
{
    get_target("google", "https://www.google.com/generate_204", statuses1(204))
}

fn binance_target() -> (r: TargetConfig)
    ensures
        r@ == get_target_view("binance"@, "https://api.binance.com/api/v3/time"@, seq![200u16, 403u16]),
{
    get_target("binance", "https://api.binance.com/api/v3/time", statuses2(200, 403))
}

fn one_target(t: TargetConfig) -> (r: Vec<TargetConfig>)
    ensures
        targets_view(r@) == seq![t@],
{
    let mut v = Vec::new();
    v.push(t);
    assert(targets_view(v@) =~= seq![t@]);
    v
}

fn two_targets(a: TargetConfig, b: TargetConfig) -> (r: Vec<TargetConfig>)
    ensures
        targets_view(r@) == seq![a@, b@],
{
    let mut v = Vec::new();
    v.push(a);
    v.push(b);
    assert(targets_view(v@) =~= seq![a@, b@]);
    v
}

/// The probe targets of the five groups, in key order: Binance's time API
/// (200 and 403 count), GitHub and its API, Google and Binance together for
/// the global group, Google's 204 page, and ChatGPT and the OpenAI API.
pub fn default_targets() -> (r: Vec<(String, Vec<TargetConfig>)>)
    ensures
        r@.len() == 5,
        r@[0].0@ == "BINANCE_GROUP"@,
        targets_view(r@[0].1@) == seq![
            get_target_view("binance"@, "https://api.binance.com/api/v3/time"@, seq![200u16, 403u16]),
        ],
        r@[1].0@ == "GITHUB_GROUP"@,
        targets_view(r@[1].1@) == seq![
            get_target_view("github"@, "https://github.com"@, seq![200u16, 301u16, 302u16]),
            get_target_view("github-api"@, "https://api.github.com"@, seq![200u16]),
        ],
        r@[2].0@ == "GLOBAL_BEST"@,
        targets_view(r@[2].1@) == seq![
            get_target_view("google"@, "https://www.google.com/generate_204"@, seq![204u16]),
            get_target_view("binance"@, "https://api.binance.com/api/v3/time"@, seq![200u16, 403u16]),
        ],
        r@[3].0@ == "GOOGLE_GROUP"@,
        targets_view(r@[3].1@) == seq![
            get_target_view("google"@, "https://www.google.com/generate_204"@, seq![204u16]),
        ],
        r@[4].0@ == "OPENAI_GROUP"@,
        targets_view(r@[4].1@) == seq![
            get_target_view("chatgpt"@, "https://chatgpt.com/favicon.ico"@, seq![200u16, 301u16, 302u16]),
            get_target_view("openai"@, "https://api.openai.com/v1/models"@, seq![200u16, 401u16, 403u16]),
        ],
{
    let mut v: Vec<(String, Vec<TargetConfig>)> = Vec::new();
    v.push((crate::text::to_owned_string("BINANCE_GROUP"), one_target(binance_target())));
    v.push((
        crate::text::to_owned_string("GITHUB_GROUP"),
        two_targets(
            get_target("github", "https://github.com", statuses3(200, 301, 302)),
            get_target("github-api", "https://api.github.com", statuses1(200)),
        ),
    ));
    v.push((crate::text::to_owned_string("GLOBAL_BEST"), two_targets(google_target(), binance_target())));
    v.push((crate::text::to_owned_string("GOOGLE_GROUP"), one_target(google_target())));
    v.push((
        crate::text::to_owned_string("OPENAI_GROUP"),
        two_targets(
            get_target("chatgpt", "https://chatgpt.com/favicon.ico", statuses3(200, 301, 302)),
            get_target("openai", "https://api.openai.com/v1/models", statuses3(200, 401, 403)),
        ),
    ));
    v
}

fn route(domain: &str, group: &str) -> (r: (String, String))
    ensures
        r.0@ == domain@,
        r.1@ == group@,
{
    (crate::text::to_owned_string(domain), crate::text::to_owned_string(group))
}

/// The domains routed to each group, in domain order.
pub fn default_routing() -> (r: Option<RoutingConfig>)
    ensures
        r matches Some(routing) && {
            let d = routing.domain_to_group@;
            &&& d.len() == 6
            &&& d[0].0@ == "api.binance.com"@ && d[0].1@ == "BINANCE_GROUP"@
            &&& d[1].0@ == "api.github.com"@ && d[1].1@ == "GITHUB_GROUP"@
            &&& d[2].0@ == "api.openai.com"@ && d[2].1@ == "OPENAI_GROUP"@
            &&& d[3].0@ == "chatgpt.com"@ && d[3].1@ == "OPENAI_GROUP"@
            &&& d[4].0@ == "github.com"@ && d[4].1@ == "GITHUB_GROUP"@
            &&& d[5].0@ == "google.com"@ && d[5].1@ == "GOOGLE_GROUP"@
        },
{
    let mut d: Vec<(String, String)> = Vec::new();
    d.push(route("api.binance.com", "BINANCE_GROUP"));
    d.push(route("api.github.com", "GITHUB_GROUP"));
    d.push(route("api.openai.com", "OPENAI_GROUP"));
    d.push(route("chatgpt.com", "OPENAI_GROUP"));
    d.push(route("github.com", "GITHUB_GROUP"));
    d.push(route("google.com", "GOOGLE_GROUP"));
    Some(RoutingConfig { domain_to_group: d })
}

} // verus!
