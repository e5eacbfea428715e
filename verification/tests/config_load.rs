use route_warden::config::{
    default_controller, default_cooldown_sec, default_groups, default_interval_sec, default_logging,
    default_min_improvement, default_min_wins, default_probe, default_routing, default_scoring,
    default_targets, Config, ConfigError, GroupConfig, ProbeConfig, RoutingConfig, TargetConfig,
};

fn default_config() -> Config {
    Config {
        controller: default_controller(),
        probe: default_probe(),
        interval_sec: default_interval_sec(),
        cooldown_sec: default_cooldown_sec(),
        min_wins: default_min_wins(),
        min_improvement: default_min_improvement(),
        groups: default_groups(),
        targets: default_targets(),
        scoring: default_scoring(),
        routing: default_routing(),
        logging: default_logging(),
    }
}

fn minimal_config(method: &str) -> Config {
    Config {
        controller: default_controller(),
        probe: default_probe(),
        interval_sec: 180,
        cooldown_sec: 600,
        min_wins: 3,
        min_improvement: 150_000,
        groups: vec![("GLOBAL_BEST".to_string(), GroupConfig { strategy_group: "RW_GLOBAL".to_string() })],
        targets: vec![(
            "GLOBAL_BEST".to_string(),
            vec![TargetConfig {
                name: "google".to_string(),
                url: "https://www.google.com/generate_204".to_string(),
                method: method.to_string(),
                timeout_ms: 5_000,
                success_status: vec![],
            }],
        )],
        scoring: default_scoring(),
        routing: None,
        logging: default_logging(),
    }
}

#[test]
fn reject_invalid_target_method() {
    let cfg = minimal_config("NOT A METHOD");
    let result = cfg.validate();
    assert!(result.is_err());
    assert_eq!(
        result.unwrap_err(),
        ConfigError::InvalidMethod {
            name: "GLOBAL_BEST".to_string(),
            index: 0,
            method: "NOT A METHOD".to_string()
        }
    );
}

#[test]
fn accepts_extension_methods_and_known_ones() {
    assert!(minimal_config("GET").validate().is_ok());
    assert!(minimal_config("PROPFIND").validate().is_ok());
    assert!(minimal_config("x-custom~").validate().is_ok());
    assert!(minimal_config("").validate().is_err());
    assert!(minimal_config("GÉT").validate().is_err());
}

#[test]
fn load_default_config_matches_example_profile() {
    let cfg = default_config();
    assert!(cfg.validate().is_ok());
    assert_eq!(cfg.interval_sec, 180);
    assert_eq!(cfg.cooldown_sec, 600);
    assert_eq!(cfg.min_wins, 3);
    assert_eq!(cfg.min_improvement, 150_000);

    let controller = cfg.controller.expect("controller defaults");
    assert_eq!(controller.base_url, "unix:///tmp/verge/verge-mihomo.sock");
    assert_eq!(controller.secret, Some(String::new()));

    let probe = cfg.probe.expect("probe defaults");
    assert_eq!(probe.proxy_url, Some("http://127.0.0.1:7890".to_string()));
    assert_eq!(probe.strategy_group, Some("RW_PROBE".to_string()));

    let global = cfg.groups.iter().find(|(k, _)| k == "GLOBAL_BEST").expect("group GLOBAL_BEST");
    assert_eq!(global.1.strategy_group, "RW_GLOBAL");
    let openai = cfg.targets.iter().find(|(k, _)| k == "OPENAI_GROUP").expect("targets OPENAI_GROUP");
    assert_eq!(openai.1.len(), 2);

    let routing = cfg.routing.expect("routing defaults");
    let openai_route = routing
        .domain_to_group
        .iter()
        .find(|(d, _)| d == "api.openai.com")
        .expect("routing api.openai.com");
    assert_eq!(openai_route.1, "OPENAI_GROUP");

    let logging = cfg.logging.expect("logging defaults");
    assert_eq!(logging.level, "info");
}

#[test]
fn each_rule_has_its_error() {
    let mut c = default_config();
    c.interval_sec = 0;
    assert_eq!(c.validate(), Err(ConfigError::IntervalZero));
    let mut c = default_config();
    c.cooldown_sec = 0;
    assert_eq!(c.validate(), Err(ConfigError::CooldownZero));
    let mut c = default_config();
    c.min_wins = 0;
    assert_eq!(c.validate(), Err(ConfigError::MinWinsZero));
    let mut c = default_config();
    c.min_improvement = 1_000_001;
    assert_eq!(c.validate(), Err(ConfigError::MinImprovementOutOfRange));
    c.min_improvement = -1;
    assert_eq!(c.validate(), Err(ConfigError::MinImprovementOutOfRange));
    c.min_improvement = 1_000_000;
    assert!(c.validate().is_ok());
    let mut c = default_config();
    c.groups.clear();
    assert_eq!(c.validate(), Err(ConfigError::GroupsEmpty));
    let mut c = default_config();
    c.groups.remove(2);
    assert_eq!(c.validate(), Err(ConfigError::MissingGlobalBest));
    let mut c = default_config();
    c.probe = Some(ProbeConfig { proxy_url: Some(" \t".to_string()), strategy_group: None });
    assert_eq!(c.validate(), Err(ConfigError::BlankProxyUrl));
    let mut c = default_config();
    c.targets[1].1.clear();
    assert_eq!(c.validate(), Err(ConfigError::EmptyTargets { name: "GITHUB_GROUP".to_string() }));
    let mut c = default_config();
    c.targets[4].1[1].url = "   ".to_string();
    assert_eq!(
        c.validate(),
        Err(ConfigError::BlankTargetUrl { name: "OPENAI_GROUP".to_string(), index: 1 })
    );
    let mut c = default_config();
    c.targets[0].1[0].timeout_ms = 0;
    assert_eq!(
        c.validate(),
        Err(ConfigError::ZeroTimeout { name: "BINANCE_GROUP".to_string(), index: 0 })
    );
    let mut c = default_config();
    c.routing = Some(RoutingConfig { domain_to_group: vec![(" ".to_string(), "GLOBAL_BEST".to_string())] });
    assert_eq!(c.validate(), Err(ConfigError::BlankRoutingDomain));
    c.routing = Some(RoutingConfig { domain_to_group: vec![("a.com".to_string(), " \u{3000}".to_string())] });
    assert_eq!(c.validate(), Err(ConfigError::BlankRoutingGroup { domain: "a.com".to_string() }));
    c.routing = Some(RoutingConfig { domain_to_group: vec![("a.com".to_string(), " NOPE ".to_string())] });
    assert_eq!(
        c.validate(),
        Err(ConfigError::UnknownRoutingGroup { domain: "a.com".to_string(), group: "NOPE".to_string() })
    );
    c.routing = Some(RoutingConfig { domain_to_group: vec![("a.com".to_string(), " RW_CUSTOM".to_string())] });
    assert!(c.validate().is_ok());
    c.routing = Some(RoutingConfig { domain_to_group: vec![("a.com".to_string(), "GLOBAL_BEST ".to_string())] });
    assert!(c.validate().is_ok());
    c.routing = None;
    assert!(c.validate().is_ok());
}

#[test]
fn the_first_broken_rule_is_reported() {
    let mut c = default_config();
    c.cooldown_sec = 0;
    c.min_wins = 0;
    c.groups.clear();
    assert_eq!(c.validate(), Err(ConfigError::CooldownZero));
}
