use route_warden::clash_verge::{
    desired_groups, managed_groups_text, managed_rules, merge_desired_groups, plan_groups_files, plan_rules_files,
    sync_rw_groups, GroupEntry, ProfileError, ProfileItem, ProfilesConfig, SyncPlan,
};
use route_warden::config::{default_groups, default_routing, Config, GroupConfig, RoutingConfig};

fn item(uid: &str, kind: Option<&str>, groups: Option<&str>) -> ProfileItem {
    item_with_rules(uid, kind, groups, None)
}

fn item_with_rules(uid: &str, kind: Option<&str>, groups: Option<&str>, rules: Option<&str>) -> ProfileItem {
    ProfileItem {
        uid: uid.to_string(),
        item_type: kind.map(|k| k.to_string()),
        groups: groups.map(|g| g.to_string()),
        rules: rules.map(|r| r.to_string()),
    }
}

fn routing_config(routing: Option<RoutingConfig>) -> Config {
    Config {
        controller: None,
        probe: None,
        interval_sec: 180,
        cooldown_sec: 600,
        min_wins: 3,
        min_improvement: 150_000,
        groups: default_groups(),
        targets: vec![],
        scoring: None,
        routing,
        logging: None,
    }
}

#[test]
fn desired_groups_lists_managed_groups() {
    let names: Vec<String> = desired_groups().into_iter().map(|g| g.name).collect();
    assert_eq!(names, vec!["RW_CN_DIRECT", "RW_GOOGLE", "RW_BINANCE", "RW_OPENAI", "RW_GITHUB", "RW_GLOBAL", "RW_PROBE"]);
    let direct = &desired_groups()[0];
    assert_eq!(direct.proxies, Some(vec!["DIRECT".to_string()]));
    assert_eq!(direct.include_all, None);
    assert_eq!(desired_groups()[5].include_all, Some(true));
    let probe = &desired_groups()[6];
    assert_eq!(probe.group_type, "select");
    assert_eq!(probe.proxies, None);
    assert_eq!(probe.include_all, Some(true));
}

#[test]
fn merge_replaces_in_place_and_appends_missing() {
    let existing = vec![
        GroupEntry { name: "MINE".to_string(), group_type: "url-test".to_string(), proxies: None, include_all: None },
        GroupEntry { name: "RW_GLOBAL".to_string(), group_type: "fallback".to_string(), proxies: None, include_all: None },
    ];
    let merged = merge_desired_groups(existing);
    let names: Vec<&str> = merged.iter().map(|g| g.name.as_str()).collect();
    assert_eq!(
        names,
        vec!["MINE", "RW_GLOBAL", "RW_CN_DIRECT", "RW_GOOGLE", "RW_BINANCE", "RW_OPENAI", "RW_GITHUB", "RW_PROBE"]
    );
    assert_eq!(merged[1].group_type, "select");
    assert_eq!(merged[0].group_type, "url-test");
    let again = merge_desired_groups(merged.clone());
    assert_eq!(again.len(), merged.len());
}

#[test]
fn current_profile_groups_file() {
    let profiles = ProfilesConfig {
        current: Some("abc".to_string()),
        items: vec![item("abc", Some("remote"), Some("g-current-groups"))],
    };
    assert_eq!(plan_groups_files(&profiles, false), Ok(vec!["g-current-groups.yaml".to_string()]));
}

#[test]
fn all_remote_profiles_sorted_without_repeats() {
    let profiles = ProfilesConfig {
        current: Some("abc".to_string()),
        items: vec![
            item("abc", Some("remote"), Some("g-current-groups")),
            item("def", Some("remote"), Some("g-other-groups")),
            item("ghi", Some("local"), Some("g-local")),
            item("jkl", Some("remote"), Some("g-current-groups")),
            item("mno", Some("remote"), None),
            item("pqr", None, Some("g-none")),
        ],
    };
    assert_eq!(
        plan_groups_files(&profiles, true),
        Ok(vec!["g-current-groups.yaml".to_string(), "g-other-groups.yaml".to_string()])
    );
}

#[test]
fn profile_errors() {
    let none = ProfilesConfig { current: None, items: vec![] };
    assert_eq!(plan_groups_files(&none, false), Err(ProfileError::NoCurrentProfile));
    assert_eq!(plan_groups_files(&none, true), Err(ProfileError::NothingToWrite));
    let missing = ProfilesConfig { current: Some("x".to_string()), items: vec![item("y", Some("remote"), Some("g"))] };
    assert_eq!(
        plan_groups_files(&missing, false),
        Err(ProfileError::CurrentProfileMissing { uid: "x".to_string() })
    );
    let bare = ProfilesConfig { current: Some("y".to_string()), items: vec![item("y", Some("remote"), None)] };
    assert_eq!(plan_groups_files(&bare, false), Err(ProfileError::CurrentProfileWithoutGroups));
}

#[test]
fn managed_text_has_header() {
    assert_eq!(managed_groups_text("append: []\n"), "# Managed by route-warden sync-rw-groups\n\nappend: []\n");
}

#[test]
fn sync_writes_unless_dry_run() {
    let profiles = ProfilesConfig {
        current: Some("abc".to_string()),
        items: vec![item("abc", Some("remote"), Some("g-current-groups"))],
    };
    let files = vec!["g-current-groups.yaml".to_string()];
    assert_eq!(
        sync_rw_groups(&profiles, false, true),
        Ok(SyncPlan { groups_files: files.clone(), rules_files: vec![], write: false })
    );
    assert_eq!(
        sync_rw_groups(&profiles, false, false),
        Ok(SyncPlan { groups_files: files, rules_files: vec![], write: true })
    );
    let empty = ProfilesConfig { current: Some("abc".to_string()), items: vec![] };
    assert_eq!(sync_rw_groups(&empty, true, false), Err(ProfileError::NothingToWrite));
}

#[test]
fn merging_twice_changes_nothing() {
    let existing = vec![
        GroupEntry { name: "RW_GOOGLE".to_string(), group_type: "url-test".to_string(), proxies: None, include_all: None },
        GroupEntry { name: "RW_GOOGLE".to_string(), group_type: "fallback".to_string(), proxies: None, include_all: None },
    ];
    let once = merge_desired_groups(existing);
    let twice = merge_desired_groups(once.clone());
    let view = |v: &Vec<GroupEntry>| -> Vec<(String, String, Option<Vec<String>>, Option<bool>)> {
        v.iter().map(|g| (g.name.clone(), g.group_type.clone(), g.proxies.clone(), g.include_all)).collect()
    };
    assert_eq!(view(&once), view(&twice));
    assert_eq!(once[1].group_type, "fallback");
    assert_eq!(once[0].group_type, "select");
}

#[test]
fn sync_rw_profile_for_current_profile() {
    let profiles = ProfilesConfig {
        current: Some("abc".to_string()),
        items: vec![item_with_rules("abc", Some("remote"), Some("g-current-groups"), Some("g-current-rules"))],
    };
    let plan = sync_rw_groups(&profiles, false, false).unwrap();
    assert_eq!(plan.groups_files, vec!["g-current-groups.yaml".to_string()]);
    assert_eq!(plan.rules_files, vec!["g-current-rules.yaml".to_string()]);
    assert!(plan.write);
    let dry = sync_rw_groups(&profiles, false, true).unwrap();
    assert_eq!(dry.groups_files, plan.groups_files);
    assert_eq!(dry.rules_files, plan.rules_files);
    assert!(!dry.write);

    let groups = merge_desired_groups(vec![]);
    for name in ["RW_GOOGLE", "RW_BINANCE", "RW_OPENAI", "RW_GITHUB", "RW_GLOBAL", "RW_CN_DIRECT", "RW_PROBE"] {
        assert!(groups.iter().any(|g| g.name == name), "missing {name}");
    }
    let rules = managed_rules(&routing_config(default_routing()));
    for rule in ["DOMAIN,google.com,RW_GOOGLE", "DOMAIN,api.binance.com,RW_BINANCE", "GEOIP,CN,RW_CN_DIRECT,no-resolve", "MATCH,RW_GLOBAL"] {
        assert!(rules.prepend.iter().any(|r| r == rule), "missing {rule}");
    }
    assert!(rules.prepend.iter().any(|r| r == "DOMAIN,api.openai.com,RW_OPENAI"));
    assert!(rules.prepend.iter().any(|r| r == "PROCESS-NAME,route-warden,RW_PROBE"));
    assert!(rules.append.is_empty());
}

#[test]
fn sync_rw_profile_for_all_profiles() {
    let profiles = ProfilesConfig {
        current: Some("abc".to_string()),
        items: vec![
            item_with_rules("abc", Some("remote"), Some("g-current-groups"), Some("g-current-rules")),
            item_with_rules("def", Some("remote"), Some("g-other-groups"), Some("g-other-rules")),
            item_with_rules("ghi", Some("local"), Some("g-local"), Some("r-local")),
        ],
    };
    let plan = sync_rw_groups(&profiles, true, false).unwrap();
    assert_eq!(plan.groups_files, vec!["g-current-groups.yaml".to_string(), "g-other-groups.yaml".to_string()]);
    assert_eq!(plan.rules_files, vec!["g-current-rules.yaml".to_string(), "g-other-rules.yaml".to_string()]);
    assert_eq!(plan.groups_files.len() + plan.rules_files.len(), 4);
    assert_eq!(plan_rules_files(&profiles, true), plan.rules_files);
    let groups = merge_desired_groups(vec![]);
    assert!(groups.iter().any(|g| g.name == "RW_GLOBAL"));
    assert!(groups.iter().any(|g| g.name == "RW_PROBE"));
    let rules = managed_rules(&routing_config(default_routing()));
    assert!(rules.prepend.iter().any(|r| r == "MATCH,RW_GLOBAL"));
    assert!(rules.prepend.iter().any(|r| r == "PROCESS-NAME,route-warden,RW_PROBE"));
    let missing_current = ProfilesConfig { current: Some("zzz".to_string()), items: profiles.items.clone() };
    assert!(plan_rules_files(&missing_current, false).is_empty());
}

#[test]
fn managed_rules_route_domains_to_strategy_groups() {
    let rules = managed_rules(&routing_config(default_routing()));
    assert_eq!(
        rules.prepend,
        vec![
            "PROCESS-NAME,route-warden,RW_PROBE",
            "DOMAIN,api.binance.com,RW_BINANCE",
            "DOMAIN,api.github.com,RW_GITHUB",
            "DOMAIN,api.openai.com,RW_OPENAI",
            "DOMAIN,chatgpt.com,RW_OPENAI",
            "DOMAIN,github.com,RW_GITHUB",
            "DOMAIN,google.com,RW_GOOGLE",
            "GEOIP,CN,RW_CN_DIRECT,no-resolve",
            "MATCH,RW_GLOBAL",
        ]
    );
    assert!(rules.append.is_empty());
    assert!(rules.delete.is_empty());
}

#[test]
fn managed_rules_keep_rw_groups_and_trim_references() {
    let routing = RoutingConfig {
        domain_to_group: vec![
            ("a.com".to_string(), " RW_CUSTOM ".to_string()),
            ("b.com".to_string(), "GLOBAL_BEST ".to_string()),
        ],
    };
    let mut config = routing_config(Some(routing));
    config.groups.push(("ZZ".to_string(), GroupConfig { strategy_group: "RW_ZZ".to_string() }));
    let rules = managed_rules(&config);
    assert_eq!(rules.prepend[1], "DOMAIN,a.com,RW_CUSTOM");
    assert_eq!(rules.prepend[2], "DOMAIN,b.com,RW_GLOBAL");
    let none = managed_rules(&routing_config(None));
    assert_eq!(none.prepend, vec!["PROCESS-NAME,route-warden,RW_PROBE", "GEOIP,CN,RW_CN_DIRECT,no-resolve", "MATCH,RW_GLOBAL"]);
}
