use route_warden::config::{default_controller, default_cooldown_sec, default_groups, default_interval_sec,
    default_logging, default_min_improvement, default_min_wins, default_probe, default_routing,
    default_scoring, default_targets, Config, TargetConfig};
use route_warden::memory::RuntimeMemory;
use route_warden::probe::ProbeResult;
use route_warden::round::{
    build_probe_jobs, filter_candidates, match_target_success, probe_strategy_group, GroupProbeJob,
    ProbeAction, ProbeEvent, ProbeRoundError, ProbeSession, StepError,
};

fn default_config() -> Config {
    Config {
        controller: default_controller(),
        probe: default_probe(),
        interval_sec: default_interval_sec(),
        cooldown_sec: default_cooldown_sec(),
        min_wins: default_min_wins(),
        min_improvement: default_min_improvement(),
        groups: default_groups(),
        targets: default_targets(),
        scoring: default_scoring(),
        routing: default_routing(),
        logging: default_logging(),
    }
}

#[test]
fn candidate_streak_increments_and_resets() {
    let mut memory = RuntimeMemory::default();
    assert_eq!(memory.update_candidate_streak("G", "A", "B"), 1);
    assert_eq!(memory.update_candidate_streak("G", "A", "B"), 2);
    assert_eq!(memory.update_candidate_streak("G", "A", "C"), 1);
    assert_eq!(memory.update_candidate_streak("G", "A", "A"), 0);
}

#[test]
fn streaks_are_kept_per_group() {
    let mut memory = RuntimeMemory::new();
    assert_eq!(memory.update_candidate_streak("G1", "A", "B"), 1);
    assert_eq!(memory.update_candidate_streak("G2", "A", "B"), 1);
    assert_eq!(memory.update_candidate_streak("G1", "A", "B"), 2);
    assert_eq!(memory.update_candidate_streak("G2", "B", "B"), 0);
    assert_eq!(memory.update_candidate_streak("G2", "A", "B"), 1);
    assert_eq!(memory.update_candidate_streak("G1", "A", "B"), 3);
}

#[test]
fn filter_builtin_reject_like_nodes() {
    let out = filter_candidates(&vec![
        "REJECT".to_string(),
        "PASS".to_string(),
        "NodeA".to_string(),
        "DIRECT".to_string(),
    ]);
    assert_eq!(out, vec!["NodeA".to_string(), "DIRECT".to_string()]);
}

#[test]
fn filter_keeps_order_and_drops_all_builtins() {
    let out = filter_candidates(&vec![
        "COMPATIBLE".to_string(),
        "b".to_string(),
        "REJECT-DROP".to_string(),
        "a".to_string(),
        "reject".to_string(),
    ]);
    assert_eq!(out, vec!["b".to_string(), "a".to_string(), "reject".to_string()]);
}

#[test]
fn target_success_prefers_configured_status() {
    let t = TargetConfig {
        name: "binance".to_string(),
        url: "https://api.binance.com".to_string(),
        method: "GET".to_string(),
        timeout_ms: 5_000,
        success_status: vec![200, 403],
    };
    assert!(match_target_success(&t, 403, false));
    assert!(!match_target_success(&t, 429, true));
}

#[test]
fn target_success_falls_back_without_configured_status() {
    let t = TargetConfig {
        name: "x".to_string(),
        url: "https://x".to_string(),
        method: "GET".to_string(),
        timeout_ms: 5_000,
        success_status: vec![],
    };
    assert!(match_target_success(&t, 500, true));
    assert!(!match_target_success(&t, 200, false));
}

#[test]
fn probe_strategy_group_defaults_to_rw_probe() {
    let cfg = default_config();
    assert_eq!(probe_strategy_group(&cfg), "RW_PROBE");
    let mut blank = default_config();
    blank.probe = Some(route_warden::config::ProbeConfig {
        proxy_url: None,
        strategy_group: Some("  ".to_string()),
    });
    assert_eq!(probe_strategy_group(&blank), "RW_PROBE");
    blank.probe = None;
    assert_eq!(probe_strategy_group(&blank), "RW_PROBE");
    blank.probe = Some(route_warden::config::ProbeConfig {
        proxy_url: None,
        strategy_group: Some("MY_PROBE".to_string()),
    });
    assert_eq!(probe_strategy_group(&blank), "MY_PROBE");
}

#[test]
fn jobs_follow_groups_and_skip_groups_without_targets() {
    let mut cfg = default_config();
    let jobs = build_probe_jobs(&cfg);
    let keys: Vec<&str> = jobs.iter().map(|j| j.group_key.as_str()).collect();
    assert_eq!(keys, vec!["BINANCE_GROUP", "GITHUB_GROUP", "GLOBAL_BEST", "GOOGLE_GROUP", "OPENAI_GROUP"]);
    assert_eq!(jobs[2].strategy_group, "RW_GLOBAL");
    assert_eq!(jobs[2].targets.len(), 2);
    cfg.targets.remove(1);
    let jobs = build_probe_jobs(&cfg);
    assert_eq!(jobs.len(), 4);
    assert_eq!(jobs[1].group_key, "GLOBAL_BEST");
}

fn ok_result(status: u16, latency_ms: u64) -> ProbeResult {
    ProbeResult {
        target: "openai".to_string(),
        url: "https://example".to_string(),
        latency_ns: latency_ms * 1_000_000,
        status_code: Some(status),
        is_success: true,
        failure_kind: None,
    }
}

fn openai_job() -> GroupProbeJob {
    GroupProbeJob {
        group_key: "OPENAI_GROUP".to_string(),
        strategy_group: "RW_OPENAI".to_string(),
        targets: vec![TargetConfig {
            name: "openai".to_string(),
            url: "https://example/probe-ok".to_string(),
            method: "GET".to_string(),
            timeout_ms: 5_000,
            success_status: vec![200],
        }],
    }
}

#[test]
fn probe_uses_probe_group_instead_of_strategy_group() {
    let (mut session, mut action) = ProbeSession::start(openai_job(), "RW_PROBE".to_string());
    let mut switched_groups: Vec<String> = Vec::new();
    let round = loop {
        let event = match action {
            ProbeAction::ReadCurrent { group } => {
                assert_eq!(group, "RW_OPENAI");
                ProbeEvent::Current("NodeA".to_string())
            }
            ProbeAction::ReadMembers { group } => {
                assert_eq!(group, "RW_OPENAI");
                ProbeEvent::Members(vec!["NodeA".to_string(), "NodeB".to_string()])
            }
            ProbeAction::ReadProbeCurrent { group } => {
                assert_eq!(group, "RW_PROBE");
                ProbeEvent::Current("ProbeStart".to_string())
            }
            ProbeAction::SwitchProbe { group, .. } => {
                switched_groups.push(group);
                ProbeEvent::Switched
            }
            ProbeAction::Probe { .. } => ProbeEvent::Probed { result: ok_result(200, 40), observed_at: 10 },
            ProbeAction::Restore { group, node } => {
                assert_eq!(node, "ProbeStart");
                switched_groups.push(group);
                ProbeEvent::Switched
            }
            ProbeAction::Finish(result) => break result.expect("probe should complete"),
        };
        action = session.advance(event);
    };

    let openai_switches = switched_groups.iter().filter(|g| g.as_str() == "RW_OPENAI").count();
    let probe_switches = switched_groups.iter().filter(|g| g.as_str() == "RW_PROBE").count();
    assert_eq!(openai_switches, 0, "probe should not touch strategy group");
    assert!(probe_switches >= 1, "probe should switch probe group during tests");
    assert_eq!(round.current_node, "NodeA");
    assert_eq!(round.stats.len(), 2);
    assert_eq!(round.stats[1].node, "NodeB");
    assert_eq!(round.stats[1].success, 1);
    assert_eq!(round.stats[1].latencies_ms, vec![40]);
    assert_eq!(round.probes.len(), 2);
}

#[test]
fn failed_switch_still_restores_probe_group() {
    let (mut session, action) = ProbeSession::start(openai_job(), "RW_PROBE".to_string());
    assert!(matches!(action, ProbeAction::ReadCurrent { .. }));
    let _ = session.advance(ProbeEvent::Current("NodeA".to_string()));
    let _ = session.advance(ProbeEvent::Members(vec!["NodeB".to_string()]));
    let a = session.advance(ProbeEvent::Current("Orig".to_string()));
    assert!(matches!(a, ProbeAction::SwitchProbe { .. }));
    let a = session.advance(ProbeEvent::Failed("refused".to_string()));
    match a {
        ProbeAction::Restore { group, node } => {
            assert_eq!(group, "RW_PROBE");
            assert_eq!(node, "Orig");
        }
        _ => panic!("expected a restore"),
    }
    match session.advance(ProbeEvent::Failed("also refused".to_string())) {
        ProbeAction::Finish(Err(ProbeRoundError::ProbeAndRestore { probe, restore })) => {
            assert!(matches!(probe, StepError::SwitchProbe { .. }));
            assert!(matches!(restore, StepError::Restore { .. }));
        }
        _ => panic!("expected both failures"),
    }
}

#[test]
fn no_candidates_finishes_without_touching_probe_group() {
    let (mut session, _) = ProbeSession::start(openai_job(), "RW_PROBE".to_string());
    let _ = session.advance(ProbeEvent::Current("NodeA".to_string()));
    match session.advance(ProbeEvent::Members(vec!["REJECT".to_string(), "PASS".to_string()])) {
        ProbeAction::Finish(Ok(round)) => {
            assert!(round.stats.is_empty());
            assert!(round.probes.is_empty());
            assert_eq!(round.current_node, "NodeA");
        }
        _ => panic!("expected an empty round"),
    }
}

#[test]
fn failed_probe_status_is_recorded_as_failure() {
    let (mut session, _) = ProbeSession::start(openai_job(), "RW_PROBE".to_string());
    let _ = session.advance(ProbeEvent::Current("NodeA".to_string()));
    let _ = session.advance(ProbeEvent::Members(vec!["NodeA".to_string()]));
    let _ = session.advance(ProbeEvent::Current("Orig".to_string()));
    let _ = session.advance(ProbeEvent::Switched);
    let mut r = ok_result(503, 12);
    r.is_success = false;
    let a = session.advance(ProbeEvent::Probed { result: r, observed_at: 99 });
    assert!(matches!(a, ProbeAction::Restore { .. }));
    match session.advance(ProbeEvent::Switched) {
        ProbeAction::Finish(Ok(round)) => {
            assert_eq!(round.stats[0].success, 0);
            assert_eq!(round.stats[0].consecutive_failures, 1);
            assert_eq!(round.probes[0].failure_kind, Some("http_status_503".to_string()));
            assert_eq!(round.probes[0].created_at, 99);
        }
        _ => panic!("expected a round"),
    }
}
