use route_warden::config::{
    default_controller, default_cooldown_sec, default_groups, default_interval_sec, default_logging,
    default_min_improvement, default_min_wins, default_probe, default_routing, default_scoring,
    default_targets, Config,
};
use route_warden::group::{apply_decision, plan_group_round, state_after, switch_event, GroupApply, GroupPlan};
use route_warden::memory::RuntimeMemory;
use route_warden::round::GroupProbeRound;
use route_warden::score::NodeStats;
use route_warden::select::Decision;

fn config() -> Config {
    Config {
        controller: default_controller(),
        probe: default_probe(),
        interval_sec: default_interval_sec(),
        cooldown_sec: default_cooldown_sec(),
        min_wins: default_min_wins(),
        min_improvement: default_min_improvement(),
        groups: default_groups(),
        targets: default_targets(),
        scoring: default_scoring(),
        routing: default_routing(),
        logging: default_logging(),
    }
}

fn stats(node: &str, success: usize, failures: u32) -> NodeStats {
    NodeStats {
        node: node.to_string(),
        total: 2,
        success,
        latencies_ms: vec![100, 120],
        consecutive_failures: failures,
    }
}

fn round(current: &str, stats: Vec<NodeStats>) -> GroupProbeRound {
    GroupProbeRound {
        group_key: "GLOBAL_BEST".to_string(),
        strategy_group: "RW_GLOBAL".to_string(),
        current_node: current.to_string(),
        stats,
        probes: vec![],
    }
}

#[test]
fn better_node_needs_three_rounds() {
    let cfg = config();
    let mut memory = RuntimeMemory::new();
    let r = round("A", vec![stats("A", 1, 0), stats("B", 2, 0)]);
    for wins in 1..=2u32 {
        let plan = plan_group_round(&r, &cfg, None, &mut memory, 1_000).unwrap();
        assert_eq!(plan.candidate, "B");
        assert_eq!(plan.candidate_wins, wins);
        assert!(matches!(plan.decision, Decision::Keep { ref reason } if reason == "not_enough_consecutive_wins"));
    }
    let plan = plan_group_round(&r, &cfg, None, &mut memory, 1_000).unwrap();
    assert_eq!(plan.candidate_wins, 3);
    assert!(matches!(plan.decision, Decision::Switch { .. }));
    let event = switch_event(&plan).unwrap();
    assert_eq!(event.from_node, "A");
    assert_eq!(event.to_node, "B");
    assert_eq!(event.score_gap, plan.candidate_score - plan.current_score);
    let state = state_after(&plan, 600, true);
    assert_eq!(state.current_node, "B");
    assert_eq!(state.last_switch_ts, Some(1_000));
    assert_eq!(state.cooldown_until_ts, Some(1_600));
    let kept = state_after(&plan, 600, false);
    assert_eq!(kept.current_node, "A");
    assert_eq!(kept.last_switch_ts, None);
    assert_eq!(kept.cooldown_until_ts, None);
}

#[test]
fn failing_current_node_is_left_in_an_emergency() {
    let cfg = config();
    let mut memory = RuntimeMemory::new();
    let r = round("A", vec![stats("A", 0, 3), stats("B", 2, 0)]);
    let plan = plan_group_round(&r, &cfg, Some(999), &mut memory, 1_000).unwrap();
    assert_eq!(plan.current_failures, 3);
    assert!(matches!(plan.decision, Decision::Switch { ref reason, .. } if reason == "emergency_failover"));
}

#[test]
fn nothing_probed_decides_nothing() {
    let cfg = config();
    let mut memory = RuntimeMemory::new();
    assert!(plan_group_round(&round("A", vec![]), &cfg, None, &mut memory, 5).is_none());
}

#[test]
fn best_current_node_is_kept_and_forgets_streak() {
    let cfg = config();
    let mut memory = RuntimeMemory::new();
    let r = round("B", vec![stats("A", 1, 0), stats("B", 2, 0)]);
    let plan = plan_group_round(&r, &cfg, Some(10), &mut memory, 1_000).unwrap();
    assert_eq!(plan.candidate_wins, 0);
    assert!(switch_event(&plan).is_none());
    let state = state_after(&plan, 600, false);
    assert_eq!(state.last_switch_ts, Some(10));
    assert_eq!(state.cooldown_until_ts, Some(610));
}

fn plan_with(decision: Decision) -> GroupPlan {
    GroupPlan {
        group_key: "OPENAI_GROUP".to_string(),
        strategy_group: "RW_OPENAI".to_string(),
        current_node: "A".to_string(),
        candidate: "B".to_string(),
        current_score: 0,
        candidate_score: 1,
        candidate_wins: 3,
        current_failures: 0,
        last_switch_ts: None,
        now_ts: 1_000,
        decision,
    }
}

#[test]
fn dry_run_skips_the_switch() {
    let switch = plan_with(Decision::Switch {
        from: "A".to_string(),
        to: "B".to_string(),
        reason: "stable_better_candidate".to_string(),
    });
    assert_eq!(
        apply_decision(&switch, false),
        GroupApply::Switch { group: "RW_OPENAI".to_string(), node: "B".to_string() }
    );
    assert_eq!(apply_decision(&switch, true), GroupApply::SkipSwitch);
    let keep = plan_with(Decision::Keep { reason: "candidate_is_current".to_string() });
    assert_eq!(apply_decision(&keep, false), GroupApply::Keep);
    assert_eq!(apply_decision(&keep, true), GroupApply::Keep);
}
