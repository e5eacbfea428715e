use route_warden::select::{cooldown_passed, make_decision, relative_improvement, Decision, DecisionInput};

// Scores are in units of 10^-12 and `min_improvement` in parts per million:
// 0.70 is 700_000_000_000 and 0.15 is 150_000.

#[test]
fn does_not_switch_without_consecutive_wins() {
    let input = DecisionInput {
        current_node: "NodeA".to_string(),
        candidate_node: "NodeB".to_string(),
        current_score: 700_000_000_000,
        candidate_score: 900_000_000_000,
        consecutive_candidate_wins: 1,
        consecutive_current_failures: 0,
        min_wins: 3,
        min_improvement: 150_000,
        cooldown_sec: 600,
        last_switch_ts: Some(1_000),
        now_ts: 2_000,
        emergency_failures: 5,
    };

    let decision = make_decision(&input);
    assert!(matches!(
        decision,
        Decision::Keep {
            reason
        } if reason == "not_enough_consecutive_wins"
    ));
}

#[test]
fn switches_when_conditions_met() {
    let input = DecisionInput {
        current_node: "NodeA".to_string(),
        candidate_node: "NodeB".to_string(),
        current_score: 600_000_000_000,
        candidate_score: 900_000_000_000,
        consecutive_candidate_wins: 3,
        consecutive_current_failures: 0,
        min_wins: 3,
        min_improvement: 150_000,
        cooldown_sec: 600,
        last_switch_ts: Some(100),
        now_ts: 1_000,
        emergency_failures: 5,
    };

    let decision = make_decision(&input);
    assert_eq!(
        decision,
        Decision::Switch {
            from: "NodeA".to_string(),
            to: "NodeB".to_string(),
            reason: "stable_better_candidate".to_string()
        }
    );
}

#[test]
fn emergency_failover_ignores_cooldown() {
    let input = DecisionInput {
        current_node: "NodeA".to_string(),
        candidate_node: "NodeB".to_string(),
        current_score: 800_000_000_000,
        candidate_score: 810_000_000_000,
        consecutive_candidate_wins: 0,
        consecutive_current_failures: 6,
        min_wins: 3,
        min_improvement: 150_000,
        cooldown_sec: 600,
        last_switch_ts: Some(9_900),
        now_ts: 10_000,
        emergency_failures: 5,
    };

    let decision = make_decision(&input);
    assert_eq!(
        decision,
        Decision::Switch {
            from: "NodeA".to_string(),
            to: "NodeB".to_string(),
            reason: "emergency_failover".to_string()
        }
    );
}

fn base_input() -> DecisionInput {
    DecisionInput {
        current_node: "NodeA".to_string(),
        candidate_node: "NodeB".to_string(),
        current_score: 600_000_000_000,
        candidate_score: 900_000_000_000,
        consecutive_candidate_wins: 3,
        consecutive_current_failures: 0,
        min_wins: 3,
        min_improvement: 150_000,
        cooldown_sec: 600,
        last_switch_ts: Some(100),
        now_ts: 1_000,
        emergency_failures: 3,
    }
}

fn reason_of(d: &Decision) -> String {
    match d {
        Decision::Keep { reason } => reason.clone(),
        Decision::Switch { reason, .. } => reason.clone(),
    }
}

#[test]
fn same_node_is_kept() {
    let mut input = base_input();
    input.candidate_node = "NodeA".to_string();
    input.consecutive_current_failures = 9;
    assert_eq!(reason_of(&make_decision(&input)), "candidate_same_as_current");
}

#[test]
fn small_improvement_is_kept() {
    let mut input = base_input();
    // 0.69 over 0.60 is 15% exactly; 0.689 is below it.
    input.candidate_score = 689_000_000_000;
    assert_eq!(reason_of(&make_decision(&input)), "improvement_below_threshold");
    input.candidate_score = 690_000_000_000;
    assert_eq!(reason_of(&make_decision(&input)), "stable_better_candidate");
}

#[test]
fn cooldown_blocks_a_stable_switch() {
    let mut input = base_input();
    input.last_switch_ts = Some(500);
    input.now_ts = 1_099;
    assert_eq!(reason_of(&make_decision(&input)), "cooldown_not_passed");
    input.now_ts = 1_100;
    assert_eq!(reason_of(&make_decision(&input)), "stable_better_candidate");
    input.last_switch_ts = None;
    assert_eq!(reason_of(&make_decision(&input)), "stable_better_candidate");
}

#[test]
fn zero_current_score_counts_as_full_improvement() {
    let mut input = base_input();
    input.current_score = 0;
    input.candidate_score = 1;
    input.min_improvement = 1_000_000;
    assert_eq!(reason_of(&make_decision(&input)), "stable_better_candidate");
}

#[test]
fn relative_improvement_values() {
    assert_eq!(relative_improvement(600, 900), 500_000);
    assert_eq!(relative_improvement(-600, -300), 500_000);
    assert_eq!(relative_improvement(900, 600), 0);
    assert_eq!(relative_improvement(0, 5), 1_000_000);
    assert!(cooldown_passed(None, 0, 600));
    assert!(cooldown_passed(Some(0), 600, 600));
    assert!(!cooldown_passed(Some(0), 599, 600));
    assert!(cooldown_passed(Some(i64::MIN), i64::MAX, u64::MAX));
}
