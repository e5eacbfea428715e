//! Switch decision with hysteresis: consecutive wins, relative improvement,
//! cooldown, and emergency failover.

use vstd::prelude::*;

verus! {

/// Fixed-point scale of fractions (parts per million).
pub const PPM: i128 = 1_000_000;

/// Largest magnitude a score may have; every score that `score_nodes`
/// produces lies within it.
pub const SCORE_BOUND: i128 = 1_000_000_000_000_000_000_000_000_000_000;

/// Inputs of one switch decision. Scores are in units of 10^-12,
/// `min_improvement` is in parts per million.
pub struct DecisionInput {
    pub current_node: String,
    pub candidate_node: String,
    pub current_score: i128,
    pub candidate_score: i128,
    pub consecutive_candidate_wins: u32,
    pub consecutive_current_failures: u32,
    pub min_wins: u32,
    pub min_improvement: i64,
    pub cooldown_sec: u64,
    pub last_switch_ts: Option<i64>,
    pub now_ts: i64,
    pub emergency_failures: u32,
}

#[derive(Debug, Clone, PartialEq, Eq)]
pub enum Decision {
    Keep { reason: String },
    Switch { from: String, to: String, reason: String },
}

/// The mathematical value of a decision.
pub enum DecisionView {
    Keep { reason: Seq<char> },
    Switch { from: Seq<char>, to: Seq<char>, reason: Seq<char> },
}

impl View for Decision {
    type V = DecisionView;

    open spec fn view(&self) -> DecisionView {
        match self {
            Decision::Keep { reason } => DecisionView::Keep { reason: reason@ },
            Decision::Switch { from, to, reason } => DecisionView::Switch {
                from: from@,
                to: to@,
                reason: reason@,
            },
        }
    }
}

pub open spec fn abs_int(x: int) -> int {
    if x < 0 { -x } else { x }
}

/// Relative improvement of `candidate` over `current` in parts per million,
/// rounded down; zero when the candidate is not better, one whole when the
/// current score is zero.
pub open spec fn spec_relative_improvement(current: int, candidate: int) -> int {
    if candidate <= current {
        0
    } else if current == 0 {
        PPM as int
    } else {
        ((candidate - current) * PPM) / abs_int(current)
    }
}

/// The cooldown as `cooldown_sec as i64` reads it: values above `i64::MAX`
/// wrap to negative numbers.
pub open spec fn cooldown_as_i64(cooldown_sec: u64) -> int {
    if cooldown_sec <= i64::MAX { cooldown_sec as int } else { cooldown_sec - 0x1_0000_0000_0000_0000 }
}

/// `now_ts - last` saturated to the range of `i64`.
pub open spec fn saturating_elapsed(last: i64, now_ts: i64) -> int {
    let d = now_ts - last;
    if d > i64::MAX { i64::MAX as int } else if d < i64::MIN { i64::MIN as int } else { d }
}

pub open spec fn spec_cooldown_passed(last_switch_ts: Option<i64>, now_ts: i64, cooldown_sec: u64) -> bool {
    match last_switch_ts {
        None => true,
        Some(last) => saturating_elapsed(last, now_ts) >= cooldown_as_i64(cooldown_sec),
    }
}

pub open spec fn scores_in_bound(input: DecisionInput) -> bool {
    &&& -SCORE_BOUND <= input.current_score <= SCORE_BOUND
    &&& -SCORE_BOUND <= input.candidate_score <= SCORE_BOUND
}

/// The decision rules, checked in order.
pub open spec fn spec_decision(input: DecisionInput) -> DecisionView {
    if input.current_node@ == input.candidate_node@ {
        DecisionView::Keep { reason: "candidate_same_as_current"@ }
    } else if input.consecutive_current_failures >= input.emergency_failures {
        DecisionView::Switch {
            from: input.current_node@,
            to: input.candidate_node@,
            reason: "emergency_failover"@,
        }
    } else if input.consecutive_candidate_wins < input.min_wins {
        DecisionView::Keep { reason: "not_enough_consecutive_wins"@ }
    } else if spec_relative_improvement(input.current_score as int, input.candidate_score as int)
        < input.min_improvement {
        DecisionView::Keep { reason: "improvement_below_threshold"@ }
    } else if !spec_cooldown_passed(input.last_switch_ts, input.now_ts, input.cooldown_sec) {
        DecisionView::Keep { reason: "cooldown_not_passed"@ }
    } else {
        DecisionView::Switch {
            from: input.current_node@,
            to: input.candidate_node@,
            reason: "stable_better_candidate"@,
        }
    }
}

fn str_to_string(s: &str) -> (r: String)
    ensures
        r@ == s@,
{
    String::from_str(s)
}

pub fn make_decision(input: &DecisionInput) -> (d: Decision)
    requires
        scores_in_bound(*input),
    ensures
        d@ == spec_decision(*input),
{
    if input.current_node == input.candidate_node {
        return Decision::Keep { reason: str_to_string("candidate_same_as_current") };
    }
    if input.consecutive_current_failures >= input.emergency_failures {
        return Decision::Switch {
            from: input.current_node.clone(),
            to: input.candidate_node.clone(),
            reason: str_to_string("emergency_failover"),
        };
    }
    if input.consecutive_candidate_wins < input.min_wins {
        return Decision::Keep { reason: str_to_string("not_enough_consecutive_wins") };
    }
    let improvement = relative_improvement(input.current_score, input.candidate_score);
    if improvement < input.min_improvement as i128 {
        return Decision::Keep { reason: str_to_string("improvement_below_threshold") };
    }
    if !cooldown_passed(input.last_switch_ts, input.now_ts, input.cooldown_sec) {
        return Decision::Keep { reason: str_to_string("cooldown_not_passed") };
    }
    Decision::Switch {
        from: input.current_node.clone(),
        to: input.candidate_node.clone(),
        reason: str_to_string("stable_better_candidate"),
    }
}

pub fn relative_improvement(current: i128, candidate: i128) -> (r: i128)
    requires
        -SCORE_BOUND <= current <= SCORE_BOUND,
        -SCORE_BOUND <= candidate <= SCORE_BOUND,
    ensures
        r == spec_relative_improvement(current as int, candidate as int),
{
    if candidate <= current {
        return 0;
    }
    if current == 0 {
        return PPM;
    }
    let magnitude: i128 = if current < 0 { -current } else { current };
    let gap: i128 = candidate - current;
    assert(gap * PPM <= 2 * SCORE_BOUND * PPM) by (nonlinear_arith)
        requires gap <= 2 * SCORE_BOUND, gap > 0;
    (gap * PPM) / magnitude
}

pub fn cooldown_passed(last_switch_ts: Option<i64>, now_ts: i64, cooldown_sec: u64) -> (r: bool)
    ensures
        r == spec_cooldown_passed(last_switch_ts, now_ts, cooldown_sec),
{
    match last_switch_ts {
        None => true,
        Some(last) => {
            let d: i128 = now_ts as i128 - last as i128;
            let elapsed: i128 = if d > i64::MAX as i128 {
                i64::MAX as i128
            } else if d < i64::MIN as i128 {
                i64::MIN as i128
            } else {
                d
            };
            let cooldown: i128 = if cooldown_sec <= i64::MAX as u64 {
                cooldown_sec as i128
            } else {
                cooldown_sec as i128 - 0x1_0000_0000_0000_0000i128
            };
            elapsed >= cooldown
        },
    }
}

/// A candidate that is the current node is never switched to.
pub proof fn law_never_switch_to_current(input: DecisionInput)
    requires
        input.current_node@ == input.candidate_node@,
    ensures
        spec_decision(input) is Keep,
{
}

/// Every switch goes from the current node to the candidate.
pub proof fn law_switch_moves_current_to_candidate(input: DecisionInput)
    requires
        spec_decision(input) is Switch,
    ensures
        spec_decision(input) == (DecisionView::Switch {
            from: input.current_node@,
            to: input.candidate_node@,
            reason: spec_decision(input)->Switch_reason,
        }),
        input.current_node@ != input.candidate_node@,
{
}

/// When the current node has failed at least `emergency_failures` times in
/// a row, the decision is an emergency switch, whatever the candidate's
/// wins, its improvement and the cooldown say.
pub proof fn law_emergency_failover_ignores_cooldown(input: DecisionInput)
    requires
        input.current_node@ != input.candidate_node@,
        input.consecutive_current_failures >= input.emergency_failures,
    ensures
        spec_decision(input) == (DecisionView::Switch {
            from: input.current_node@,
            to: input.candidate_node@,
            reason: "emergency_failover"@,
        }),
{
}

/// Outside an emergency, a switch needs `min_wins` consecutive wins, a
/// relative improvement of at least `min_improvement`, and a passed
/// cooldown; without any one of them the current node is kept.
pub proof fn law_stable_switch_needs_wins_improvement_cooldown(input: DecisionInput)
    requires
        input.consecutive_current_failures < input.emergency_failures,
    ensures
        (spec_decision(input) is Switch) <==> (
            input.current_node@ != input.candidate_node@
            && input.consecutive_candidate_wins >= input.min_wins
            && spec_relative_improvement(input.current_score as int, input.candidate_score as int)
                >= input.min_improvement
            && spec_cooldown_passed(input.last_switch_ts, input.now_ts, input.cooldown_sec)),
{
}

/// Within the cooldown window after the last switch, no switch happens
/// other than an emergency failover.
pub proof fn law_no_switch_within_cooldown(input: DecisionInput, last: i64)
    requires
        input.last_switch_ts == Some(last),
        input.cooldown_sec <= i64::MAX,
        input.now_ts - last < input.cooldown_sec,
        input.consecutive_current_failures < input.emergency_failures,
    ensures
        spec_decision(input) is Keep,
{
}

/// A candidate that is no better than the current node is only switched to
/// in an emergency (or when the threshold is zero or below).
pub proof fn law_no_switch_without_improvement(input: DecisionInput)
    requires
        input.candidate_score <= input.current_score,
        input.min_improvement > 0,
        input.consecutive_current_failures < input.emergency_failures,
    ensures
        spec_decision(input) is Keep,
{
}

} // verus!
