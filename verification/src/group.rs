//! Deciding a group's round: rank the probed nodes, update the candidate's
//! streak, decide whether to switch, and what to record afterwards.

use vstd::prelude::*;
use crate::config::{Config, ScoringConfig};
use crate::memory::{RuntimeMemory, next_streak};
use crate::round::GroupProbeRound;
use crate::score::{NodeScore, NodeStats, ScoreWeights, rank_descending, score_nodes, scores_of, stats_valid};
use crate::select::{Decision, DecisionInput, DecisionView, make_decision, spec_decision, SCORE_BOUND};
use crate::store::{GroupStateRecord, SwitchEventRecord};
use crate::text::strings_equal;

verus! {

/// Consecutive failures of the current node that trigger an emergency
/// switch.
pub const EMERGENCY_FAILURES: u32 = 3;

/// The weights a configuration asks for: its four weights with the default
/// failure penalty, or all defaults.
pub open spec fn spec_weights(scoring: Option<ScoringConfig>) -> ScoreWeights {
    match scoring {
        Some(s) => ScoreWeights {
            availability_weight: s.availability_weight,
            p50_weight: s.p50_weight,
            p95_weight: s.p95_weight,
            jitter_weight: s.jitter_weight,
            failure_penalty_weight: 200_000,
        },
        None => ScoreWeights {
            availability_weight: 700_000,
            p50_weight: 150_000,
            p95_weight: 100_000,
            jitter_weight: 50_000,
            failure_penalty_weight: 200_000,
        },
    }
}

/// The scoring weights of a round are the configured ones, with the fixed
/// failure penalty of 0.2; without a scoring section they are 0.7, 0.15,
/// 0.1 and 0.05 (all in parts per million).
pub proof fn law_configured_weights_are_used(scoring: Option<ScoringConfig>)
    ensures
        scoring matches Some(s) ==> {
            &&& spec_weights(scoring).availability_weight == s.availability_weight
            &&& spec_weights(scoring).p50_weight == s.p50_weight
            &&& spec_weights(scoring).p95_weight == s.p95_weight
            &&& spec_weights(scoring).jitter_weight == s.jitter_weight
        },
        spec_weights(scoring).failure_penalty_weight == 200_000,
        scoring is None ==> {
            &&& spec_weights(scoring).availability_weight == 700_000
            &&& spec_weights(scoring).p50_weight == 150_000
            &&& spec_weights(scoring).p95_weight == 100_000
            &&& spec_weights(scoring).jitter_weight == 50_000
        },
{
}

pub fn weights_for(scoring: &Option<ScoringConfig>) -> (w: ScoreWeights)
    ensures
        w == spec_weights(*scoring),
{
    match scoring {
        Some(s) => ScoreWeights {
            availability_weight: s.availability_weight,
            p50_weight: s.p50_weight,
            p95_weight: s.p95_weight,
            jitter_weight: s.jitter_weight,
            failure_penalty_weight: 200_000,
        },
        None => ScoreWeights::default_weights(),
    }
}

/// The score of the first entry for `node`, or zero.
pub open spec fn score_of_node(ranked: Seq<NodeScore>, node: Seq<char>) -> i128
    decreases ranked.len(),
{
    if ranked.len() == 0 {
        0
    } else if ranked[0].node@ == node {
        ranked[0].score
    } else {
        score_of_node(ranked.drop_first(), node)
    }
}

proof fn lemma_score_of_node_bounded(ranked: Seq<NodeScore>, node: Seq<char>)
    requires
        forall|k: int| 0 <= k < ranked.len() ==> -SCORE_BOUND <= #[trigger] ranked[k].score <= SCORE_BOUND,
    ensures
        -SCORE_BOUND <= score_of_node(ranked, node) <= SCORE_BOUND,
    decreases ranked.len(),
{
    if ranked.len() > 0 && ranked[0].node@ != node {
        let rest = ranked.drop_first();
        assert forall|k: int| 0 <= k < rest.len() implies -SCORE_BOUND <= #[trigger] rest[k].score <= SCORE_BOUND by {
            assert(rest[k] == ranked[k + 1]);
        }
        lemma_score_of_node_bounded(rest, node);
    }
}

/// The consecutive failures of the first entry for `node`, or zero.
pub open spec fn failures_of_node(stats: Seq<NodeStats>, node: Seq<char>) -> u32
    decreases stats.len(),
{
    if stats.len() == 0 {
        0
    } else if stats[0].node@ == node {
        stats[0].consecutive_failures
    } else {
        failures_of_node(stats.drop_first(), node)
    }
}

fn find_score(ranked: &Vec<NodeScore>, node: &String) -> (r: i128)
    requires
        forall|k: int| 0 <= k < ranked@.len() ==> -SCORE_BOUND <= #[trigger] ranked@[k].score <= SCORE_BOUND,
    ensures
        r == score_of_node(ranked@, node@),
        -SCORE_BOUND <= r <= SCORE_BOUND,
{
    let mut i: usize = 0;
    assert(ranked@.skip(0) =~= ranked@);
    while i < ranked.len()
        invariant
            i <= ranked@.len(),
            forall|k: int| 0 <= k < ranked@.len() ==> -SCORE_BOUND <= #[trigger] ranked@[k].score <= SCORE_BOUND,
            score_of_node(ranked@, node@) == score_of_node(ranked@.skip(i as int), node@),
        decreases ranked@.len() - i,
    {
        assert(ranked@.skip(i as int).drop_first() =~= ranked@.skip(i + 1));
        if strings_equal(&ranked[i].node, node) {
            return ranked[i].score;
        }
        i = i + 1;
    }
    0
}

fn find_failures(stats: &Vec<NodeStats>, node: &String) -> (r: u32)
    ensures
        r == failures_of_node(stats@, node@),
{
    let mut i: usize = 0;
    assert(stats@.skip(0) =~= stats@);
    while i < stats.len()
        invariant
            i <= stats@.len(),
            failures_of_node(stats@, node@) == failures_of_node(stats@.skip(i as int), node@),
        decreases stats@.len() - i,
    {
        assert(stats@.skip(i as int).drop_first() =~= stats@.skip(i + 1));
        if strings_equal(&stats[i].node, node) {
            return stats[i].consecutive_failures;
        }
        i = i + 1;
    }
    0
}

/// What a group's round decided.
pub struct GroupPlan {
    pub group_key: String,
    pub strategy_group: String,
    pub current_node: String,
    pub candidate: String,
    pub current_score: i128,
    pub candidate_score: i128,
    pub candidate_wins: u32,
    pub current_failures: u32,
    pub last_switch_ts: Option<i64>,
    pub now_ts: i64,
    pub decision: Decision,
}

/// Whether every node's statistics are valid.
pub fn all_stats_valid(stats: &Vec<NodeStats>) -> (r: bool)
    ensures
        r == forall|k: int| 0 <= k < stats@.len() ==> stats_valid(#[trigger] stats@[k]),
{
    let mut i: usize = 0;
    while i < stats.len()
        invariant
            i <= stats@.len(),
            forall|k: int| 0 <= k < i ==> stats_valid(#[trigger] stats@[k]),
        decreases stats@.len() - i,
    {
        let st = &stats[i];
        let n = st.latencies_ms.len();
        if st.success > st.total || n > crate::score::SAMPLE_LIMIT {
            assert(!stats_valid(stats@[i as int]));
            return false;
        }
        let mut j: usize = 0;
        while j < n
            invariant
                i < stats@.len(),
                *st == stats@[i as int],
                n == st.latencies_ms@.len(),
                j <= n,
                forall|q: int| 0 <= q < j ==> st.latencies_ms@[q] <= crate::score::LATENCY_LIMIT_MS,
            decreases n - j,
        {
            if st.latencies_ms[j] > crate::score::LATENCY_LIMIT_MS {
                assert(st.latencies_ms@[j as int] > crate::score::LATENCY_LIMIT_MS);
                assert(!stats_valid(stats@[i as int]));
                return false;
            }
            j = j + 1;
        }
        i = i + 1;
    }
    true
}

/// Ranks the round's nodes and decides on the best one. Nothing is decided,
/// and the streak memory is left alone, when no node was probed. The best
/// node's streak is counted in `memory`; the current node's score and
/// consecutive failures are zero when it was not probed.
pub fn plan_group_round(
    round: &GroupProbeRound,
    config: &Config,
    last_switch_ts: Option<i64>,
    memory: &mut RuntimeMemory,
    now_ts: i64,
) -> (r: Option<GroupPlan>)
    requires
        forall|k: int| 0 <= k < round.stats@.len() ==> stats_valid(#[trigger] round.stats@[k]),
    ensures
        (round.stats@.len() == 0) <==> (r is None),
        r is None ==> final(memory)@ == old(memory)@,
        r matches Some(p) ==> {
            let ranked = rank_descending(scores_of(round.stats@, spec_weights(config.scoring)));
            let best = ranked[0];
            let cur = round.current_node@;
            &&& p.group_key@ == round.group_key@
            &&& p.strategy_group@ == round.strategy_group@
            &&& p.current_node@ == cur
            &&& p.candidate@ == best.node@
            &&& p.candidate_score == best.score
            &&& p.current_score == score_of_node(ranked, cur)
            &&& -SCORE_BOUND <= p.current_score <= SCORE_BOUND
            &&& -SCORE_BOUND <= p.candidate_score <= SCORE_BOUND
            &&& p.current_failures == failures_of_node(round.stats@, cur)
            &&& p.last_switch_ts == last_switch_ts
            &&& p.now_ts == now_ts
            &&& (best.node@ == cur ==> p.candidate_wins == 0 && final(memory)@ == old(memory)@.remove(round.group_key@))
            &&& (best.node@ != cur ==> {
                &&& p.candidate_wins == next_streak(
                    if old(memory)@.contains_key(round.group_key@) { Some(old(memory)@[round.group_key@]) } else { None },
                    best.node@,
                )
                &&& final(memory)@ == old(memory)@.insert(round.group_key@, (best.node@, p.candidate_wins))
            })
            &&& p.decision@ == spec_decision(DecisionInput {
                current_node: p.current_node,
                candidate_node: p.candidate,
                current_score: p.current_score,
                candidate_score: p.candidate_score,
                consecutive_candidate_wins: p.candidate_wins,
                consecutive_current_failures: p.current_failures,
                min_wins: config.min_wins,
                min_improvement: config.min_improvement,
                cooldown_sec: config.cooldown_sec,
                last_switch_ts,
                now_ts,
                emergency_failures: EMERGENCY_FAILURES,
            })
        },
{
    if round.stats.len() == 0 {
        return None;
    }
    let weights = weights_for(&config.scoring);
    let ranked = score_nodes(&round.stats, weights);
    let best = &ranked[0];
    let candidate = best.node.clone();
    let current_score = find_score(&ranked, &round.current_node);
    proof {
        lemma_score_of_node_bounded(ranked@, round.current_node@);
    }
    let current_failures = find_failures(&round.stats, &round.current_node);
    let candidate_wins = memory.update_candidate_streak(
        round.group_key.as_str(),
        round.current_node.as_str(),
        candidate.as_str(),
    );
    let input = DecisionInput {
        current_node: round.current_node.clone(),
        candidate_node: candidate.clone(),
        current_score,
        candidate_score: best.score,
        consecutive_candidate_wins: candidate_wins,
        consecutive_current_failures: current_failures,
        min_wins: config.min_wins,
        min_improvement: config.min_improvement,
        cooldown_sec: config.cooldown_sec,
        last_switch_ts,
        now_ts,
        emergency_failures: EMERGENCY_FAILURES,
    };
    let decision = make_decision(&input);
    Some(GroupPlan {
        group_key: round.group_key.clone(),
        strategy_group: round.strategy_group.clone(),
        current_node: input.current_node,
        candidate,
        current_score,
        candidate_score: input.candidate_score,
        candidate_wins,
        current_failures,
        last_switch_ts,
        now_ts,
        decision,
    })
}

/// What is done with a group's decision.
#[derive(Debug, Clone, PartialEq, Eq)]
pub enum GroupApply {
    /// The current node is kept.
    Keep,
    /// A switch was decided, but on a dry run nothing is switched.
    SkipSwitch,
    /// The strategy group `group` is switched to `node`.
    Switch { group: String, node: String },
}

/// What to do with the plan: switch the group's strategy group to the
/// decided node, unless this is a dry run; keep the node otherwise.
pub fn apply_decision(plan: &GroupPlan, dry_run: bool) -> (r: GroupApply)
    ensures
        match plan.decision@ {
            DecisionView::Keep { .. } => r == GroupApply::Keep,
            DecisionView::Switch { to, .. } => if dry_run {
                r == GroupApply::SkipSwitch
            } else {
                r matches GroupApply::Switch { group, node } && group@ == plan.strategy_group@ && node@ == to
            },
        },
{
    match &plan.decision {
        Decision::Keep { .. } => GroupApply::Keep,
        Decision::Switch { to, .. } => {
            if dry_run {
                GroupApply::SkipSwitch
            } else {
                GroupApply::Switch { group: plan.strategy_group.clone(), node: to.clone() }
            }
        },
    }
}

/// `ts + cooldown_sec as i64`, the end of the cooldown after a switch at
/// `ts`, when it fits in an `i64`.
pub open spec fn cooldown_end(ts: i64, cooldown_sec: u64) -> int {
    ts + crate::select::cooldown_as_i64(cooldown_sec)
}

pub open spec fn cooldown_end_fits(last: Option<i64>, cooldown_sec: u64) -> bool {
    last matches Some(ts) ==> i64::MIN <= cooldown_end(ts, cooldown_sec) <= i64::MAX
}

/// The state a group is saved with after its round: the node it switched
/// to (when `switched`) or its current node, the last switch time (now,
/// when it switched), and the end of the cooldown after that switch.
pub fn state_after(plan: &GroupPlan, cooldown_sec: u64, switched: bool) -> (r: GroupStateRecord)
    requires
        switched ==> plan.decision is Switch,
        cooldown_end_fits(if switched { Some(plan.now_ts) } else { plan.last_switch_ts }, cooldown_sec),
    ensures
        r.group_name@ == plan.group_key@,
        r.current_node@ == if switched { plan.candidate@ } else { plan.current_node@ },
        r.last_switch_ts == if switched { Some(plan.now_ts) } else { plan.last_switch_ts },
        r.cooldown_until_ts == match r.last_switch_ts {
            Some(ts) => Some(cooldown_end(ts, cooldown_sec) as i64),
            None => None,
        },
        r.updated_at == plan.now_ts,
{
    let last = if switched { Some(plan.now_ts) } else { plan.last_switch_ts };
    let node = if switched { plan.candidate.clone() } else { plan.current_node.clone() };
    let cooldown: i128 = if cooldown_sec <= i64::MAX as u64 {
        cooldown_sec as i128
    } else {
        cooldown_sec as i128 - 0x1_0000_0000_0000_0000i128
    };
    let until = match last {
        Some(ts) => Some((ts as i128 + cooldown) as i64),
        None => None,
    };
    GroupStateRecord {
        group_name: plan.group_key.clone(),
        current_node: node,
        last_switch_ts: last,
        cooldown_until_ts: until,
        updated_at: plan.now_ts,
    }
}

/// The record of a switch the plan made: from the current node to the
/// candidate, with the score gap and the decision's reason.
pub fn switch_event(plan: &GroupPlan) -> (r: Option<SwitchEventRecord>)
    requires
        -SCORE_BOUND <= plan.current_score <= SCORE_BOUND,
        -SCORE_BOUND <= plan.candidate_score <= SCORE_BOUND,
    ensures
        (r is Some) <==> (plan.decision is Switch),
        r matches Some(e) ==> {
            &&& plan.decision@ matches DecisionView::Switch { from, to, reason }
            &&& e.group_name@ == plan.group_key@
            &&& e.from_node@ == from
            &&& e.to_node@ == to
            &&& e.reason@ == reason
            &&& e.score_gap == plan.candidate_score - plan.current_score
            &&& e.created_at == plan.now_ts
        },
{
    match &plan.decision {
        Decision::Switch { from, to, reason } => Some(SwitchEventRecord {
            group_name: plan.group_key.clone(),
            from_node: from.clone(),
            to_node: to.clone(),
            score_gap: plan.candidate_score - plan.current_score,
            reason: reason.clone(),
            created_at: plan.now_ts,
        }),
        Decision::Keep { .. } => None,
    }
}

} // verus!
