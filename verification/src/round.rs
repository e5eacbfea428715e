//! One probing round of one group: which nodes are candidates, how each
//! probe outcome is judged, and the order of controller calls that probes
//! every candidate through the probe group and then restores it.

use vstd::prelude::*;
use crate::clash_verge::lex_lt;
use crate::config::{TargetConfig, clone_target};
use crate::probe::{ProbeResult, http_status_failure, http_status_kind};
use crate::score::{NodeStats, LATENCY_LIMIT_MS, SAMPLE_LIMIT, stats_valid};
use crate::text::{equals_str, to_owned_string};

verus! {

/// Built-in policy entries that are not proxy nodes.
pub open spec fn is_builtin_policy(name: Seq<char>) -> bool {
    name == "REJECT"@ || name == "REJECT-DROP"@ || name == "PASS"@ || name == "COMPATIBLE"@
}

pub open spec fn not_builtin_policy(name: String) -> bool {
    !is_builtin_policy(name@)
}

/// The members of a group that are candidates.
pub open spec fn spec_candidates(nodes: Seq<String>) -> Seq<String> {
    nodes.filter(|n: String| not_builtin_policy(n))
}

/// The candidates of a group are its members without the built-in
/// policies REJECT, REJECT-DROP, PASS and COMPATIBLE: none of these is
/// kept, every other member is.
pub proof fn law_candidates_drop_builtin_policies(nodes: Seq<String>)
    ensures
        spec_candidates(nodes) == nodes.filter(|n: String| not_builtin_policy(n)),
        spec_candidates(nodes).len() <= nodes.len(),
        forall|i: int| 0 <= i < spec_candidates(nodes).len() ==> {
            &&& (#[trigger] spec_candidates(nodes)[i])@ != "REJECT"@
            &&& spec_candidates(nodes)[i]@ != "REJECT-DROP"@
            &&& spec_candidates(nodes)[i]@ != "PASS"@
            &&& spec_candidates(nodes)[i]@ != "COMPATIBLE"@
        },
        forall|i: int| 0 <= i < nodes.len() && nodes[i]@ != "REJECT"@ && nodes[i]@ != "REJECT-DROP"@
            && nodes[i]@ != "PASS"@ && nodes[i]@ != "COMPATIBLE"@
            ==> spec_candidates(nodes).contains(#[trigger] nodes[i]),
{
    let pred = |n: String| not_builtin_policy(n);
    assert(spec_candidates(nodes) == nodes.filter(pred));
    nodes.lemma_filter_len(pred);
    assert forall|i: int| 0 <= i < spec_candidates(nodes).len() implies {
        &&& (#[trigger] spec_candidates(nodes)[i])@ != "REJECT"@
        &&& spec_candidates(nodes)[i]@ != "REJECT-DROP"@
        &&& spec_candidates(nodes)[i]@ != "PASS"@
        &&& spec_candidates(nodes)[i]@ != "COMPATIBLE"@
    } by {
        nodes.lemma_filter_pred(pred, i);
    }
    assert forall|i: int| 0 <= i < nodes.len() && nodes[i]@ != "REJECT"@ && nodes[i]@ != "REJECT-DROP"@
        && nodes[i]@ != "PASS"@ && nodes[i]@ != "COMPATIBLE"@
        implies spec_candidates(nodes).contains(#[trigger] nodes[i]) by {
        nodes.lemma_filter_contains(pred, i);
    }
}

/// The group members that can be probed: all but REJECT, REJECT-DROP, PASS
/// and COMPATIBLE, in their order.
pub fn filter_candidates(nodes: &Vec<String>) -> (r: Vec<String>)
    ensures
        r@ == nodes@.filter(|n: String| not_builtin_policy(n)),
{
    let mut out: Vec<String> = Vec::new();
    let mut i: usize = 0;
    while i < nodes.len()
        invariant
            i <= nodes@.len(),
            out@ == nodes@.take(i as int).filter(|n: String| not_builtin_policy(n)),
        decreases nodes@.len() - i,
    {
        let name = &nodes[i];
        let builtin = equals_str(name, "REJECT") || equals_str(name, "REJECT-DROP")
            || equals_str(name, "PASS") || equals_str(name, "COMPATIBLE");
        proof {
            nodes@.take(i as int).lemma_filter_push(nodes@[i as int], |n: String| not_builtin_policy(n));
            assert(nodes@.take(i + 1) =~= nodes@.take(i as int).push(nodes@[i as int]));
        }
        if !builtin {
            out.push(name.clone());
        }
        i = i + 1;
    }
    assert(nodes@.take(nodes@.len() as int) =~= nodes@);
    out
}

/// Whether `status` counts as success for `target`: its configured
/// statuses when it has any, else `fallback`.
pub open spec fn spec_match_target_success(target: TargetConfig, status: u16, fallback: bool) -> bool {
    if target.success_status@.len() == 0 {
        fallback
    } else {
        target.success_status@.contains(status)
    }
}

/// With configured statuses a probe succeeds exactly when its status is one
/// of them, whatever the fallback says; without any, the fallback decides.
pub proof fn law_configured_statuses_decide(target: TargetConfig, status: u16, fallback: bool)
    ensures
        target.success_status@.len() > 0 ==> (spec_match_target_success(target, status, fallback)
            <==> exists|i: int| 0 <= i < target.success_status@.len() && target.success_status@[i] == status),
        forall|i: int| 0 <= i < target.success_status@.len() && target.success_status@[i] == status
            ==> spec_match_target_success(target, status, fallback),
        target.success_status@.len() == 0 ==> spec_match_target_success(target, status, fallback) == fallback,
{
    if target.success_status@.len() > 0 {
        if spec_match_target_success(target, status, fallback) {
            let i = target.success_status@.index_of(status);
            assert(target.success_status@[i] == status);
        }
        assert forall|i: int| 0 <= i < target.success_status@.len() && target.success_status@[i] == status
            implies spec_match_target_success(target, status, fallback) by {
            assert(target.success_status@.contains(status));
        }
    }
}

pub fn match_target_success(target: &TargetConfig, status: u16, fallback: bool) -> (r: bool)
    ensures
        r == spec_match_target_success(*target, status, fallback),
{
    if target.success_status.len() == 0 {
        return fallback;
    }
    let mut i: usize = 0;
    while i < target.success_status.len()
        invariant
            i <= target.success_status@.len(),
            forall|k: int| 0 <= k < i ==> target.success_status@[k] != status,
        decreases target.success_status@.len() - i,
    {
        if target.success_status[i] == status {
            assert(target.success_status@[i as int] == status);
            return true;
        }
        i = i + 1;
    }
    false
}

/// The work of probing one group.
#[derive(Debug, Clone)]
pub struct GroupProbeJob {
    pub group_key: String,
    pub strategy_group: String,
    pub targets: Vec<TargetConfig>,
}

/// One recorded probe of one target through one node.
#[derive(Debug, Clone)]
pub struct GroupProbeSample {
    pub node_name: String,
    pub target: String,
    pub status_code: Option<u16>,
    pub latency_ns: u64,
    pub is_success: bool,
    pub failure_kind: Option<String>,
    pub created_at: i64,
}

/// What one group's probing produced.
#[derive(Debug, Clone)]
pub struct GroupProbeRound {
    pub group_key: String,
    pub strategy_group: String,
    pub current_node: String,
    pub stats: Vec<NodeStats>,
    pub probes: Vec<GroupProbeSample>,
}

/// Whether a probe counts as success: it got a response whose status the
/// target accepts.
pub open spec fn probe_ok(target: TargetConfig, r: ProbeResult) -> bool {
    match r.status_code {
        Some(s) => spec_match_target_success(target, s, r.is_success),
        None => false,
    }
}

/// The failure kind recorded for a probe: none on success, else the probe's
/// own kind, else the HTTP status kind.
pub open spec fn sample_failure(ok: bool, r: ProbeResult) -> Option<Seq<char>> {
    if ok {
        None
    } else {
        match r.failure_kind {
            Some(k) => Some(k@),
            None => match r.status_code {
                Some(s) => Some(http_status_kind(s)),
                None => None,
            },
        }
    }
}

pub open spec fn opt_view(o: Option<String>) -> Option<Seq<char>> {
    match o {
        Some(s) => Some(s@),
        None => None,
    }
}

/// Whether `s` records `r`, the probe of `target` through `node` observed at
/// `at`.
pub open spec fn sample_records(s: GroupProbeSample, node: Seq<char>, target: TargetConfig, r: ProbeResult, at: i64) -> bool {
    &&& s.node_name@ == node
    &&& s.target@ == target.name@
    &&& s.status_code == r.status_code
    &&& s.latency_ns == r.latency_ns
    &&& s.is_success == probe_ok(target, r)
    &&& opt_view(s.failure_kind) == sample_failure(probe_ok(target, r), r)
    &&& s.created_at == at
}

/// A probe's sample: a probe without a response failed; a response
/// succeeds exactly when its status is one the target lists, or, when it
/// lists none, when the status classification said so. A successful sample
/// has no failure kind; a failed one carries the probe's own kind, else
/// `http_status_` and its status.
pub proof fn law_sample_judges_the_probe(s: GroupProbeSample, node: Seq<char>, target: TargetConfig, r: ProbeResult, at: i64)
    requires
        sample_records(s, node, target, r, at),
    ensures
        r.status_code is None ==> !s.is_success,
        r.status_code matches Some(st) ==> (target.success_status@.len() > 0 ==> (s.is_success
            <==> exists|i: int| 0 <= i < target.success_status@.len() && target.success_status@[i] == st)),
        r.status_code is Some && target.success_status@.len() == 0 ==> s.is_success == r.is_success,
        s.is_success ==> s.failure_kind is None,
        !s.is_success ==> (r.failure_kind matches Some(k) ==> (s.failure_kind matches Some(f) && f@ == k@)),
        !s.is_success && r.failure_kind is None ==> (r.status_code matches Some(st)
            ==> (s.failure_kind matches Some(f) && f@ == "http_status_"@ + crate::text::decimal(st as nat))),
{
    if let Some(st) = r.status_code {
        law_configured_statuses_decide(target, st, r.is_success);
    }
}

/// The sample that records a probe.
pub fn record_sample(node: &String, target: &TargetConfig, r: &ProbeResult, at: i64) -> (s: GroupProbeSample)
    ensures
        sample_records(s, node@, *target, *r, at),
{
    let ok = match r.status_code {
        Some(status) => match_target_success(target, status, r.is_success),
        None => false,
    };
    let failure_kind = if ok {
        None
    } else {
        match &r.failure_kind {
            Some(k) => Some(k.clone()),
            None => match r.status_code {
                Some(status) => Some(http_status_failure(status)),
                None => None,
            },
        }
    };
    GroupProbeSample {
        node_name: node.clone(),
        target: target.name.clone(),
        status_code: r.status_code,
        latency_ns: r.latency_ns,
        is_success: ok,
        failure_kind,
        created_at: at,
    }
}

/// The number of successful samples.
pub open spec fn count_ok(s: Seq<GroupProbeSample>) -> nat
    decreases s.len(),
{
    if s.len() == 0 {
        0
    } else {
        count_ok(s.drop_last()) + if s.last().is_success { 1nat } else { 0nat }
    }
}

/// The latencies of the samples in whole milliseconds (rounded down).
pub open spec fn latencies_ms_of(s: Seq<GroupProbeSample>) -> Seq<u64> {
    s.map_values(|x: GroupProbeSample| (x.latency_ns / 1_000_000) as u64)
}

/// Whether `st` sums up the samples of `node`: one probe per sample, the
/// successes counted, the latencies in order, and one consecutive failure
/// when nothing succeeded.
pub open spec fn stats_summarize(st: NodeStats, node: Seq<char>, s: Seq<GroupProbeSample>) -> bool {
    &&& st.node@ == node
    &&& st.total == s.len()
    &&& st.success == count_ok(s)
    &&& st.latencies_ms@ == latencies_ms_of(s)
    &&& st.consecutive_failures == if count_ok(s) == 0 { 1u32 } else { 0u32 }
}

proof fn lemma_count_ok_zero(s: Seq<GroupProbeSample>)
    ensures
        (count_ok(s) == 0) <==> (forall|i: int| 0 <= i < s.len() ==> !(#[trigger] s[i]).is_success),
    decreases s.len(),
{
    if s.len() > 0 {
        let t = s.drop_last();
        lemma_count_ok_zero(t);
        assert forall|i: int| 0 <= i < t.len() implies #[trigger] t[i] == s[i] by {}
        if count_ok(s) == 0 {
            assert forall|i: int| 0 <= i < s.len() implies !(#[trigger] s[i]).is_success by {
                if i < t.len() {
                    assert(t[i] == s[i]);
                }
            }
        } else if forall|i: int| 0 <= i < s.len() ==> !(#[trigger] s[i]).is_success {
            assert(!s[s.len() - 1].is_success);
            assert forall|i: int| 0 <= i < t.len() implies !(#[trigger] t[i]).is_success by {
                assert(t[i] == s[i]);
            }
        }
    }
}

/// A node's statistics count its probes and successes, and mark a failure
/// streak exactly when none of its probes succeeded: one successful target
/// clears it, whatever the others did.
pub proof fn law_failure_streak_only_without_success(st: NodeStats, node: Seq<char>, s: Seq<GroupProbeSample>)
    requires
        stats_summarize(st, node, s),
    ensures
        st.total == s.len(),
        st.success <= st.total,
        (exists|i: int| 0 <= i < s.len() && (#[trigger] s[i]).is_success) ==> st.consecutive_failures == 0 && st.success > 0,
        (forall|i: int| 0 <= i < s.len() ==> !(#[trigger] s[i]).is_success) ==> st.consecutive_failures == 1 && st.success == 0,
        (forall|i: int| 0 <= i < s.len() ==> (#[trigger] s[i]).is_success) ==> st.success == st.total,
{
    lemma_count_ok_zero(s);
    lemma_count_ok_bound(s);
    lemma_count_ok_all(s);
}

proof fn lemma_count_ok_all(s: Seq<GroupProbeSample>)
    ensures
        (forall|i: int| 0 <= i < s.len() ==> (#[trigger] s[i]).is_success) ==> count_ok(s) == s.len(),
    decreases s.len(),
{
    if s.len() > 0 {
        let t = s.drop_last();
        lemma_count_ok_all(t);
        if forall|i: int| 0 <= i < s.len() ==> (#[trigger] s[i]).is_success {
            assert forall|i: int| 0 <= i < t.len() implies (#[trigger] t[i]).is_success by {
                assert(t[i] == s[i]);
            }
            assert(s[s.len() - 1].is_success);
        }
    }
}

proof fn lemma_count_ok_bound(s: Seq<GroupProbeSample>)
    ensures
        count_ok(s) <= s.len(),
    decreases s.len(),
{
    if s.len() > 0 {
        lemma_count_ok_bound(s.drop_last());
    }
}

/// The statistics of one node from its samples.
pub fn summarize_node(node: &String, samples: &Vec<GroupProbeSample>) -> (st: NodeStats)
    requires
        samples@.len() <= SAMPLE_LIMIT,
    ensures
        stats_summarize(st, node@, samples@),
        stats_valid(st),
{
    let mut success: usize = 0;
    let mut latencies: Vec<u64> = Vec::new();
    let mut i: usize = 0;
    while i < samples.len()
        invariant
            i <= samples@.len(),
            samples@.len() <= SAMPLE_LIMIT,
            success == count_ok(samples@.take(i as int)),
            latencies@ == latencies_ms_of(samples@.take(i as int)),
        decreases samples@.len() - i,
    {
        let ghost t = samples@.take(i + 1);
        assert(t.drop_last() =~= samples@.take(i as int));
        proof {
            lemma_count_ok_bound(samples@.take(i as int));
        }
        if samples[i].is_success {
            success = success + 1;
        }
        latencies.push(samples[i].latency_ns / 1_000_000);
        assert(latencies@ =~= latencies_ms_of(t));
        i = i + 1;
    }
    assert(samples@.take(samples@.len() as int) =~= samples@);
    proof {
        lemma_count_ok_bound(samples@);
    }
    assert forall|k: int| 0 <= k < latencies@.len() implies latencies@[k] <= LATENCY_LIMIT_MS by {
        assert(samples@[k].latency_ns / 1_000_000 <= LATENCY_LIMIT_MS);
    }
    NodeStats {
        node: node.clone(),
        total: samples.len(),
        success,
        latencies_ms: latencies,
        consecutive_failures: if success == 0 { 1 } else { 0 },
    }
}

// ---------------------------------------------------------------------
// The probing session of one group.

/// Where a probing session stands.
#[derive(Debug, Clone, Copy, PartialEq, Eq)]
pub enum ProbePhase {
    ReadingCurrent,
    ReadingMembers,
    ReadingProbeCurrent,
    Switching,
    Probing,
    Restoring,
    Finished,
}

/// A controller or probe step that failed, with the failure's text.
#[derive(Debug, Clone)]
pub enum StepError {
    ReadCurrent { group: String, cause: String },
    ReadMembers { group: String, cause: String },
    ReadProbeCurrent { group: String, cause: String },
    SwitchProbe { group: String, node: String, cause: String },
    Probe { node: String, target: String, cause: String },
    Restore { group: String, node: String, cause: String },
}

/// Why a group's probing failed: one step, or a probe step and then the
/// restoration of the probe group too.
#[derive(Debug, Clone)]
pub enum ProbeRoundError {
    Step(StepError),
    ProbeAndRestore { probe: StepError, restore: StepError },
}

/// The next outside step a session asks for.
pub enum ProbeAction {
    /// Read the node the group's strategy group currently uses.
    ReadCurrent { group: String },
    /// Read the members of the group's strategy group.
    ReadMembers { group: String },
    /// Read the node the probe group currently uses.
    ReadProbeCurrent { group: String },
    /// Point the probe group at a candidate node.
    SwitchProbe { group: String, node: String },
    /// Probe one target through the probe group.
    Probe { node: String, target: TargetConfig },
    /// Point the probe group back at the node it had before probing.
    Restore { group: String, node: String },
    /// The session is over.
    Finish(Result<GroupProbeRound, ProbeRoundError>),
}

/// What an outside step gave back.
pub enum ProbeEvent {
    /// A group's current node.
    Current(String),
    /// A group's members.
    Members(Vec<String>),
    /// A switch of the probe group succeeded.
    Switched,
    /// A probe finished, at the given time (seconds since the epoch).
    Probed { result: ProbeResult, observed_at: i64 },
    /// The step failed; the text says why.
    Failed(String),
}

/// A group's probing, one outside step at a time: read the strategy group's
/// current node and members, read the probe group's node, then for every
/// candidate switch the probe group to it and probe every target, and
/// finally switch the probe group back.
pub struct ProbeSession {
    pub job: GroupProbeJob,
    pub probe_group: String,
    pub phase: ProbePhase,
    pub current_node: String,
    pub candidates: Vec<String>,
    /// The probe group's node before probing, which it is switched back to.
    pub probe_home_node: String,
    pub node_index: usize,
    pub node_samples: Vec<GroupProbeSample>,
    pub stats: Vec<NodeStats>,
    pub probes: Vec<GroupProbeSample>,
    pub probe_error: Option<StepError>,
    /// The samples of every finished node, one sequence per node.
    pub chunks: Ghost<Seq<Seq<GroupProbeSample>>>,
}

/// Whether the samples are probes of the targets in order, all through `node`.
pub open spec fn samples_fit(c: Seq<GroupProbeSample>, node: Seq<char>, targets: Seq<TargetConfig>) -> bool {
    &&& c.len() <= targets.len()
    &&& forall|j: int| 0 <= j < c.len() ==> (#[trigger] c[j]).node_name@ == node && c[j].target@ == targets[j].name@
}

/// Whether `round` sums up the probes of every candidate: one statistics
/// entry per candidate in order, each from a full pass over the targets.
pub open spec fn round_summarizes(
    round: GroupProbeRound,
    job: GroupProbeJob,
    current_node: Seq<char>,
    candidates: Seq<String>,
    chunks: Seq<Seq<GroupProbeSample>>,
) -> bool {
    &&& round.group_key@ == job.group_key@
    &&& round.strategy_group@ == job.strategy_group@
    &&& round.current_node@ == current_node
    &&& round.stats@.len() == candidates.len()
    &&& chunks.len() == candidates.len()
    &&& forall|i: int| 0 <= i < candidates.len() ==> {
        &&& stats_summarize(#[trigger] round.stats@[i], candidates[i]@, chunks[i])
        &&& stats_valid(round.stats@[i])
        &&& chunks[i].len() == job.targets@.len()
        &&& samples_fit(chunks[i], candidates[i]@, job.targets@)
    }
    &&& round.probes@ == chunks.flatten()
}

impl ProbeSession {
    pub open spec fn wf(self) -> bool {
        &&& self.job.targets@.len() <= SAMPLE_LIMIT
        &&& !(self.phase is Finished) ==> self.summed_up()
        &&& self.phase is ReadingProbeCurrent ==> self.candidates@.len() > 0
    }

    /// What the session holds until it finishes: the statistics and samples
    /// of every finished node, and the progress of the current one.
    pub open spec fn summed_up(self) -> bool {
        &&& self.nodes_summed()
        &&& (self.phase is Switching || self.phase is Probing) ==> {
            &&& self.node_index == self.stats@.len()
            &&& self.node_index < self.candidates@.len()
            &&& self.probe_error is None
        }
        &&& self.phase is Switching ==> self.node_samples@.len() == 0
        &&& self.phase is Probing ==> {
            &&& self.node_samples@.len() < self.job.targets@.len()
            &&& samples_fit(self.node_samples@, self.candidates@[self.node_index as int]@, self.job.targets@)
        }
        &&& (self.phase is Restoring && self.probe_error is None) ==> self.stats@.len() == self.candidates@.len()
        &&& (self.phase is ReadingCurrent || self.phase is ReadingMembers || self.phase is ReadingProbeCurrent) ==> {
            &&& self.stats@.len() == 0
            &&& self.node_samples@.len() == 0
            &&& self.probe_error is None
        }
    }

    /// The statistics and samples of the finished nodes.
    pub open spec fn nodes_summed(self) -> bool {
        &&& self.job.targets@.len() <= SAMPLE_LIMIT
        &&& self.stats@.len() == self.chunks@.len()
        &&& self.stats@.len() <= self.candidates@.len()
        &&& forall|i: int| 0 <= i < self.stats@.len() ==> {
            &&& stats_summarize(#[trigger] self.stats@[i], self.candidates@[i]@, self.chunks@[i])
            &&& stats_valid(self.stats@[i])
            &&& self.chunks@[i].len() == self.job.targets@.len()
            &&& samples_fit(self.chunks@[i], self.candidates@[i]@, self.job.targets@)
        }
        &&& self.probes@ == self.chunks@.flatten()
    }

    /// Whether the probe group may be pointed at a candidate: from the
    /// moment its node before probing is known until it is restored.
    pub open spec fn probe_group_held(self) -> bool {
        self.phase is Switching || self.phase is Probing || self.phase is Restoring
    }

    /// Starts probing `job` through `probe_group`; the first step reads the
    /// strategy group's current node.
    pub fn start(job: GroupProbeJob, probe_group: String) -> (r: (ProbeSession, ProbeAction))
        requires
            job.targets@.len() <= SAMPLE_LIMIT,
        ensures
            r.0.wf(),
            r.0.phase is ReadingCurrent,
            r.0.job == job,
            r.0.probe_group == probe_group,
            r.1 matches ProbeAction::ReadCurrent { group } && group@ == job.strategy_group@,
    {
        let group = job.strategy_group.clone();
        let session = ProbeSession {
            job,
            probe_group,
            phase: ProbePhase::ReadingCurrent,
            current_node: String::new(),
            candidates: Vec::new(),
            probe_home_node: String::new(),
            node_index: 0,
            node_samples: Vec::new(),
            stats: Vec::new(),
            probes: Vec::new(),
            probe_error: None,
            chunks: Ghost(Seq::empty()),
        };
        (session, ProbeAction::ReadCurrent { group })
    }

    fn clone_round_header(&self) -> (r: (String, String, String))
        ensures
            r.0@ == self.job.group_key@,
            r.1@ == self.job.strategy_group@,
            r.2@ == self.current_node@,
    {
        (self.job.group_key.clone(), self.job.strategy_group.clone(), self.current_node.clone())
    }

    fn switch_to_current_candidate(&self) -> (a: ProbeAction)
        requires
            self.node_index < self.candidates@.len(),
        ensures
            a == (ProbeAction::SwitchProbe { group: self.probe_group, node: self.candidates@[self.node_index as int] }),
    {
        ProbeAction::SwitchProbe {
            group: self.probe_group.clone(),
            node: self.candidates[self.node_index].clone(),
        }
    }

    fn restore_action(&self) -> (a: ProbeAction)
        ensures
            a == (ProbeAction::Restore { group: self.probe_group, node: self.probe_home_node }),
    {
        ProbeAction::Restore { group: self.probe_group.clone(), node: self.probe_home_node.clone() }
    }

    /// Closes the current node: its samples become its statistics, and the
    /// next candidate is switched to, or the probe group is restored.
    fn finish_node(&mut self) -> (a: ProbeAction)
        requires
            old(self).nodes_summed(),
            old(self).phase is Probing || old(self).phase is Switching,
            old(self).node_index == old(self).stats@.len(),
            old(self).node_index < old(self).candidates@.len(),
            old(self).probe_error is None,
            old(self).node_samples@.len() == old(self).job.targets@.len(),
            samples_fit(old(self).node_samples@, old(self).candidates@[old(self).node_index as int]@, old(self).job.targets@),
        ensures
            final(self).wf(),
            final(self).job == old(self).job,
            final(self).probe_group == old(self).probe_group,
            final(self).probe_home_node == old(self).probe_home_node,
            final(self).candidates == old(self).candidates,
            final(self).current_node == old(self).current_node,
            final(self).probe_error is None,
            final(self).chunks@ == old(self).chunks@.push(old(self).node_samples@),
            final(self).node_index == old(self).node_index + 1,
            stats_summarize(final(self).stats@.last(), old(self).candidates@[old(self).node_index as int]@, old(self).node_samples@),
            final(self).stats@ == old(self).stats@.push(final(self).stats@.last()),
            final(self).node_index < final(self).candidates@.len() ==> {
                &&& final(self).phase is Switching
                &&& a == (ProbeAction::SwitchProbe {
                    group: final(self).probe_group,
                    node: final(self).candidates@[final(self).node_index as int],
                })
            },
            final(self).node_index == final(self).candidates@.len() ==> {
                &&& final(self).phase is Restoring
                &&& a == (ProbeAction::Restore { group: final(self).probe_group, node: final(self).probe_home_node })
            },
    {
        let node = self.candidates[self.node_index].clone();
        let st = summarize_node(&node, &self.node_samples);
        let ghost done = self.node_samples@;
        proof {
            self.chunks@.lemma_flatten_push(done);
        }
        let mut taken: Vec<GroupProbeSample> = Vec::new();
        std::mem::swap(&mut taken, &mut self.node_samples);
        self.probes.append(&mut taken);
        self.stats.push(st);
        self.chunks = Ghost(self.chunks@.push(done));
        let n = self.candidates.len();
        assert(self.node_index < n);
        self.node_index = self.node_index + 1;
        assert(self.stats@.last() == st);
        assert forall|i: int| 0 <= i < self.stats@.len() implies {
            &&& stats_summarize(#[trigger] self.stats@[i], self.candidates@[i]@, self.chunks@[i])
            &&& stats_valid(self.stats@[i])
            &&& self.chunks@[i].len() == self.job.targets@.len()
            &&& samples_fit(self.chunks@[i], self.candidates@[i]@, self.job.targets@)
        } by {
            if i < self.stats@.len() - 1 {
                assert(self.stats@[i] == old(self).stats@[i]);
                assert(self.chunks@[i] == old(self).chunks@[i]);
            }
        }
        if self.node_index < self.candidates.len() {
            self.phase = ProbePhase::Switching;
            self.switch_to_current_candidate()
        } else {
            self.phase = ProbePhase::Restoring;
            self.restore_action()
        }
    }

    fn fail_probing(&mut self, e: StepError) -> (a: ProbeAction)
        requires
            old(self).wf(),
            old(self).phase is Probing || old(self).phase is Switching,
        ensures
            final(self).wf(),
            final(self).phase is Restoring,
            final(self).job == old(self).job,
            final(self).probe_group == old(self).probe_group,
            final(self).probe_home_node == old(self).probe_home_node,
            final(self).candidates == old(self).candidates,
            final(self).current_node == old(self).current_node,
            final(self).probe_error == Some(e),
            a == (ProbeAction::Restore { group: final(self).probe_group, node: final(self).probe_home_node }),
    {
        self.probe_error = Some(e);
        self.phase = ProbePhase::Restoring;
        self.restore_action()
    }

    /// What every step keeps and guarantees, from `old` to `new`, for the
    /// outcome `event` and the next step `a`.
    pub open spec fn step_post(old: ProbeSession, new: ProbeSession, event: ProbeEvent, a: ProbeAction) -> bool {
        &&& new.wf()
        &&& new.job == old.job
        &&& new.probe_group == old.probe_group
        // the strategy group's current node is read once, at the start
        &&& !(a is ReadCurrent)
        &&& a matches ProbeAction::ReadMembers { group } ==> group@ == new.job.strategy_group@
        &&& a matches ProbeAction::ReadProbeCurrent { group } ==> group@ == new.probe_group@
        // switches go to the probe group only, to the candidates in order
        &&& a matches ProbeAction::SwitchProbe { group, node } ==> {
            &&& group@ == new.probe_group@
            &&& new.phase is Switching
            &&& node@ == new.candidates@[new.node_index as int]@
        }
        &&& a matches ProbeAction::Probe { node, target } ==> {
            &&& new.phase is Probing
            &&& node@ == new.candidates@[new.node_index as int]@
            &&& target@ == new.job.targets@[new.node_samples@.len() as int]@
        }
        // the probe group goes back to the node it had before probing
        &&& a matches ProbeAction::Restore { group, node } ==> {
            &&& group@ == new.probe_group@
            &&& node@ == new.probe_home_node@
            &&& new.phase is Restoring
        }
        &&& (a is Finish) <==> (new.phase is Finished)
        // once the probe group has been taken, the session ends only after
        // a reply to the restoring switch
        &&& (old.phase is Switching || old.phase is Probing) ==> !(a is Finish)
        &&& old.probe_group_held() ==> (new.probe_group_held() || old.phase is Restoring)
        &&& (old.probe_group_held() && new.probe_group_held()) ==> new.probe_home_node == old.probe_home_node
        // a probe's outcome is recorded as its sample
        &&& event matches ProbeEvent::Probed { result, observed_at } ==> old.phase is Probing ==>
            exists|sample: GroupProbeSample| {
                &&& sample_records(
                    sample,
                    old.candidates@[old.node_index as int]@,
                    old.job.targets@[old.node_samples@.len() as int],
                    result,
                    observed_at,
                )
                &&& new.phase is Probing ==> new.node_samples@ == old.node_samples@.push(sample)
                &&& !(new.phase is Probing) ==> new.chunks@.last() == old.node_samples@.push(sample)
            }
        // a finished round sums up every candidate's probes
        &&& a matches ProbeAction::Finish(Ok(round)) ==> round_summarizes(
            round,
            new.job,
            new.current_node@,
            new.candidates@,
            new.chunks@,
        )
    }

    /// `a` ends the session with the failed step `e`.
    pub open spec fn fails_with(a: ProbeAction, e: StepError) -> bool {
        a == ProbeAction::Finish(Err(ProbeRoundError::Step(e)))
    }

    /// `a` ends the session with the failed step `p` and then the failed
    /// restoring switch `r`.
    pub open spec fn fails_twice(a: ProbeAction, p: StepError, r: StepError) -> bool {
        a == ProbeAction::Finish(Err(ProbeRoundError::ProbeAndRestore { probe: p, restore: r }))
    }

    /// `new` has given up probing with the failed step `e`, and `a` points
    /// the probe group back at its node from before probing.
    pub open spec fn gives_up(old: ProbeSession, new: ProbeSession, a: ProbeAction, e: StepError) -> bool {
        &&& new.phase is Restoring
        &&& new.probe_error == Some(e)
        &&& new.probe_home_node == old.probe_home_node
        &&& a == ProbeAction::Restore { group: old.probe_group, node: old.probe_home_node }
    }

    /// `a` moves on from the finished node `old.node_index`: to the next
    /// candidate, or back to the probe group's node when none is left.
    pub open spec fn next_node(old: ProbeSession, new: ProbeSession, a: ProbeAction) -> bool {
        &&& new.node_index == old.node_index + 1
        &&& new.probe_home_node == old.probe_home_node
        &&& new.node_index < old.candidates@.len() ==> {
            &&& new.phase is Switching
            &&& a == ProbeAction::SwitchProbe { group: old.probe_group, node: old.candidates@[new.node_index as int] }
        }
        &&& new.node_index == old.candidates@.len() ==> {
            &&& new.phase is Restoring
            &&& new.probe_error is None
            &&& a == ProbeAction::Restore { group: old.probe_group, node: old.probe_home_node }
        }
    }

    /// Which step follows which reply, phase by phase. A reply of another
    /// kind than the one asked for counts as a failure of that step.
    pub open spec fn transition(old: ProbeSession, new: ProbeSession, event: ProbeEvent, a: ProbeAction) -> bool {
        &&& !(old.phase is ReadingCurrent) ==> new.current_node == old.current_node
        &&& !(old.phase is ReadingCurrent || old.phase is ReadingMembers) ==> new.candidates == old.candidates
        &&& match old.phase {
            ProbePhase::ReadingCurrent => match event {
                ProbeEvent::Current(n) => {
                    &&& new.current_node == n
                    &&& new.phase is ReadingMembers
                    &&& a == ProbeAction::ReadMembers { group: old.job.strategy_group }
                },
                ProbeEvent::Failed(c) => Self::fails_with(a, StepError::ReadCurrent { group: old.job.strategy_group, cause: c }),
                _ => a matches ProbeAction::Finish(Err(ProbeRoundError::Step(StepError::ReadCurrent { group, .. })))
                    && group == old.job.strategy_group,
            },
            ProbePhase::ReadingMembers => match event {
                ProbeEvent::Members(ms) => {
                    &&& new.candidates@ == ms@.filter(|n: String| not_builtin_policy(n))
                    &&& new.candidates@.len() == 0 ==> (a matches ProbeAction::Finish(Ok(round))
                        && round.stats@.len() == 0 && round.probes@.len() == 0)
                    &&& new.candidates@.len() > 0 ==> a == ProbeAction::ReadProbeCurrent { group: old.probe_group }
                },
                ProbeEvent::Failed(c) => Self::fails_with(a, StepError::ReadMembers { group: old.job.strategy_group, cause: c }),
                _ => a matches ProbeAction::Finish(Err(ProbeRoundError::Step(StepError::ReadMembers { group, .. })))
                    && group == old.job.strategy_group,
            },
            ProbePhase::ReadingProbeCurrent => match event {
                ProbeEvent::Current(p) => {
                    &&& new.probe_home_node == p
                    &&& new.node_index == 0
                    &&& new.phase is Switching
                    &&& a == ProbeAction::SwitchProbe { group: old.probe_group, node: old.candidates@[0] }
                },
                ProbeEvent::Failed(c) => Self::fails_with(a, StepError::ReadProbeCurrent { group: old.probe_group, cause: c }),
                _ => a matches ProbeAction::Finish(Err(ProbeRoundError::Step(StepError::ReadProbeCurrent { group, .. })))
                    && group == old.probe_group,
            },
            ProbePhase::Switching => match event {
                ProbeEvent::Switched => {
                    &&& old.job.targets@.len() > 0 ==> {
                        &&& new.phase is Probing
                        &&& new.node_index == old.node_index
                        &&& new.node_samples@.len() == 0
                        &&& a matches ProbeAction::Probe { node, target }
                            && node == old.candidates@[old.node_index as int] && target@ == old.job.targets@[0]@
                    }
                    &&& old.job.targets@.len() == 0 ==> Self::next_node(old, new, a)
                },
                ProbeEvent::Failed(c) => Self::gives_up(old, new, a, StepError::SwitchProbe {
                    group: old.probe_group,
                    node: old.candidates@[old.node_index as int],
                    cause: c,
                }),
                _ => exists|c: String| Self::gives_up(old, new, a, StepError::SwitchProbe {
                    group: old.probe_group,
                    node: old.candidates@[old.node_index as int],
                    cause: c,
                }),
            },
            ProbePhase::Probing => match event {
                ProbeEvent::Probed { .. } => {
                    &&& old.node_samples@.len() + 1 < old.job.targets@.len() ==> {
                        &&& new.phase is Probing
                        &&& new.node_index == old.node_index
                        &&& new.node_samples@.len() == old.node_samples@.len() + 1
                        &&& a matches ProbeAction::Probe { node, target }
                            && node == old.candidates@[old.node_index as int]
                            && target@ == old.job.targets@[(old.node_samples@.len() + 1) as int]@
                    }
                    &&& old.node_samples@.len() + 1 >= old.job.targets@.len() ==> Self::next_node(old, new, a)
                },
                ProbeEvent::Failed(c) => Self::gives_up(old, new, a, StepError::Probe {
                    node: old.candidates@[old.node_index as int],
                    target: old.job.targets@[old.node_samples@.len() as int].name,
                    cause: c,
                }),
                _ => exists|c: String| Self::gives_up(old, new, a, StepError::Probe {
                    node: old.candidates@[old.node_index as int],
                    target: old.job.targets@[old.node_samples@.len() as int].name,
                    cause: c,
                }),
            },
            ProbePhase::Restoring => {
                &&& new.phase is Finished
                &&& match (old.probe_error, event) {
                    (None, ProbeEvent::Switched) => a is Finish && a->Finish_0 is Ok,
                    (Some(p), ProbeEvent::Switched) => Self::fails_with(a, p),
                    (None, ProbeEvent::Failed(c)) => Self::fails_with(a, StepError::Restore {
                        group: old.probe_group,
                        node: old.probe_home_node,
                        cause: c,
                    }),
                    (Some(p), ProbeEvent::Failed(c)) => Self::fails_twice(a, p,
                        StepError::Restore { group: old.probe_group, node: old.probe_home_node, cause: c }),
                    (None, _) => exists|c: String| Self::fails_with(a, StepError::Restore {
                        group: old.probe_group,
                        node: old.probe_home_node,
                        cause: c,
                    }),
                    (Some(p), _) => exists|c: String| Self::fails_twice(a, p,
                        StepError::Restore { group: old.probe_group, node: old.probe_home_node, cause: c }),
                }
            },
            ProbePhase::Finished => true,
        }
    }

    fn on_reading_current(&mut self, event: ProbeEvent) -> (a: ProbeAction)
        requires
            old(self).wf(),
            old(self).phase is ReadingCurrent,
        ensures
            Self::step_post(*old(self), *final(self), event, a),
            Self::transition(*old(self), *final(self), event, a),
            event matches ProbeEvent::Current(n) ==> final(self).current_node == n,
    {
        match event {
            ProbeEvent::Current(node) => {
                self.current_node = node;
                self.phase = ProbePhase::ReadingMembers;
                ProbeAction::ReadMembers { group: self.job.strategy_group.clone() }
            },
            ProbeEvent::Failed(cause) => {
                self.phase = ProbePhase::Finished;
                ProbeAction::Finish(Err(ProbeRoundError::Step(StepError::ReadCurrent {
                    group: self.job.strategy_group.clone(),
                    cause,
                })))
            },
            _ => {
                self.phase = ProbePhase::Finished;
                ProbeAction::Finish(Err(ProbeRoundError::Step(StepError::ReadCurrent {
                    group: self.job.strategy_group.clone(),
                    cause: to_owned_string("unexpected reply"),
                })))
            },
        }
    }

    fn on_reading_members(&mut self, event: ProbeEvent) -> (a: ProbeAction)
        requires
            old(self).wf(),
            old(self).phase is ReadingMembers,
        ensures
            Self::step_post(*old(self), *final(self), event, a),
            Self::transition(*old(self), *final(self), event, a),
            event matches ProbeEvent::Members(ms) ==> final(self).candidates@ == ms@.filter(|n: String| not_builtin_policy(n)),
    {
        match event {
            ProbeEvent::Members(members) => {
                let candidates = filter_candidates(&members);
                self.candidates = candidates;
                if self.candidates.len() == 0 {
                    self.phase = ProbePhase::Finished;
                    let (group_key, strategy_group, current_node) = self.clone_round_header();
                    let round = GroupProbeRound {
                        group_key,
                        strategy_group,
                        current_node,
                        stats: Vec::new(),
                        probes: Vec::new(),
                    };
                    assert(self.chunks@ =~= Seq::<Seq<GroupProbeSample>>::empty());
                    assert(round.probes@ =~= self.chunks@.flatten());
                    ProbeAction::Finish(Ok(round))
                } else {
                    self.phase = ProbePhase::ReadingProbeCurrent;
                    ProbeAction::ReadProbeCurrent { group: self.probe_group.clone() }
                }
            },
            ProbeEvent::Failed(cause) => {
                self.phase = ProbePhase::Finished;
                ProbeAction::Finish(Err(ProbeRoundError::Step(StepError::ReadMembers {
                    group: self.job.strategy_group.clone(),
                    cause,
                })))
            },
            _ => {
                self.phase = ProbePhase::Finished;
                ProbeAction::Finish(Err(ProbeRoundError::Step(StepError::ReadMembers {
                    group: self.job.strategy_group.clone(),
                    cause: to_owned_string("unexpected reply"),
                })))
            },
        }
    }

    fn on_reading_probe_current(&mut self, event: ProbeEvent) -> (a: ProbeAction)
        requires
            old(self).wf(),
            old(self).phase is ReadingProbeCurrent,
            old(self).candidates@.len() > 0,
        ensures
            Self::step_post(*old(self), *final(self), event, a),
            Self::transition(*old(self), *final(self), event, a),
            event matches ProbeEvent::Current(n) ==> final(self).probe_home_node == n,
    {
        match event {
            ProbeEvent::Current(node) => {
                self.probe_home_node = node;
                self.node_index = 0;
                self.phase = ProbePhase::Switching;
                self.switch_to_current_candidate()
            },
            ProbeEvent::Failed(cause) => {
                self.phase = ProbePhase::Finished;
                ProbeAction::Finish(Err(ProbeRoundError::Step(StepError::ReadProbeCurrent {
                    group: self.probe_group.clone(),
                    cause,
                })))
            },
            _ => {
                self.phase = ProbePhase::Finished;
                ProbeAction::Finish(Err(ProbeRoundError::Step(StepError::ReadProbeCurrent {
                    group: self.probe_group.clone(),
                    cause: to_owned_string("unexpected reply"),
                })))
            },
        }
    }

    fn on_switching(&mut self, event: ProbeEvent) -> (a: ProbeAction)
        requires
            old(self).wf(),
            old(self).phase is Switching,
        ensures
            Self::step_post(*old(self), *final(self), event, a),
            Self::transition(*old(self), *final(self), event, a),
    {
        match event {
            ProbeEvent::Switched => {
                if self.job.targets.len() == 0 {
                    proof {
                        assert(samples_fit(self.node_samples@, self.candidates@[self.node_index as int]@, self.job.targets@));
                    }
                    self.finish_node()
                } else {
                    self.phase = ProbePhase::Probing;
                    ProbeAction::Probe {
                        node: self.candidates[self.node_index].clone(),
                        target: clone_target(&self.job.targets[0]),
                    }
                }
            },
            ProbeEvent::Failed(cause) => {
                let e = StepError::SwitchProbe {
                    group: self.probe_group.clone(),
                    node: self.candidates[self.node_index].clone(),
                    cause,
                };
                self.fail_probing(e)
            },
            _ => {
                let e = StepError::SwitchProbe {
                    group: self.probe_group.clone(),
                    node: self.candidates[self.node_index].clone(),
                    cause: to_owned_string("unexpected reply"),
                };
                self.fail_probing(e)
            },
        }
    }

    fn on_probing(&mut self, event: ProbeEvent) -> (a: ProbeAction)
        requires
            old(self).wf(),
            old(self).phase is Probing,
        ensures
            Self::step_post(*old(self), *final(self), event, a),
            Self::transition(*old(self), *final(self), event, a),
    {
        match event {
            ProbeEvent::Probed { result, observed_at } => {
                let j = self.node_samples.len();
                let sample = record_sample(&self.candidates[self.node_index], &self.job.targets[j], &result, observed_at);
                let ghost before = self.node_samples@;
                self.node_samples.push(sample);
                assert(self.node_samples@ == before.push(sample));
                if self.node_samples.len() < self.job.targets.len() {
                    let k = self.node_samples.len();
                    ProbeAction::Probe {
                        node: self.candidates[self.node_index].clone(),
                        target: clone_target(&self.job.targets[k]),
                    }
                } else {
                    let a = self.finish_node();
                    assert(self.chunks@.last() == before.push(sample));
                    a
                }
            },
            ProbeEvent::Failed(cause) => {
                let j = self.node_samples.len();
                let e = StepError::Probe {
                    node: self.candidates[self.node_index].clone(),
                    target: self.job.targets[j].name.clone(),
                    cause,
                };
                self.fail_probing(e)
            },
            _ => {
                let j = self.node_samples.len();
                let e = StepError::Probe {
                    node: self.candidates[self.node_index].clone(),
                    target: self.job.targets[j].name.clone(),
                    cause: to_owned_string("unexpected reply"),
                };
                self.fail_probing(e)
            },
        }
    }

    fn on_restoring(&mut self, event: ProbeEvent) -> (a: ProbeAction)
        requires
            old(self).wf(),
            old(self).phase is Restoring,
        ensures
            Self::step_post(*old(self), *final(self), event, a),
            Self::transition(*old(self), *final(self), event, a),
            a matches ProbeAction::Finish(Ok(_)) ==> (old(self).probe_error is None && event is Switched),
    {
        let restore_cause: Option<String> = match event {
            ProbeEvent::Switched => None,
            ProbeEvent::Failed(cause) => Some(cause),
            _ => Some(to_owned_string("unexpected reply")),
        };
        self.phase = ProbePhase::Finished;
        let mut pending: Option<StepError> = None;
        std::mem::swap(&mut pending, &mut self.probe_error);
        match (pending, restore_cause) {
            (None, None) => {
                let (group_key, strategy_group, current_node) = self.clone_round_header();
                let mut stats: Vec<NodeStats> = Vec::new();
                let mut probes: Vec<GroupProbeSample> = Vec::new();
                std::mem::swap(&mut stats, &mut self.stats);
                std::mem::swap(&mut probes, &mut self.probes);
                let round = GroupProbeRound { group_key, strategy_group, current_node, stats, probes };
                ProbeAction::Finish(Ok(round))
            },
            (Some(probe), None) => ProbeAction::Finish(Err(ProbeRoundError::Step(probe))),
            (None, Some(cause)) => {
                let restore = StepError::Restore {
                    group: self.probe_group.clone(),
                    node: self.probe_home_node.clone(),
                    cause,
                };
                let a = ProbeAction::Finish(Err(ProbeRoundError::Step(restore)));
                assert(Self::fails_with(a, restore));
                a
            },
            (Some(probe), Some(cause)) => {
                let restore = StepError::Restore {
                    group: self.probe_group.clone(),
                    node: self.probe_home_node.clone(),
                    cause,
                };
                let ghost p = probe;
                let a = ProbeAction::Finish(Err(ProbeRoundError::ProbeAndRestore { probe, restore }));
                assert(Self::fails_twice(a, p, restore));
                a
            },
        }
    }

    /// Takes the outcome of the step last asked for and says which step is
    /// next.
    pub fn advance(&mut self, event: ProbeEvent) -> (a: ProbeAction)
        requires
            old(self).wf(),
            !(old(self).phase is Finished),
        ensures
            Self::step_post(*old(self), *final(self), event, a),
            Self::transition(*old(self), *final(self), event, a),
    {
        match self.phase {
            ProbePhase::ReadingCurrent => self.on_reading_current(event),
            ProbePhase::ReadingMembers => self.on_reading_members(event),
            ProbePhase::ReadingProbeCurrent => self.on_reading_probe_current(event),
            ProbePhase::Switching => self.on_switching(event),
            ProbePhase::Probing => self.on_probing(event),
            ProbePhase::Restoring => self.on_restoring(event),
            ProbePhase::Finished => ProbeAction::Finish(Err(ProbeRoundError::Step(StepError::ReadCurrent {
                group: String::new(),
                cause: String::new(),
            }))),
        }
    }
}

} // verus!

verus! {

// ---------------------------------------------------------------------
// Jobs of a round.

/// The target list of the first entry keyed `key`.
pub open spec fn lookup_targets(ts: Seq<(String, Vec<TargetConfig>)>, key: Seq<char>) -> Option<Seq<TargetConfig>>
    decreases ts.len(),
{
    if ts.len() == 0 {
        None
    } else if ts[0].0@ == key {
        Some(ts[0].1@)
    } else {
        lookup_targets(ts.drop_first(), key)
    }
}

pub struct JobView {
    pub group_key: Seq<char>,
    pub strategy_group: Seq<char>,
    pub targets: Seq<crate::config::TargetView>,
}

pub open spec fn job_view(j: GroupProbeJob) -> JobView {
    JobView {
        group_key: j.group_key@,
        strategy_group: j.strategy_group@,
        targets: crate::config::targets_view(j.targets@),
    }
}

/// One job per group that has targets, in group order; groups without
/// targets are skipped.
pub open spec fn spec_jobs(
    groups: Seq<(String, crate::config::GroupConfig)>,
    ts: Seq<(String, Vec<TargetConfig>)>,
) -> Seq<JobView>
    decreases groups.len(),
{
    if groups.len() == 0 {
        Seq::empty()
    } else {
        let rest = spec_jobs(groups.drop_last(), ts);
        let g = groups.last();
        match lookup_targets(ts, g.0@) {
            Some(targets) => rest.push(JobView {
                group_key: g.0@,
                strategy_group: g.1.strategy_group@,
                targets: crate::config::targets_view(targets),
            }),
            None => rest,
        }
    }
}

fn find_targets(ts: &Vec<(String, Vec<TargetConfig>)>, key: &String) -> (r: Option<usize>)
    ensures
        match r {
            Some(i) => i < ts@.len() && lookup_targets(ts@, key@) == Some(ts@[i as int].1@),
            None => lookup_targets(ts@, key@) is None,
        },
{
    let mut i: usize = 0;
    assert(ts@.skip(0) =~= ts@);
    while i < ts.len()
        invariant
            i <= ts@.len(),
            lookup_targets(ts@, key@) == lookup_targets(ts@.skip(i as int), key@),
        decreases ts@.len() - i,
    {
        assert(ts@.skip(i as int).drop_first() =~= ts@.skip(i + 1));
        if crate::text::strings_equal(&ts[i].0, key) {
            return Some(i);
        }
        i = i + 1;
    }
    None
}

fn clone_targets(ts: &Vec<TargetConfig>) -> (r: Vec<TargetConfig>)
    ensures
        crate::config::targets_view(r@) == crate::config::targets_view(ts@),
{
    let mut out: Vec<TargetConfig> = Vec::new();
    let mut i: usize = 0;
    while i < ts.len()
        invariant
            i <= ts@.len(),
            crate::config::targets_view(out@) =~= crate::config::targets_view(ts@.take(i as int)),
        decreases ts@.len() - i,
    {
        let t = clone_target(&ts[i]);
        let ghost before = out@;
        out.push(t);
        assert(out@ == before.push(t));
        assert(crate::config::targets_view(out@) =~= crate::config::targets_view(before).push(t@));
        assert(ts@.take(i + 1) =~= ts@.take(i as int).push(ts@[i as int]));
        assert(crate::config::targets_view(ts@.take(i + 1)) =~= crate::config::targets_view(ts@.take(i as int)).push(ts@[i as int]@));
        i = i + 1;
    }
    assert(ts@.take(ts@.len() as int) =~= ts@);
    out
}

/// The probing jobs of a round: one per configured group that has targets,
/// in group order.
pub fn build_probe_jobs(config: &crate::config::Config) -> (r: Vec<GroupProbeJob>)
    ensures
        r@.map_values(|j: GroupProbeJob| job_view(j)) == spec_jobs(config.groups@, config.targets@),
{
    let mut jobs: Vec<GroupProbeJob> = Vec::new();
    let mut i: usize = 0;
    while i < config.groups.len()
        invariant
            i <= config.groups@.len(),
            jobs@.map_values(|j: GroupProbeJob| job_view(j)) =~= spec_jobs(config.groups@.take(i as int), config.targets@),
        decreases config.groups@.len() - i,
    {
        let entry = &config.groups[i];
        assert(config.groups@.take(i + 1).drop_last() =~= config.groups@.take(i as int));
        match find_targets(&config.targets, &entry.0) {
            Some(k) => {
                let job = GroupProbeJob {
                    group_key: entry.0.clone(),
                    strategy_group: entry.1.strategy_group.clone(),
                    targets: clone_targets(&config.targets[k].1),
                };
                jobs.push(job);
            },
            None => {},
        }
        i = i + 1;
    }
    assert(config.groups@.take(config.groups@.len() as int) =~= config.groups@);
    jobs
}

/// Whether the keys of `entries` are in strictly ascending order, as a
/// sorted map keeps them.
pub open spec fn keys_ascending<V>(entries: Seq<(String, V)>) -> bool {
    forall|i: int, j: int| 0 <= i < j < entries.len() ==> lex_lt(entries[i].0@, entries[j].0@)
}

proof fn lemma_job_keys_from_groups(
    groups: Seq<(String, crate::config::GroupConfig)>,
    ts: Seq<(String, Vec<TargetConfig>)>,
)
    ensures
        spec_jobs(groups, ts).len() <= groups.len(),
        forall|k: int| 0 <= k < spec_jobs(groups, ts).len() ==>
            exists|m: int| 0 <= m < groups.len() && (#[trigger] spec_jobs(groups, ts)[k]).group_key == groups[m].0@,
    decreases groups.len(),
{
    if groups.len() > 0 {
        let rest = groups.drop_last();
        lemma_job_keys_from_groups(rest, ts);
        let jobs = spec_jobs(groups, ts);
        assert forall|k: int| 0 <= k < jobs.len() implies
            exists|m: int| 0 <= m < groups.len() && (#[trigger] jobs[k]).group_key == groups[m].0@ by {
            if k < spec_jobs(rest, ts).len() {
                assert(jobs[k] == spec_jobs(rest, ts)[k]);
                let m = choose|m: int| 0 <= m < rest.len() && spec_jobs(rest, ts)[k].group_key == rest[m].0@;
                assert(rest[m] == groups[m]);
            } else {
                assert(jobs[k].group_key == groups[groups.len() - 1].0@);
            }
        }
    }
}

/// With the groups in ascending key order, as a configuration read from a
/// file has them, the jobs come in ascending order of group key.
pub proof fn law_jobs_in_ascending_group_order(
    groups: Seq<(String, crate::config::GroupConfig)>,
    ts: Seq<(String, Vec<TargetConfig>)>,
)
    requires
        keys_ascending(groups),
    ensures
        forall|i: int, j: int| 0 <= i < j < spec_jobs(groups, ts).len() ==>
            lex_lt(spec_jobs(groups, ts)[i].group_key, spec_jobs(groups, ts)[j].group_key),
    decreases groups.len(),
{
    if groups.len() > 0 {
        let rest = groups.drop_last();
        assert(keys_ascending(rest)) by {
            assert forall|i: int, j: int| 0 <= i < j < rest.len() implies lex_lt(rest[i].0@, rest[j].0@) by {
                assert(rest[i] == groups[i] && rest[j] == groups[j]);
            }
        }
        law_jobs_in_ascending_group_order(rest, ts);
        lemma_job_keys_from_groups(rest, ts);
        let jobs = spec_jobs(groups, ts);
        let before = spec_jobs(rest, ts);
        assert forall|i: int, j: int| 0 <= i < j < jobs.len() implies lex_lt(jobs[i].group_key, jobs[j].group_key) by {
            if j < before.len() {
                assert(jobs[i] == before[i] && jobs[j] == before[j]);
            } else {
                assert(jobs[i] == before[i]);
                assert(jobs[j].group_key == groups[groups.len() - 1].0@);
                let m = choose|m: int| 0 <= m < rest.len() && before[i].group_key == rest[m].0@;
                assert(rest[m] == groups[m]);
            }
        }
    }
}

/// The group that carries probe traffic: the configured one unless blank,
/// else `RW_PROBE`.
pub open spec fn spec_probe_group(config: crate::config::Config) -> Seq<char> {
    match config.probe {
        Some(p) => match p.strategy_group {
            Some(g) => if crate::text::is_blank(g@) { "RW_PROBE"@ } else { g@ },
            None => "RW_PROBE"@,
        },
        None => "RW_PROBE"@,
    }
}

pub fn probe_strategy_group(config: &crate::config::Config) -> (r: String)
    ensures
        r@ == spec_probe_group(*config),
{
    if let Some(p) = &config.probe {
        if let Some(g) = &p.strategy_group {
            if !crate::text::is_blank_str(g.as_str()) {
                return g.clone();
            }
        }
    }
    to_owned_string("RW_PROBE")
}

/// The proxy that probe traffic goes through: the configured one, else
/// `http://127.0.0.1:7890`.
pub fn probe_proxy_url(config: &crate::config::Config) -> (r: String)
    ensures
        r@ == match config.probe {
            Some(p) => match p.proxy_url {
                Some(u) => u@,
                None => "http://127.0.0.1:7890"@,
            },
            None => "http://127.0.0.1:7890"@,
        },
{
    if let Some(p) = &config.probe {
        if let Some(u) = &p.proxy_url {
            return u.clone();
        }
    }
    to_owned_string("http://127.0.0.1:7890")
}

} // verus!
