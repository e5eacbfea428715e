//! The round driver: fetch the groups, probe and maybe switch each one in
//! order, then persist the round, stopping at the first failure.

use vstd::prelude::*;

verus! {

/// `anyhow::Error`, the error type of the hooks; carried, never read.
#[verifier::external_type_specification]
#[verifier::external_body]
pub struct ExAnyhowError(anyhow::Error);

/// The outside work of a round, supplied by the user of the runner.
pub trait RunnerHooks {
    fn fetch_groups(&self) -> Result<Vec<String>, anyhow::Error>;
    fn probe_group(&self, group: &str) -> Result<(), anyhow::Error>;
    fn maybe_switch_group(&self, group: &str) -> Result<(), anyhow::Error>;
    fn persist_round(&self) -> Result<(), anyhow::Error>;
}

/// A call of one hook.
pub enum HookCall {
    FetchGroups,
    ProbeGroup(Seq<char>),
    MaybeSwitchGroup(Seq<char>),
    PersistRound,
}

/// The probe and switch calls for `groups`, group by group in order.
pub open spec fn group_calls(groups: Seq<Seq<char>>) -> Seq<HookCall>
    decreases groups.len(),
{
    if groups.len() == 0 {
        Seq::empty()
    } else {
        group_calls(groups.drop_last()) + seq![
            HookCall::ProbeGroup(groups.last()),
            HookCall::MaybeSwitchGroup(groups.last()),
        ]
    }
}

/// The calls of a round whose fetch returned `groups`.
pub open spec fn round_calls(groups: Seq<Seq<char>>) -> Seq<HookCall> {
    seq![HookCall::FetchGroups] + group_calls(groups) + seq![HookCall::PersistRound]
}

pub open spec fn names_of(groups: Seq<String>) -> Seq<Seq<char>> {
    groups.map_values(|g: String| g@)
}

/// The next step of a round.
#[derive(Debug, Clone, PartialEq, Eq)]
pub enum RoundAction {
    /// Call `fetch_groups`.
    FetchGroups,
    /// Call `probe_group` with the group.
    ProbeGroup(String),
    /// Call `maybe_switch_group` with the group.
    MaybeSwitchGroup(String),
    /// Call `persist_round`.
    PersistRound,
    /// Every call succeeded: the round is done.
    Finished,
    /// The last call failed: the round ends with its error.
    Stopped,
}

pub enum RoundActionView {
    Call(HookCall),
    Finished,
    Stopped,
}

impl View for RoundAction {
    type V = RoundActionView;

    open spec fn view(&self) -> RoundActionView {
        match self {
            RoundAction::FetchGroups => RoundActionView::Call(HookCall::FetchGroups),
            RoundAction::ProbeGroup(g) => RoundActionView::Call(HookCall::ProbeGroup(g@)),
            RoundAction::MaybeSwitchGroup(g) => RoundActionView::Call(HookCall::MaybeSwitchGroup(g@)),
            RoundAction::PersistRound => RoundActionView::Call(HookCall::PersistRound),
            RoundAction::Finished => RoundActionView::Finished,
            RoundAction::Stopped => RoundActionView::Stopped,
        }
    }
}

/// The step after `made` calls of a round whose fetch gave `groups`, the
/// last of them having succeeded when `last_ok`: a failed call stops the
/// round; else the next call of `round_calls`, or the end when all were
/// made.
pub open spec fn spec_round_next(groups: Seq<Seq<char>>, made: int, last_ok: bool) -> RoundActionView {
    if made > 0 && !last_ok {
        RoundActionView::Stopped
    } else if 0 <= made < round_calls(groups).len() {
        RoundActionView::Call(round_calls(groups)[made])
    } else {
        RoundActionView::Finished
    }
}

proof fn lemma_group_calls(groups: Seq<Seq<char>>)
    ensures
        group_calls(groups).len() == 2 * groups.len(),
        forall|i: int| 0 <= i < groups.len() ==> {
            &&& #[trigger] group_calls(groups)[2 * i] == HookCall::ProbeGroup(groups[i])
            &&& group_calls(groups)[2 * i + 1] == HookCall::MaybeSwitchGroup(groups[i])
        },
    decreases groups.len(),
{
    if groups.len() > 0 {
        let rest = groups.drop_last();
        lemma_group_calls(rest);
        assert forall|i: int| 0 <= i < groups.len() implies {
            &&& #[trigger] group_calls(groups)[2 * i] == HookCall::ProbeGroup(groups[i])
            &&& group_calls(groups)[2 * i + 1] == HookCall::MaybeSwitchGroup(groups[i])
        } by {
            if i < rest.len() {
                assert(group_calls(rest)[2 * i] == HookCall::ProbeGroup(rest[i]));
                assert(rest[i] == groups[i]);
            }
        }
    }
}

proof fn lemma_round_calls(groups: Seq<Seq<char>>)
    ensures
        round_calls(groups).len() == 2 * groups.len() + 2,
        round_calls(groups)[0] == HookCall::FetchGroups,
        round_calls(groups)[2 * groups.len() + 1int] == HookCall::PersistRound,
        forall|i: int| 0 <= i < groups.len() ==> {
            &&& #[trigger] round_calls(groups)[2 * i + 1] == HookCall::ProbeGroup(groups[i])
            &&& round_calls(groups)[2 * i + 2] == HookCall::MaybeSwitchGroup(groups[i])
        },
{
    lemma_group_calls(groups);
    let g = group_calls(groups);
    assert forall|i: int| 0 <= i < groups.len() implies {
        &&& #[trigger] round_calls(groups)[2 * i + 1] == HookCall::ProbeGroup(groups[i])
        &&& round_calls(groups)[2 * i + 2] == HookCall::MaybeSwitchGroup(groups[i])
    } by {
        assert(g[2 * i] == HookCall::ProbeGroup(groups[i]));
        assert(round_calls(groups)[2 * i + 1] == g[2 * i]);
        assert(round_calls(groups)[2 * i + 2] == g[2 * i + 1]);
    }
}

/// The step of a round after `made` calls: the next hook to call, with its
/// argument, or the end of the round.
pub fn round_next(groups: &Vec<String>, made: u128, last_ok: bool) -> (a: RoundAction)
    ensures
        a@ == spec_round_next(names_of(groups@), made as int, last_ok),
{
    let ghost names = names_of(groups@);
    proof {
        lemma_round_calls(names);
    }
    assert(names.len() == groups@.len());
    if made > 0 && !last_ok {
        return RoundAction::Stopped;
    }
    if made == 0 {
        return RoundAction::FetchGroups;
    }
    let k = made - 1;
    let n = groups.len() as u128;
    let i = k / 2;
    if i < n {
        let g = groups[i as usize].clone();
        assert(names[i as int] == g@);
        if k % 2 == 0 {
            assert(k == 2 * i);
            assert(round_calls(names)[2 * (i as int) + 1] == HookCall::ProbeGroup(names[i as int]));
            RoundAction::ProbeGroup(g)
        } else {
            assert(k == 2 * i + 1);
            assert(round_calls(names)[2 * (i as int) + 1] == HookCall::ProbeGroup(names[i as int]));
            assert(round_calls(names)[2 * (i as int) + 2] == HookCall::MaybeSwitchGroup(names[i as int]));
            RoundAction::MaybeSwitchGroup(g)
        }
    } else if k == 2 * n {
        RoundAction::PersistRound
    } else {
        RoundAction::Finished
    }
}

/// Runs rounds of the hooks; `interval` is the pause between rounds.
pub struct Runner<H> {
    hooks: H,
    interval: std::time::Duration,
}

impl<H: RunnerHooks> Runner<H> {
    pub fn new(hooks: H, interval: std::time::Duration) -> (r: Self)
        ensures
            r.hooks() == hooks,
            r.interval() == interval,
    {
        Runner { hooks, interval }
    }

    pub closed spec fn hooks(&self) -> H {
        self.hooks
    }

    pub closed spec fn interval(&self) -> std::time::Duration {
        self.interval
    }

    /// The pause between rounds.
    pub fn interval_between_rounds(&self) -> (d: std::time::Duration)
        ensures
            d == self.interval(),
    {
        self.interval
    }

    /// One round: fetch the groups, probe then maybe switch each group in
    /// order, persist; the first failure ends the round with its error. The
    /// hooks decide every outcome; this makes the call `round_next` names
    /// for the calls made so far and the last result, and nothing else.
    pub fn tick(&self) -> Result<(), anyhow::Error> {
        let groups = self.hooks.fetch_groups()?;
        let ghost names = names_of(groups@);
        proof {
            lemma_round_calls(names);
        }
        let mut made: u128 = 1;
        let mut last: Result<(), anyhow::Error> = Ok(());
        let n = groups.len();
        loop
            invariant
                n == groups@.len(),
                names == names_of(groups@),
                round_calls(names).len() == 2 * groups@.len() + 2,
                1 <= made <= 2 * groups@.len() + 2,
            decreases 2 * groups@.len() + 2 - made,
        {
            let ok = last.is_ok();
            let action = round_next(&groups, made, ok);
            match action {
                RoundAction::ProbeGroup(g) => {
                    last = self.hooks.probe_group(g.as_str());
                },
                RoundAction::MaybeSwitchGroup(g) => {
                    last = self.hooks.maybe_switch_group(g.as_str());
                },
                RoundAction::PersistRound => {
                    last = self.hooks.persist_round();
                },
                RoundAction::FetchGroups => {
                    return last;
                },
                RoundAction::Finished => {
                    return Ok(());
                },
                RoundAction::Stopped => {
                    return last;
                },
            }
            made = made + 1;
        }
    }
}

} // verus!
