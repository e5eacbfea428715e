use std::sync::{Arc, Mutex};
use std::time::Duration;

use anyhow::Result;
use route_warden::runner::{round_next, RoundAction, Runner, RunnerHooks};

#[derive(Clone, Default)]
struct MockHooks {
    calls: Arc<Mutex<Vec<String>>>,
}

impl RunnerHooks for MockHooks {
    fn fetch_groups(&self) -> Result<Vec<String>> {
        self.calls.lock().unwrap().push("fetch_groups".to_string());
        Ok(vec!["GOOGLE_GROUP".to_string(), "GLOBAL_BEST".to_string()])
    }

    fn probe_group(&self, group: &str) -> Result<()> {
        self.calls.lock().unwrap().push(format!("probe:{group}"));
        Ok(())
    }

    fn maybe_switch_group(&self, group: &str) -> Result<()> {
        self.calls.lock().unwrap().push(format!("switch:{group}"));
        Ok(())
    }

    fn persist_round(&self) -> Result<()> {
        self.calls.lock().unwrap().push("persist_round".to_string());
        Ok(())
    }
}

#[test]
fn one_tick_runs_probe_score_select_pipeline() {
    let hooks = MockHooks::default();
    let recorder = hooks.calls.clone();
    let runner = Runner::new(hooks, Duration::from_secs(3));

    runner.tick().unwrap();

    let calls = recorder.lock().unwrap().clone();
    assert_eq!(
        calls,
        vec![
            "fetch_groups",
            "probe:GOOGLE_GROUP",
            "switch:GOOGLE_GROUP",
            "probe:GLOBAL_BEST",
            "switch:GLOBAL_BEST",
            "persist_round",
        ]
    );
}

#[derive(Clone, Default)]
struct FailingProbe {
    calls: Arc<Mutex<Vec<String>>>,
}

impl RunnerHooks for FailingProbe {
    fn fetch_groups(&self) -> Result<Vec<String>> {
        self.calls.lock().unwrap().push("fetch_groups".to_string());
        Ok(vec!["A".to_string(), "B".to_string()])
    }

    fn probe_group(&self, group: &str) -> Result<()> {
        self.calls.lock().unwrap().push(format!("probe:{group}"));
        if group == "B" {
            return Err(anyhow::Error::msg("probe of B failed"));
        }
        Ok(())
    }

    fn maybe_switch_group(&self, group: &str) -> Result<()> {
        self.calls.lock().unwrap().push(format!("switch:{group}"));
        Ok(())
    }

    fn persist_round(&self) -> Result<()> {
        self.calls.lock().unwrap().push("persist_round".to_string());
        Ok(())
    }
}

#[test]
fn tick_stops_at_the_first_failure() {
    let hooks = FailingProbe::default();
    let recorder = hooks.calls.clone();
    let runner = Runner::new(hooks, Duration::from_secs(1));
    let err = runner.tick().unwrap_err();
    assert_eq!(err.to_string(), "probe of B failed");
    let calls = recorder.lock().unwrap().clone();
    assert_eq!(calls, vec!["fetch_groups", "probe:A", "switch:A", "probe:B"]);
    assert_eq!(runner.interval_between_rounds(), Duration::from_secs(1));
}

#[test]
fn round_steps_follow_the_groups_and_stop_at_a_failure() {
    let groups = vec!["GOOGLE_GROUP".to_string(), "GLOBAL_BEST".to_string()];
    let steps: Vec<RoundAction> = (0..7u128).map(|made| round_next(&groups, made, true)).collect();
    assert_eq!(
        steps,
        vec![
            RoundAction::FetchGroups,
            RoundAction::ProbeGroup("GOOGLE_GROUP".to_string()),
            RoundAction::MaybeSwitchGroup("GOOGLE_GROUP".to_string()),
            RoundAction::ProbeGroup("GLOBAL_BEST".to_string()),
            RoundAction::MaybeSwitchGroup("GLOBAL_BEST".to_string()),
            RoundAction::PersistRound,
            RoundAction::Finished,
        ]
    );
    assert_eq!(round_next(&groups, 3, false), RoundAction::Stopped);
    assert_eq!(round_next(&groups, 0, false), RoundAction::FetchGroups);
    assert_eq!(round_next(&vec![], 1, true), RoundAction::PersistRound);
    assert_eq!(round_next(&vec![], 2, true), RoundAction::Finished);
}
