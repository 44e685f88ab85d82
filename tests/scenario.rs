use scanbench::scenario::{Action, Event, Phase, Report, Scenario, ScenarioResult, Timing};
use scanbench::sweep::SweepConfig;

fn drive(s: &mut Scenario, events: &[(Event, u64)]) -> Vec<Action> {
    let mut actions = vec![s.start()];
    for (e, at) in events {
        assert!(s.accepts(*e));
        actions.push(s.step(*e, *at));
    }
    actions
}

#[test]
fn stub_run_of_three_iterations() {
    let mut s = Scenario::new(4096, 1, 3);
    let actions = drive(
        &mut s,
        &[
            (Event::LoadStarted, 1),
            (Event::Acknowledged, 2),
            (Event::Acknowledged, 3),
            (Event::TargetExited, 5),
            (Event::TargetExited, 6),
            (Event::TargetExited, 10),
            (Event::TornDown, 11),
        ],
    );
    assert_eq!(
        actions,
        vec![
            Action::StartLoad,
            Action::Request(b"set-memory-size 4096".to_vec()),
            Action::Request(b"fill-random 1".to_vec()),
            Action::RunTarget,
            Action::RunTarget,
            Action::RunTarget,
            Action::TearDown,
            Action::Finish,
        ]
    );
    assert_eq!(s.phase(), Phase::Completed);
    let t = s.timing();
    assert_eq!(t.durations, vec![2, 1, 4]);
    assert_eq!(t.setup, 3);
    assert_eq!(t.total, 11);
    assert!(t.total >= t.setup + t.durations.iter().sum::<u64>());
    let r = s.result();
    assert!(!r.failed);
    let a = r.aggregates.unwrap();
    assert_eq!((a.min, a.max, a.median), (1, 4, 2));
}

#[test]
fn failure_mid_run_keeps_samples_and_tears_down() {
    let mut s = Scenario::new(10, 1, 5);
    let actions = drive(
        &mut s,
        &[
            (Event::LoadStarted, 0),
            (Event::Acknowledged, 1),
            (Event::Acknowledged, 2),
            (Event::TargetExited, 4),
            (Event::StepFailed, 5),
            (Event::TornDown, 6),
        ],
    );
    assert_eq!(actions[5], Action::TearDown);
    assert_eq!(actions[6], Action::Finish);
    assert_eq!(s.phase(), Phase::Failed);
    let r = s.result();
    assert!(r.failed);
    assert_eq!(r.timing.durations, vec![2]);
    assert!(r.aggregates.is_some());
}

#[test]
fn failure_to_start_load_has_no_aggregates() {
    let mut s = Scenario::new(10, 1, 5);
    let actions = drive(&mut s, &[(Event::StepFailed, 0)]);
    assert_eq!(actions, vec![Action::StartLoad, Action::Finish]);
    assert_eq!(s.phase(), Phase::Failed);
    let r = s.result();
    assert!(r.failed);
    assert!(r.timing.durations.is_empty());
    assert_eq!(r.aggregates, None);
}

#[test]
fn zero_iterations_go_straight_to_teardown() {
    let mut s = Scenario::new(10, 1, 0);
    let actions = drive(&mut s, &[(Event::LoadStarted, 0), (Event::Acknowledged, 1), (Event::Acknowledged, 2)]);
    assert_eq!(actions[3], Action::TearDown);
}

#[test]
fn unexpected_event_is_not_accepted() {
    let mut s = Scenario::new(10, 1, 1);
    s.start();
    assert!(!s.accepts(Event::Acknowledged));
    assert!(!s.accepts(Event::TargetExited));
    assert!(s.accepts(Event::LoadStarted));
}

#[test]
fn clock_never_runs_backwards() {
    let mut s = Scenario::new(10, 1, 2);
    drive(
        &mut s,
        &[
            (Event::LoadStarted, 5),
            (Event::Acknowledged, 3),
            (Event::Acknowledged, 6),
            (Event::TargetExited, 4),
            (Event::TargetExited, 9),
            (Event::TornDown, 9),
        ],
    );
    let t = s.timing();
    assert_eq!(t.durations, vec![0, 3]);
    assert_eq!(t.setup, 6);
}

#[test]
fn report_collects_results_in_order() {
    let sweep = SweepConfig { min_bytes: 1, max_bytes: 10, step_bytes: 3, factor_num: 1, factor_den: 1 };
    let mut report = Report::new("scanmem".to_string(), "exit".to_string(), -1, sweep, 2, 0);
    assert_eq!(report.last_size(), None);
    for size in sweep.plan().unwrap() {
        let timing = Timing { setup: 1, durations: vec![1, 2], total: 5 };
        report.add(ScenarioResult::new(size, 1, timing, false));
    }
    let sizes: Vec<u64> = report.results().iter().map(|r| r.size).collect();
    assert_eq!(sizes, vec![1, 4, 7, 10]);
    assert_eq!(report.last_size(), Some(10));
}
