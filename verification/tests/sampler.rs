use senzai::sampler::{elapsed_millis, simulate, MeasureOutcome, Phase, Sampler, TickAction};

#[test]
fn warmup_is_discarded_and_count_exact() {
    let outcomes = vec![
        MeasureOutcome::Elapsed(10),
        MeasureOutcome::Elapsed(20),
        MeasureOutcome::Elapsed(30),
        MeasureOutcome::Elapsed(40),
    ];
    let (s, reports, consumed) = simulate(3, &outcomes);
    assert_eq!(reports, vec![20, 30, 40]);
    assert_eq!(s.phase, Phase::Done);
    assert_eq!(s.completed, 3);
    assert_eq!(consumed, 4);
}

#[test]
fn extra_ticks_are_not_consumed() {
    let outcomes = vec![
        MeasureOutcome::Elapsed(1),
        MeasureOutcome::Elapsed(2),
        MeasureOutcome::Elapsed(3),
        MeasureOutcome::Elapsed(4),
        MeasureOutcome::Elapsed(5),
        MeasureOutcome::Elapsed(6),
    ];
    let (s, reports, consumed) = simulate(3, &outcomes);
    assert_eq!(reports, vec![2, 3, 4]);
    assert_eq!(s.phase, Phase::Done);
    assert_eq!(consumed, 4);
}

#[test]
fn single_interval_stops_after_two_ticks() {
    let outcomes = vec![MeasureOutcome::Elapsed(5), MeasureOutcome::Elapsed(7)];
    let (s, reports, consumed) = simulate(1, &outcomes);
    assert_eq!(reports, vec![7]);
    assert_eq!(s.phase, Phase::Done);
    assert_eq!(consumed, 2);
}

#[test]
fn warmup_failure_aborts_immediately() {
    let outcomes = vec![MeasureOutcome::TransportFailure, MeasureOutcome::Elapsed(9)];
    let (s, reports, consumed) = simulate(2, &outcomes);
    assert!(reports.is_empty());
    assert_eq!(s.phase, Phase::Failed);
    assert_eq!(consumed, 1);
}

#[test]
fn failure_mid_run_stops_reporting() {
    let outcomes = vec![
        MeasureOutcome::Elapsed(1),
        MeasureOutcome::Elapsed(2),
        MeasureOutcome::TransportFailure,
        MeasureOutcome::Elapsed(4),
        MeasureOutcome::Elapsed(5),
    ];
    let (s, reports, consumed) = simulate(5, &outcomes);
    assert_eq!(reports, vec![2]);
    assert_eq!(s.phase, Phase::Failed);
    assert_eq!(consumed, 3);
}

#[test]
fn on_tick_walks_the_phases() {
    let mut s = Sampler::new(2);
    assert_eq!(s.phase, Phase::Warming);
    assert!(s.is_live());
    assert_eq!(s.on_tick(MeasureOutcome::Elapsed(99)), TickAction::Discard);
    assert_eq!(s.phase, Phase::Measuring);
    assert_eq!(s.completed, 0);
    assert_eq!(s.on_tick(MeasureOutcome::Elapsed(11)), TickAction::Report(11));
    assert_eq!(s.phase, Phase::Measuring);
    assert_eq!(s.completed, 1);
    assert_eq!(s.on_tick(MeasureOutcome::Elapsed(12)), TickAction::Report(12));
    assert_eq!(s.phase, Phase::Done);
    assert_eq!(s.completed, 2);
    assert!(!s.is_live());
}

#[test]
fn on_tick_aborts_on_failure() {
    let mut s = Sampler::new(2);
    assert_eq!(s.on_tick(MeasureOutcome::Elapsed(1)), TickAction::Discard);
    assert_eq!(s.on_tick(MeasureOutcome::TransportFailure), TickAction::Abort);
    assert_eq!(s.phase, Phase::Failed);
    assert!(!s.is_live());
}

#[test]
fn elapsed_millis_is_the_difference() {
    assert_eq!(elapsed_millis(100, 250), 150);
    assert_eq!(elapsed_millis(0, 0), 0);
}

#[test]
fn elapsed_millis_never_negative() {
    assert_eq!(elapsed_millis(250, 100), 0);
    assert_eq!(elapsed_millis(i64::MIN, i64::MAX), u64::MAX);
}
