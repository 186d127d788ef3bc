use safe_remove::sweeper::{Sweeper, SweeperAction, SweeperEvent, DEFAULT_INTERVAL_SECS};

#[test]
fn sweeps_then_waits_the_interval() {
    let mut d = Sweeper::new(DEFAULT_INTERVAL_SECS);
    assert_eq!(d.on_event(SweeperEvent::Tick), SweeperAction::RunSweep);
    assert_eq!(d.on_event(SweeperEvent::Tick), SweeperAction::Idle);
    assert_eq!(d.on_event(SweeperEvent::SweepFinished), SweeperAction::Wait(300));
    assert_eq!(d.on_event(SweeperEvent::Tick), SweeperAction::RunSweep);
}

#[test]
fn cancel_at_rest_exits_at_once() {
    let mut d = Sweeper::new(10);
    assert_eq!(d.on_event(SweeperEvent::Tick), SweeperAction::RunSweep);
    assert_eq!(d.on_event(SweeperEvent::SweepFinished), SweeperAction::Wait(10));
    assert_eq!(d.on_event(SweeperEvent::Cancel), SweeperAction::Exit);
    assert!(d.stopped);
    assert_eq!(d.on_event(SweeperEvent::Tick), SweeperAction::Idle);
}

#[test]
fn cancel_during_a_sweep_waits_for_it() {
    let mut d = Sweeper::new(10);
    assert_eq!(d.on_event(SweeperEvent::Tick), SweeperAction::RunSweep);
    assert_eq!(d.on_event(SweeperEvent::Cancel), SweeperAction::Idle);
    assert!(d.sweeping);
    assert_eq!(d.on_event(SweeperEvent::Tick), SweeperAction::Idle);
    assert_eq!(d.on_event(SweeperEvent::SweepFinished), SweeperAction::Exit);
    assert!(d.stopped && !d.sweeping);
}
