use autosave::config::Config;
use autosave::debounce::{debounce_step, relative_delay, WorkerInput, WorkerState, WorkerStep};

fn config_with_delay(delay: u64) -> Config {
    let mut c = Config::new();
    c.delay = delay;
    c
}

#[test]
fn burst_then_quiet_fires_once() {
    // Events closer together than the delay fire exactly one save.
    let tiers = 1;
    let mut state = WorkerState::Idle;
    let mut fires = 0;
    for _ in 0..5 {
        let (next, step) = debounce_step(&state, &WorkerInput::Changed, tiers);
        assert!(matches!(step, WorkerStep::Wait));
        state = next;
    }
    let (next, step) = debounce_step(&state, &WorkerInput::TimedOut, tiers);
    match step {
        WorkerStep::Fire(i) => {
            assert_eq!(i, 0);
            fires += 1;
        }
        _ => panic!("expected a save"),
    }
    state = next;
    assert!(matches!(state, WorkerState::Idle));
    // Further timeouts fire nothing until another event.
    let (next, step) = debounce_step(&state, &WorkerInput::TimedOut, tiers);
    assert!(matches!(step, WorkerStep::Wait));
    assert!(matches!(next, WorkerState::Idle));
    assert_eq!(fires, 1);
}

#[test]
fn two_tiers_fire_in_order() {
    // One edit, then quiet: the first tier fires, then the second, then
    // nothing more until another edit.
    let tiers = 2;
    let (state, step) = debounce_step(&WorkerState::Idle, &WorkerInput::Changed, tiers);
    assert!(matches!(step, WorkerStep::Wait));
    assert!(matches!(state, WorkerState::Armed(0)));
    let (state, step) = debounce_step(&state, &WorkerInput::TimedOut, tiers);
    assert!(matches!(step, WorkerStep::Fire(0)));
    assert!(matches!(state, WorkerState::Armed(1)));
    let (state, step) = debounce_step(&state, &WorkerInput::TimedOut, tiers);
    assert!(matches!(step, WorkerStep::Fire(1)));
    assert!(matches!(state, WorkerState::Idle));
    let (state, step) = debounce_step(&state, &WorkerInput::TimedOut, tiers);
    assert!(matches!(step, WorkerStep::Wait));
    assert!(matches!(state, WorkerState::Idle));
}

#[test]
fn event_restarts_armed_tier() {
    let tiers = 2;
    let (state, _) = debounce_step(&WorkerState::Idle, &WorkerInput::Changed, tiers);
    let (state, step) = debounce_step(&state, &WorkerInput::Changed, tiers);
    assert!(matches!(step, WorkerStep::Wait));
    assert!(matches!(state, WorkerState::Armed(0)));
}

#[test]
fn closed_channel_stops_the_worker() {
    let (_, step) = debounce_step(&WorkerState::Idle, &WorkerInput::Closed, 1);
    assert!(matches!(step, WorkerStep::Stop));
    let (_, step) = debounce_step(&WorkerState::Armed(0), &WorkerInput::Closed, 1);
    assert!(matches!(step, WorkerStep::Stop));
}

#[test]
fn relative_delays_telescope_to_configured_delays() {
    // Tiers at 3 and 30 seconds: the second waits 27 more after the
    // first fired, so it fires at 30 seconds of quiet in total.
    let cfgs = vec![config_with_delay(3), config_with_delay(30)];
    assert_eq!(relative_delay(&cfgs, 0), 3);
    assert_eq!(relative_delay(&cfgs, 1), 27);
}

#[test]
fn single_tier_waits_its_full_delay() {
    let cfgs = vec![config_with_delay(3)];
    assert_eq!(relative_delay(&cfgs, 0), 3);
}
