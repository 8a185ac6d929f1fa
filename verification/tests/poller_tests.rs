use portfolio_explorer::poller::PollPlanner;

fn in_flight(p: &PollPlanner) -> u64 {
    p.dispatched - p.finished
}

#[test]
fn the_admission_limit_gates_dispatches() {
    let mut p = PollPlanner::new(5, 2);
    assert!(p.can_dispatch());
    p.dispatch();
    assert!(p.can_dispatch());
    p.dispatch();
    // both permits are taken
    assert!(!p.can_dispatch());
    assert_eq!(in_flight(&p), 2);
    p.finish();
    assert!(p.can_dispatch());
    assert_eq!(in_flight(&p), 1);
}

#[test]
fn a_full_cycle_dispatches_each_adapter_once_under_the_limit() {
    let total = 5u64;
    let limit = 2u64;
    let mut p = PollPlanner::new(total, limit);
    let mut peak = 0u64;
    while !p.cycle_complete() {
        if p.can_dispatch() {
            p.dispatch();
        } else {
            p.finish();
        }
        if in_flight(&p) > peak {
            peak = in_flight(&p);
        }
    }
    assert_eq!(p.dispatched, total);
    assert_eq!(p.finished, total);
    assert!(peak <= limit);
}

#[test]
fn the_cycle_barrier_waits_for_every_task() {
    let mut p = PollPlanner::new(1, 4);
    assert!(!p.cycle_complete());
    p.dispatch();
    // dispatched but still in flight: the cycle is not complete
    assert!(!p.cycle_complete());
    p.finish();
    assert!(p.cycle_complete());
    // nothing more may start this cycle
    assert!(!p.can_dispatch());
}

#[test]
fn a_wide_limit_never_exceeds_the_adapter_count() {
    let mut p = PollPlanner::new(2, 100);
    p.dispatch();
    p.dispatch();
    assert!(!p.can_dispatch());
    assert_eq!(in_flight(&p), 2);
}
