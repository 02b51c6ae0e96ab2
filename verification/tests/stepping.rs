use msm::stepping::StepCounters;

#[test]
fn counters_start_at_zero() {
    let c = StepCounters::new();
    assert_eq!(c, StepCounters { current_dumps: 0, n_steps: 0, sim_wall_time: 0 });
    assert!(c.is_first_step());
    assert_eq!(c.next_dump_index(), 1);
}

#[test]
fn steps_and_dumps() {
    let mut c = StepCounters::new();
    assert_eq!(c.complete_step(false, 5), None);
    assert!(!c.is_first_step());
    assert_eq!(c.complete_step(true, 7), Some(1));
    assert_eq!(c.complete_step(true, 1), Some(2));
    assert_eq!(c.complete_step(false, 0), None);
    assert_eq!(c, StepCounters { current_dumps: 2, n_steps: 4, sim_wall_time: 13 });
    assert!(c.current_dumps as u64 <= c.n_steps);
}
