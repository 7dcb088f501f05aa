use circuit_sim::error::SimError;
use circuit_sim::transient::{iterations_per_step, Action, Outcome, TransientDriver, NEWTON_ITERATIONS};

fn run(driver: &mut TransientDriver) -> Vec<Action> {
    let mut trace = vec![driver.current()];
    while !matches!(trace.last(), Some(Action::Finished) | Some(Action::Aborted(_))) {
        trace.push(driver.advance(Outcome::Done));
    }
    trace
}

#[test]
fn iteration_counts() {
    assert_eq!(iterations_per_step(true), 30);
    assert_eq!(iterations_per_step(false), 1);
    assert_eq!(NEWTON_ITERATIONS, 30);
}

#[test]
fn linear_schedule_for_two_steps() {
    let mut d = TransientDriver::new(2, false);
    let trace = run(&mut d);
    assert_eq!(
        trace,
        vec![
            Action::ResetOperatingPoints { step: 0 },
            Action::Iterate { step: 0, iteration: 0 },
            Action::Record { step: 0 },
            Action::UpdateState { step: 0 },
            Action::ResetOperatingPoints { step: 1 },
            Action::Iterate { step: 1, iteration: 0 },
            Action::Record { step: 1 },
            Action::UpdateState { step: 1 },
            Action::Finished,
        ]
    );
}

#[test]
fn nonlinear_schedule_runs_thirty_iterations() {
    let mut d = TransientDriver::new(3, true);
    let trace = run(&mut d);
    assert_eq!(trace.len(), 3 * 33 + 1);
    let iterations = trace
        .iter()
        .filter(|a| matches!(a, Action::Iterate { step: 1, .. }))
        .count();
    assert_eq!(iterations, 30);
    assert_eq!(trace[30], Action::Iterate { step: 0, iteration: 29 });
    assert_eq!(trace[31], Action::Record { step: 0 });
    assert_eq!(trace[32], Action::UpdateState { step: 0 });
    assert_eq!(trace[33], Action::ResetOperatingPoints { step: 1 });
}

#[test]
fn zero_steps_finish_at_once() {
    let mut d = TransientDriver::new(0, true);
    assert_eq!(d.current(), Action::Finished);
    assert_eq!(d.advance(Outcome::Done), Action::Finished);
}

#[test]
fn singular_system_aborts() {
    let mut d = TransientDriver::new(5, false);
    assert_eq!(d.advance(Outcome::Done), Action::Iterate { step: 0, iteration: 0 });
    assert_eq!(d.advance(Outcome::Singular), Action::Aborted(SimError::SingularSystem));
    assert_eq!(d.advance(Outcome::Done), Action::Aborted(SimError::SingularSystem));
    assert_eq!(d.current(), Action::Aborted(SimError::SingularSystem));
}

#[test]
fn non_finite_solution_aborts() {
    let mut d = TransientDriver::new(5, true);
    for _ in 0..4 {
        d.advance(Outcome::Done);
    }
    assert_eq!(d.current(), Action::Iterate { step: 0, iteration: 3 });
    assert_eq!(d.advance(Outcome::NonFinite), Action::Aborted(SimError::NumericDivergence));
    assert_eq!(d.advance(Outcome::Singular), Action::Aborted(SimError::NumericDivergence));
}

#[test]
fn finished_driver_stays_finished() {
    let mut d = TransientDriver::new(1, false);
    let trace = run(&mut d);
    assert_eq!(trace.len(), 5);
    assert_eq!(d.advance(Outcome::Singular), Action::Finished);
}
