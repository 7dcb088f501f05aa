use vstd::prelude::*;

use crate::error::SimError;

verus! {

/// Newton iterations per timestep when the circuit holds a nonlinear element.
pub const NEWTON_ITERATIONS: usize = 30;

/// Iterations per timestep: the fixed Newton cap when a nonlinear element is
/// present, a single linear solve otherwise.
pub open spec fn iterations_for(has_nonlinear: bool) -> nat {
    if has_nonlinear {
        NEWTON_ITERATIONS as nat
    } else {
        1
    }
}

pub fn iterations_per_step(has_nonlinear: bool) -> (r: usize)
    ensures
        r == iterations_for(has_nonlinear),
{
    if has_nonlinear {
        NEWTON_ITERATIONS
    } else {
        1
    }
}

/// The next piece of work the caller of a [`TransientDriver`] must perform.
#[derive(Debug, Clone, Copy, PartialEq, Eq, Structural)]
pub enum Action {
    /// Reset the linearisation point of every nonlinear element.
    ResetOperatingPoints { step: usize },
    /// Zero the system, assemble it at time `step·Δt`, solve it, and update
    /// the operating point of every nonlinear element from the solution.
    Iterate { step: usize, iteration: usize },
    /// Record branch currents and node voltages of `step` from the solution.
    Record { step: usize },
    /// Update the state of every dynamic element from the solution.
    UpdateState { step: usize },
    /// Every step has been simulated.
    Finished,
    /// The simulation stopped on an error.
    Aborted(SimError),
}

/// What the caller reports after performing an action.
#[derive(Debug, Clone, Copy, PartialEq, Eq, Structural)]
pub enum Outcome {
    /// The action was carried out.
    Done,
    /// The linear solver could not factor the system matrix.
    Singular,
    /// The solution holds a NaN or an infinite value.
    NonFinite,
}

/// Mathematical model of the driver: the step, and the slot within the step.
///
/// Within a step, slot 0 resets the operating points, slots `1..=I` are the
/// `I` iterations, slot `I + 1` records the outputs and slot `I + 2` updates
/// the dynamic state.
pub struct DriverModel {
    pub n_steps: nat,
    pub iterations: nat,
    pub step: nat,
    pub slot: nat,
    pub failure: Option<SimError>,
}

impl DriverModel {
    pub open spec fn period(self) -> nat {
        self.iterations + 3
    }

    pub open spec fn wf(self) -> bool {
        &&& 1 <= self.iterations <= NEWTON_ITERATIONS
        &&& self.n_steps <= usize::MAX
        &&& self.step <= self.n_steps
        &&& self.slot < self.period()
        &&& self.step == self.n_steps ==> self.slot == 0
    }

    pub open spec fn halted(self) -> bool {
        self.failure is Some || self.step == self.n_steps
    }

    /// The action the driver hands out in this state.
    pub open spec fn action(self) -> Action {
        if let Some(e) = self.failure {
            Action::Aborted(e)
        } else if self.step >= self.n_steps {
            Action::Finished
        } else if self.slot == 0 {
            Action::ResetOperatingPoints { step: self.step as usize }
        } else if self.slot <= self.iterations {
            Action::Iterate { step: self.step as usize, iteration: (self.slot - 1) as usize }
        } else if self.slot == self.iterations + 1 {
            Action::Record { step: self.step as usize }
        } else {
            Action::UpdateState { step: self.step as usize }
        }
    }

    /// The state after the caller reports `o` for the current action.
    pub open spec fn next(self, o: Outcome) -> DriverModel {
        if self.halted() {
            self
        } else {
            match o {
                Outcome::Singular => DriverModel { failure: Some(SimError::SingularSystem), ..self },
                Outcome::NonFinite => DriverModel { failure: Some(SimError::NumericDivergence), ..self },
                Outcome::Done => if self.slot + 1 == self.period() {
                    DriverModel { step: self.step + 1, slot: 0, ..self }
                } else {
                    DriverModel { slot: self.slot + 1, ..self }
                },
            }
        }
    }

    /// Actions left before the driver finishes, if every one succeeds.
    pub open spec fn remaining(self) -> nat {
        if self.halted() {
            0
        } else {
            ((self.n_steps - self.step) * self.period() - self.slot) as nat
        }
    }
}

/// The transient driver: walks `n_steps` timesteps and, within each, hands
/// out the reset, the iterations, the recording and the state update in
/// that order. The caller performs each action and reports its outcome.
pub struct TransientDriver {
    n_steps: usize,
    iterations: usize,
    step: usize,
    slot: usize,
    failure: Option<SimError>,
}

impl View for TransientDriver {
    type V = DriverModel;

    closed spec fn view(&self) -> DriverModel {
        DriverModel {
            n_steps: self.n_steps as nat,
            iterations: self.iterations as nat,
            step: self.step as nat,
            slot: self.slot as nat,
            failure: self.failure,
        }
    }
}

impl TransientDriver {
    /// A driver for `n_steps` timesteps of a circuit that does or does not
    /// hold a nonlinear element.
    pub fn new(n_steps: usize, has_nonlinear: bool) -> (r: TransientDriver)
        ensures
            r@.wf(),
            r@.n_steps == n_steps,
            r@.iterations == iterations_for(has_nonlinear),
            r@.step == 0,
            r@.slot == 0,
            r@.failure is None,
            r@.remaining() == n_steps * (iterations_for(has_nonlinear) + 3),
    {
        TransientDriver {
            n_steps,
            iterations: iterations_per_step(has_nonlinear),
            step: 0,
            slot: 0,
            failure: None,
        }
    }

    /// The action to perform now.
    pub fn current(&self) -> (r: Action)
        requires
            self@.wf(),
        ensures
            r == self@.action(),
    {
        if let Some(e) = self.failure {
            Action::Aborted(e)
        } else if self.step >= self.n_steps {
            Action::Finished
        } else if self.slot == 0 {
            Action::ResetOperatingPoints { step: self.step }
        } else if self.slot <= self.iterations {
            Action::Iterate { step: self.step, iteration: self.slot - 1 }
        } else if self.slot == self.iterations + 1 {
            Action::Record { step: self.step }
        } else {
            Action::UpdateState { step: self.step }
        }
    }

    /// Takes the outcome of the current action and returns the next one.
    /// A failure aborts the simulation; once finished or aborted the driver
    /// stays where it is.
    pub fn advance(&mut self, o: Outcome) -> (r: Action)
        requires
            old(self)@.wf(),
        ensures
            final(self)@ == old(self)@.next(o),
            final(self)@.wf(),
            r == final(self)@.action(),
            !old(self)@.halted() && o == Outcome::Done ==> final(self)@.remaining() + 1
                == old(self)@.remaining(),
    {
        if self.failure.is_none() && self.step < self.n_steps {
            match o {
                Outcome::Singular => {
                    self.failure = Some(SimError::SingularSystem);
                },
                Outcome::NonFinite => {
                    self.failure = Some(SimError::NumericDivergence);
                },
                Outcome::Done => {
                    if self.slot + 1 == self.iterations + 3 {
                        self.step = self.step + 1;
                        self.slot = 0;
                    } else {
                        self.slot = self.slot + 1;
                    }
                },
            }
        }
        proof {
            let d = old(self)@;
            if !d.halted() && o == Outcome::Done {
                let k = (d.n_steps - d.step) as int;
                let p = d.period() as int;
                assert(k * p == (k - 1) * p + p && (k - 1) * p >= 0) by (nonlinear_arith)
                    requires
                        k >= 1,
                        p >= 1,
                ;
                if k == 1 {
                    assert(k * p == p) by (nonlinear_arith)
                        requires
                            k == 1,
                    ;
                }
                let e = d.next(o);
                if d.slot + 1 == d.period() {
                    assert(e.step == d.step + 1);
                    assert(e.n_steps - e.step == k - 1);
                } else {
                    assert(e.remaining() == k * p - d.slot - 1);
                }
            }
        }
        self.current()
    }
}

/// The order of work within a timestep, as the driver hands it out when
/// every action succeeds: the reset comes right before the first iteration,
/// the last iteration right before the recording, the recording right before
/// the state update, and the state update right before the next step's
/// reset, or the end after the last step.
pub proof fn lemma_step_protocol(d: DriverModel)
    requires
        d.wf(),
    ensures
        d.action() matches Action::ResetOperatingPoints { step } ==> d.next(Outcome::Done).action()
            == (Action::Iterate { step, iteration: 0 }),
        d.action() matches Action::Iterate { step, iteration } ==> d.next(Outcome::Done).action() == if iteration + 1
            == d.iterations {
            Action::Record { step }
        } else {
            Action::Iterate { step, iteration: (iteration + 1) as usize }
        },
        d.action() matches Action::Record { step } ==> d.next(Outcome::Done).action()
            == (Action::UpdateState { step }),
        d.action() matches Action::UpdateState { step } ==> d.next(Outcome::Done).action() == if step + 1
            == d.n_steps {
            Action::Finished
        } else {
            Action::ResetOperatingPoints { step: (step + 1) as usize }
        },
{
}

/// A failed iteration ends the simulation with its error, and the driver
/// then hands out nothing but that error.
pub proof fn lemma_failure_aborts(d: DriverModel, o: Outcome)
    requires
        d.wf(),
        !d.halted(),
        o != Outcome::Done,
    ensures
        d.next(o).action() == Action::Aborted(
            if o == Outcome::Singular {
                SimError::SingularSystem
            } else {
                SimError::NumericDivergence
            },
        ),
        forall|o2: Outcome| #[trigger] d.next(o).next(o2) == d.next(o),
{
}

} // verus!
