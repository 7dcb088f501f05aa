use vstd::prelude::*;

verus! {

/// The ways a circuit construction or a simulation can fail.
#[derive(Debug, Clone, Copy, PartialEq, Eq, Structural)]
pub enum SimError {
    /// An element was added under a name that the circuit already holds.
    DuplicateName,
    /// An element parameter is out of its admissible range
    /// (non-positive resistance, capacitance, inductance, Is or Vt).
    InvalidParameter,
    /// The linear solver could not factor the system matrix.
    SingularSystem,
    /// A Newton iteration produced a non-finite value in the solution.
    NumericDivergence,
}

/// The text that [`SimError::describe`] gives for each error.
pub open spec fn description(e: SimError) -> Seq<char> {
    match e {
        SimError::DuplicateName => "duplicate element name"@,
        SimError::InvalidParameter => "invalid element parameter"@,
        SimError::SingularSystem => "singular system matrix"@,
        SimError::NumericDivergence => "non-finite value in the solution"@,
    }
}

impl SimError {
    /// A short human-readable description of the error.
    pub fn describe(&self) -> (r: String)
        ensures
            r@ == description(*self),
    {
        let s = match self {
            SimError::DuplicateName => "duplicate element name",
            SimError::InvalidParameter => "invalid element parameter",
            SimError::SingularSystem => "singular system matrix",
            SimError::NumericDivergence => "non-finite value in the solution",
        };
        s.to_string()
    }
}

} // verus!
