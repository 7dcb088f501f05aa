//! Structural core of a time-domain circuit simulator based on Modified
//! Nodal Analysis (MNA).
//!
//! The library holds everything about a simulation that is decided by the
//! circuit's topology and by the stepping protocol:
//!
//! * [`netlist`]: the circuit builder (unique element names, the node set and
//!   the voltage-defined, dynamic and nonlinear subsets);
//! * [`mna`]: the index layout of the MNA system and the exact stamp pattern
//!   of every element;
//! * [`transient`]: the transient driver, a state machine that sequences the
//!   operating-point resets, Newton iterations, output recording and state
//!   updates of every timestep;
//! * [`wiring`]: resolution of a drawing's wires into the contiguous node
//!   numbering that the MNA layout requires.
//!
//! The numeric work (element companion values, the dense linear solve) is
//! performed by the caller, which follows the stamp pattern and the actions
//! that the driver hands out.

pub mod error;
pub mod mna;
pub mod netlist;
pub mod transient;
pub mod wiring;
