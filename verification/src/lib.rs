//! Reading, building, unrolling and printing quantum circuits in the `.stim` format.
pub mod circuit;
pub mod gate;
pub mod roundtrip;
pub mod stim_parser;
pub mod text;

pub use circuit::{Arg, Circuit, CircuitInstruction, Target};
pub use gate::{ArgType, Gate, GateData, GateError, NUM_GATES, Pauli, TargetType};
pub use stim_parser::{ParseError, StimParser, parse_bytes, parse_string, parse_target};
