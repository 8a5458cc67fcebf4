use vstd::prelude::*;

pub mod machine;
pub mod memory;
pub mod program;

verus! {

/// The ways a run can fail.
#[derive(Debug, Clone, Copy, PartialEq, Eq, Structural)]
pub enum InterpError {
    /// The combined source holds more than one `!` separator.
    ConfigurationError,
    /// A loop bracket has no matching counterpart.
    UnbalancedBracket,
}

} // verus!
