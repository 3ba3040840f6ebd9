//! The ways in which a generation run fails.

use vstd::prelude::*;

verus! {

/// Why no puzzle was produced. A failed run hands back no grid at all.
#[derive(Debug, Clone, PartialEq, Eq)]
pub enum GenerationError {
    /// The grid is smaller than 5 by 5, or there are more words than cells.
    Config,
    /// Some words cannot be used: `invalid` holds every word without a
    /// capital letter, `oversize` every word longer than the grid is wide.
    Validation { invalid: Vec<String>, oversize: Vec<String> },
    /// No place was left on the board for `word`.
    PlacementExhausted { word: String },
    /// An internal check failed: a fault of the generator, not of its input.
    InternalInconsistency,
    /// The operating system gave no seed for the random stream.
    EntropyUnavailable,
}

impl GenerationError {
    /// A one-line description of the failure.
    pub fn message(&self) -> (text: &'static str)
        ensures
            self is Config ==> text@
                == "Size must be at least 5, and the number of words in the word list must not exceed size squared."@,
            self is Validation ==> text@ == "Invalid string provided."@,
            self is PlacementExhausted ==> text@
                == "Could not find a position for the word on the board!"@,
            self is InternalInconsistency ==> text@
                == "Error in processing: mismatch between buffer lengths."@,
            self is EntropyUnavailable ==> text@
                == "Could not seed the random generator from the operating system."@,
    {
        match self {
            GenerationError::Config => {
                "Size must be at least 5, and the number of words in the word list must not exceed size squared."
            },
            GenerationError::Validation { .. } => "Invalid string provided.",
            GenerationError::PlacementExhausted { .. } => {
                "Could not find a position for the word on the board!"
            },
            GenerationError::InternalInconsistency => {
                "Error in processing: mismatch between buffer lengths."
            },
            GenerationError::EntropyUnavailable => {
                "Could not seed the random generator from the operating system."
            },
        }
    }
}

} // verus!
