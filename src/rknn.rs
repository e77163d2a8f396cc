use vstd::prelude::*;

verus! {

/// Ways the inference engine can fail, each with the engine's own message.
#[derive(Debug)]
pub enum RknnError {
    /// The model could not be loaded.
    LoadError(String),
    /// An input could not be bound.
    InputError(String),
    /// The model did not run.
    RunError(String),
    /// An output could not be read back, or had the wrong shape.
    OutputError(String),
}

} // verus!
