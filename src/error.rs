use vstd::prelude::*;

verus! {

/// What can go wrong in the synthesizer and around it.
#[derive(Debug)]
pub enum BaseError {
    InputError(String),
    WindowCreation(String),
    SynthError(String),
    ConversionError(String),
    StreamError(String),
    GUIError(String),
    ThreadError(String),
}

} // verus!
