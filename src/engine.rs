use vstd::prelude::*;

verus! {

/// The handle a host application holds on the engine; state managed for the
/// host will live here.
#[derive(Debug, PartialEq, Eq, Structural)]
pub struct QuizlrCore {}

impl QuizlrCore {
    pub fn new() -> (r: QuizlrCore)
        ensures
            r == (QuizlrCore {}),
    {
        QuizlrCore {}
    }
}

impl Default for QuizlrCore {
    fn default() -> (r: QuizlrCore)
        ensures
            r == (QuizlrCore {}),
    {
        QuizlrCore::new()
    }
}

} // verus!
