use vstd::prelude::*;

verus! {

/// The text-generation services an outside grading collaborator may use.
#[derive(Debug, Clone, Copy, PartialEq, Eq, Structural)]
pub enum LlmProvider {
    Claude,
    Gemini,
    OpenAI,
}

/// Entry point for text generation, which lives outside this engine.
#[derive(Debug, PartialEq, Eq, Structural)]
pub struct LlmManager {}

impl LlmManager {
    pub fn new() -> (r: LlmManager)
        ensures
            r == (LlmManager {}),
    {
        LlmManager {}
    }
}

impl Default for LlmManager {
    fn default() -> (r: LlmManager)
        ensures
            r == (LlmManager {}),
    {
        LlmManager::new()
    }
}

} // verus!
