use vstd::prelude::*;

verus! {

/// Where quizzes and sessions are kept, outside this engine.
#[derive(Debug, Clone)]
pub enum StorageBackend {
    Local,
    GitHub,
    Custom(String),
}

/// Entry point for persistence, which lives outside this engine.
#[derive(Debug, PartialEq, Eq, Structural)]
pub struct StorageManager {}

impl StorageManager {
    pub fn new() -> (r: StorageManager)
        ensures
            r == (StorageManager {}),
    {
        StorageManager {}
    }
}

impl Default for StorageManager {
    fn default() -> (r: StorageManager)
        ensures
            r == (StorageManager {}),
    {
        StorageManager::new()
    }
}

} // verus!
