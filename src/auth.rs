use vstd::prelude::*;

verus! {

/// Where a learner's identity comes from.
#[derive(Debug, Clone, Copy, PartialEq, Eq, Structural)]
pub enum AuthProvider {
    Google,
    GitHub,
    Microsoft,
}

/// A learner as an identity provider reports them; the engine only carries
/// the id.
#[derive(Debug, Clone)]
pub struct User {
    pub id: u128,
    pub email: String,
    pub name: Option<String>,
    pub provider: AuthProvider,
}

/// Entry point for identity management, which lives outside this engine.
#[derive(Debug, PartialEq, Eq, Structural)]
pub struct AuthManager {}

impl AuthManager {
    pub fn new() -> (r: AuthManager)
        ensures
            r == (AuthManager {}),
    {
        AuthManager {}
    }
}

impl Default for AuthManager {
    fn default() -> (r: AuthManager)
        ensures
            r == (AuthManager {}),
    {
        AuthManager::new()
    }
}

} // verus!
