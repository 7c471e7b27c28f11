use crate::outside::{new_id, now_millis};
use vstd::prelude::*;

verus! {

/// A titled course of study.
#[derive(Debug, Clone)]
pub struct Curriculum {
    pub id: u128,
    pub title: String,
    pub description: String,
    pub created_at: i64,
    pub updated_at: i64,
}

impl Curriculum {
    /// A curriculum with a fresh id, created and updated now.
    pub fn new(title: String, description: String) -> (r: Curriculum)
        ensures
            r.title == title,
            r.description == description,
            r.created_at == r.updated_at,
    {
        let now = now_millis();
        Curriculum { id: new_id(), title, description, created_at: now, updated_at: now }
    }
}

} // verus!
