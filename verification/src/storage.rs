//! Stored user records: which characters each user keeps.

use std::collections::HashMap;
use vstd::prelude::*;

verus! {

/// One user's stored characters.
#[derive(Debug, Clone)]
pub struct User {
    /// User ID
    pub id: i64,
    pub default_character: Option<String>,
    pub characters: HashMap<String, crate::dnd::Character>,
}

/// Every user's stored records, keyed by user ID.
#[derive(Debug, Clone)]
pub struct Storage {
    pub user_characters: HashMap<i64, User>,
}

} // verus!
