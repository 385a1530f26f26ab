//! The records of the conversation store. The store itself is a collaborator
//! outside this crate; here is what it keeps.

use vstd::prelude::*;

verus! {

/// A conversation, as the store lists it.
#[derive(Debug, Clone, PartialEq, Eq)]
pub struct Conversation {
    pub id: String,
    pub title: String,
    pub model: String,
    pub created_at: String,
    pub updated_at: String,
}

/// A message of a conversation.
#[derive(Debug, Clone, PartialEq, Eq)]
pub struct Message {
    pub id: String,
    pub conversation_id: String,
    pub role: String,
    pub content: String,
    pub created_at: String,
}

impl Conversation {
    /// The record of a conversation created at the moment `now`: it has not
    /// been updated since, so both its timestamps are `now`.
    pub fn new(id: String, title: String, model: String, now: String) -> (created: Conversation)
        ensures
            created.id@ == id@,
            created.title@ == title@,
            created.model@ == model@,
            created.created_at@ == now@,
            created.updated_at@ == now@,
    {
        Conversation { id, title, model, created_at: now.clone(), updated_at: now }
    }
}

impl Message {
    /// The record of a message saved to `conversation_id` at the moment `now`.
    pub fn new(id: String, conversation_id: String, role: String, content: String, now: String) -> (saved: Message)
        ensures
            saved.id@ == id@,
            saved.conversation_id@ == conversation_id@,
            saved.role@ == role@,
            saved.content@ == content@,
            saved.created_at@ == now@,
    {
        Message { id, conversation_id, role, content, created_at: now }
    }
}

} // verus!
