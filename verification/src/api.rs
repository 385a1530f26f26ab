//! Plain data of the inference server's HTTP interface.

use vstd::prelude::*;

verus! {

/// One message of a chat, as the server takes it in a request.
#[derive(Debug, Clone, PartialEq, Eq)]
pub struct ChatMessage {
    pub role: String,
    pub content: String,
}

/// A model that the server has, as it lists it.
#[derive(Debug, Clone, PartialEq, Eq)]
pub struct OllamaModel {
    pub name: String,
    pub size: u64,
    pub digest: String,
    pub modified_at: String,
}

/// The models of a listing; a listing without the `models` member has none.
pub fn models_or_none(models: Option<Vec<OllamaModel>>) -> (listed: Vec<OllamaModel>)
    ensures
        listed@ == match models {
            Some(found) => found@,
            None => Seq::<OllamaModel>::empty(),
        },
{
    match models {
        Some(found) => found,
        None => Vec::new(),
    }
}

} // verus!
