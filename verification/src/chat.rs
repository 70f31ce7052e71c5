//! The shapes of the chat proxy's request and reply.  The proxy itself
//! talks to an outside service and shares no state with this core; it lives
//! with the surrounding application.

use vstd::prelude::*;

verus! {

/// One turn of a conversation handed to the proxy.
#[derive(Clone, Debug)]
pub struct ChatMessage {
    pub role: String,
    pub content: String,
}

/// A chat request: a conversation id and the turns so far.
#[derive(Clone, Debug)]
pub struct ChatRequest {
    pub conversation_id: String,
    pub messages: Vec<ChatMessage>,
}

/// The proxy's reply.
#[derive(Clone, Debug)]
pub struct ChatResponse {
    pub reply: String,
}

} // verus!
