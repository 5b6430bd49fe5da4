//! The chat completion request and the error body of the OpenAI-compatible
//! API.

use vstd::prelude::*;
use crate::strmap::StrMap;

verus! {

/// One message of a chat; its content is kept as JSON text.
pub struct ChatMessage {
    pub role: String,
    pub content: String,
}

/// A chat completion request; JSON values are kept as JSON text.
pub struct ChatCompletionRequest {
    pub model: String,
    pub messages: Vec<ChatMessage>,
    pub tools: Option<String>,
    pub stream: bool,
    pub extra: StrMap<String>,
}

/// The error body of the OpenAI-compatible API.
pub struct GatewayErrorBody {
    pub error: GatewayErrorMessage,
}

/// Message and type of an API error.
pub struct GatewayErrorMessage {
    pub message: String,
    pub kind: String,
}

/// Builds an OpenAI-style error body.
pub fn openai_error(message: String, kind: String) -> (r: GatewayErrorBody)
    ensures
        r.error.message == message,
        r.error.kind == kind,
{
    GatewayErrorBody { error: GatewayErrorMessage { message, kind } }
}

} // verus!
