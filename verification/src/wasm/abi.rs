//! The hooks a Wasm plugin exports.

use vstd::prelude::*;

verus! {

/// A plugin hook.
#[derive(Clone, Copy, PartialEq, Eq, Structural, Debug)]
pub enum Hook {
    OnRequest,
    OnResponse,
    OnStreamChunk,
    OnAuth,
}

/// The export name of a hook.
pub open spec fn hook_export(h: Hook) -> Seq<char> {
    match h {
        Hook::OnRequest => "on_request"@,
        Hook::OnResponse => "on_response"@,
        Hook::OnStreamChunk => "on_stream_chunk"@,
        Hook::OnAuth => "on_auth"@,
    }
}

impl Hook {
    /// The name under which the plugin exports the hook.
    pub fn export_name(self) -> (r: &'static str)
        ensures
            r@ == hook_export(self),
    {
        match self {
            Hook::OnRequest => "on_request",
            Hook::OnResponse => "on_response",
            Hook::OnStreamChunk => "on_stream_chunk",
            Hook::OnAuth => "on_auth",
        }
    }
}

/// A field absent from a plugin's reply allows the request.
pub fn default_true() -> (r: bool)
    ensures
        r,
{
    true
}

} // verus!
