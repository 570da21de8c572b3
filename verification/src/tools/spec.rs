//! The tools that a conversation offers to the model.

use crate::json::Json;
use vstd::prelude::*;

verus! {

/// A tool that the model may call by name.
#[derive(Debug, PartialEq, Eq)]
pub struct ResponsesApiTool {
    pub name: String,
    pub description: String,
    /// The JSON schema of the parameters, as serialised; where that failed, the serialiser's
    /// complaint.
    pub parameters: Result<Json, String>,
}

/// A tool of the conversation.
#[derive(Debug, PartialEq, Eq)]
pub enum ToolSpec {
    Function(ResponsesApiTool),
    ToolSearch,
    LocalShell,
    ImageGeneration,
    WebSearch,
    Freeform,
}

} // verus!
