//! The wire types of vLLM's Chat Completions API, with the extensions that Nemotron uses.
//!
//! Requests have views, which say what they hold in terms of characters and trees.

use crate::json::{Json, JsonTree};
use vstd::prelude::*;

verus! {

/// The body of a `POST /v1/chat/completions`.
#[derive(Debug)]
pub struct ChatCompletionRequest<'a> {
    pub model: &'a str,
    pub messages: &'a Vec<ChatMessage>,
    pub max_tokens: Option<u32>,
    pub tools: Option<&'a Vec<ChatTool>>,
    pub tool_choice: Option<&'a str>,
    /// What is passed on to the chat template.
    pub chat_template_kwargs: Option<ChatTemplateKwargs>,
    /// True asks for a stream of events.
    pub stream: bool,
    pub stream_options: Option<StreamOptions>,
}

/// What a [`ChatCompletionRequest`] holds.
pub struct ChatCompletionRequestView {
    pub model: Seq<char>,
    pub messages: Seq<ChatMessageView>,
    pub max_tokens: Option<u32>,
    pub tools: Option<Seq<ChatToolView>>,
    pub tool_choice: Option<Seq<char>>,
    pub chat_template_kwargs: Option<ChatTemplateKwargs>,
    pub stream: bool,
    pub stream_options: Option<StreamOptions>,
}

impl<'a> DeepView for ChatCompletionRequest<'a> {
    type V = ChatCompletionRequestView;

    open spec fn deep_view(&self) -> ChatCompletionRequestView {
        ChatCompletionRequestView {
            model: self.model@,
            messages: self.messages.deep_view(),
            max_tokens: self.max_tokens,
            tools: self.tools.deep_view(),
            tool_choice: self.tool_choice.deep_view(),
            chat_template_kwargs: self.chat_template_kwargs,
            stream: self.stream,
            stream_options: self.stream_options,
        }
    }
}

/// The arguments of the chat template.
#[derive(Debug, Clone, Copy, PartialEq, Eq, Structural)]
pub struct ChatTemplateKwargs {
    pub thinking_budget: u32,
}

/// Options of the stream.
#[derive(Debug, Clone, Copy, PartialEq, Eq, Structural)]
pub struct StreamOptions {
    pub include_usage: bool,
}

/// A message of the conversation.
#[derive(Debug, PartialEq, Eq)]
pub struct ChatMessage {
    pub role: String,
    pub content: Option<String>,
    pub tool_calls: Option<Vec<ToolCallMessage>>,
    pub tool_call_id: Option<String>,
}

/// What a [`ChatMessage`] holds.
pub struct ChatMessageView {
    pub role: Seq<char>,
    pub content: Option<Seq<char>>,
    pub tool_calls: Option<Seq<ToolCallMessageView>>,
    pub tool_call_id: Option<Seq<char>>,
}

impl DeepView for ChatMessage {
    type V = ChatMessageView;

    open spec fn deep_view(&self) -> ChatMessageView {
        ChatMessageView {
            role: self.role@,
            content: self.content.deep_view(),
            tool_calls: self.tool_calls.deep_view(),
            tool_call_id: self.tool_call_id.deep_view(),
        }
    }
}

/// A tool call that the assistant has made.
#[derive(Debug, PartialEq, Eq)]
pub struct ToolCallMessage {
    pub id: String,
    /// The `type` of the call.
    pub kind: String,
    pub function: FunctionCall,
}

/// What a [`ToolCallMessage`] holds.
pub struct ToolCallMessageView {
    pub id: Seq<char>,
    pub kind: Seq<char>,
    pub function: FunctionCallView,
}

impl DeepView for ToolCallMessage {
    type V = ToolCallMessageView;

    open spec fn deep_view(&self) -> ToolCallMessageView {
        ToolCallMessageView {
            id: self.id@,
            kind: self.kind@,
            function: self.function.deep_view(),
        }
    }
}

/// The name of a called function and the text of its arguments.
#[derive(Debug, PartialEq, Eq)]
pub struct FunctionCall {
    pub name: String,
    pub arguments: String,
}

/// What a [`FunctionCall`] holds.
pub struct FunctionCallView {
    pub name: Seq<char>,
    pub arguments: Seq<char>,
}

impl DeepView for FunctionCall {
    type V = FunctionCallView;

    open spec fn deep_view(&self) -> FunctionCallView {
        FunctionCallView { name: self.name@, arguments: self.arguments@ }
    }
}

/// A tool definition.
#[derive(Debug, PartialEq, Eq)]
pub struct ChatTool {
    /// The `type` of the tool.
    pub kind: String,
    pub function: ChatToolFunction,
}

/// What a [`ChatTool`] holds.
pub struct ChatToolView {
    pub kind: Seq<char>,
    pub function: ChatToolFunctionView,
}

impl DeepView for ChatTool {
    type V = ChatToolView;

    open spec fn deep_view(&self) -> ChatToolView {
        ChatToolView { kind: self.kind@, function: self.function.deep_view() }
    }
}

/// The function that a tool offers.
#[derive(Debug, PartialEq, Eq)]
pub struct ChatToolFunction {
    pub name: String,
    pub description: String,
    pub parameters: Json,
}

/// What a [`ChatToolFunction`] holds.
pub struct ChatToolFunctionView {
    pub name: Seq<char>,
    pub description: Seq<char>,
    pub parameters: JsonTree,
}

impl DeepView for ChatToolFunction {
    type V = ChatToolFunctionView;

    open spec fn deep_view(&self) -> ChatToolFunctionView {
        ChatToolFunctionView {
            name: self.name@,
            description: self.description@,
            parameters: self.parameters.tree(),
        }
    }
}

/// A chunk of the stream.
#[derive(Debug, PartialEq, Eq)]
pub struct ChatCompletionChunk {
    pub id: String,
    pub choices: Vec<ChunkChoice>,
    pub usage: Option<ChunkUsage>,
}

/// A choice within a chunk.
#[derive(Debug, PartialEq, Eq)]
pub struct ChunkChoice {
    pub delta: ChunkDelta,
    pub finish_reason: Option<String>,
}

/// What a choice adds.
#[derive(Debug, PartialEq, Eq)]
pub struct ChunkDelta {
    pub role: Option<String>,
    pub content: Option<String>,
    pub tool_calls: Option<Vec<ChunkToolCall>>,
}

/// More of a tool call.
#[derive(Debug, PartialEq, Eq)]
pub struct ChunkToolCall {
    pub index: usize,
    pub id: Option<String>,
    pub function: Option<ChunkFunction>,
}

/// More of the function of a tool call.
#[derive(Debug, PartialEq, Eq)]
pub struct ChunkFunction {
    pub name: Option<String>,
    pub arguments: Option<String>,
}

/// Token counts.
#[derive(Debug, Clone, Copy, PartialEq, Eq, Structural)]
pub struct ChunkUsage {
    pub prompt_tokens: i64,
    pub completion_tokens: i64,
    pub total_tokens: i64,
}

/// The answer to a `GET /v1/models`.
#[derive(Debug, PartialEq, Eq)]
pub struct ModelListResponse {
    pub data: Vec<ModelEntry>,
}

/// A model of the endpoint.
#[derive(Debug, PartialEq, Eq)]
pub struct ModelEntry {
    pub id: String,
}

} // verus!
