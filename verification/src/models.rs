//! The conversation, and the events of a response, as the agent knows them.

use crate::json::{Json, JsonTree};
use crate::tools::spec::ToolSpec;
use vstd::prelude::*;

verus! {

/// A piece of the content of a message.
#[derive(Debug, PartialEq, Eq)]
pub enum ContentItem {
    InputText { text: String },
    InputImage { image_url: String },
    OutputText { text: String },
}

/// What a [`ContentItem`] holds.
pub enum ContentItemView {
    InputText { text: Seq<char> },
    InputImage { image_url: Seq<char> },
    OutputText { text: Seq<char> },
}

impl DeepView for ContentItem {
    type V = ContentItemView;

    open spec fn deep_view(&self) -> ContentItemView {
        match self {
            ContentItem::InputText { text } => ContentItemView::InputText { text: text@ },
            ContentItem::InputImage { image_url } => ContentItemView::InputImage {
                image_url: image_url@,
            },
            ContentItem::OutputText { text } => ContentItemView::OutputText { text: text@ },
        }
    }
}

/// A piece of the output of a tool.
#[derive(Debug, PartialEq, Eq)]
pub enum FunctionCallOutputContentItem {
    InputText { text: String },
    InputImage { image_url: String },
}

/// What a [`FunctionCallOutputContentItem`] holds.
pub enum FunctionCallOutputContentItemView {
    InputText { text: Seq<char> },
    InputImage { image_url: Seq<char> },
}

impl DeepView for FunctionCallOutputContentItem {
    type V = FunctionCallOutputContentItemView;

    open spec fn deep_view(&self) -> FunctionCallOutputContentItemView {
        match self {
            FunctionCallOutputContentItem::InputText { text } =>
                FunctionCallOutputContentItemView::InputText { text: text@ },
            FunctionCallOutputContentItem::InputImage { image_url } =>
                FunctionCallOutputContentItemView::InputImage { image_url: image_url@ },
        }
    }
}

/// The output of a tool: a list of pieces, a text, or neither.
#[derive(Debug, PartialEq, Eq)]
pub struct FunctionCallOutputPayload {
    pub content_items: Option<Vec<FunctionCallOutputContentItem>>,
    pub text_content: Option<String>,
}

/// What a [`FunctionCallOutputPayload`] holds.
pub struct FunctionCallOutputPayloadView {
    pub content_items: Option<Seq<FunctionCallOutputContentItemView>>,
    pub text_content: Option<Seq<char>>,
}

impl DeepView for FunctionCallOutputPayload {
    type V = FunctionCallOutputPayloadView;

    open spec fn deep_view(&self) -> FunctionCallOutputPayloadView {
        FunctionCallOutputPayloadView {
            content_items: self.content_items.deep_view(),
            text_content: self.text_content.deep_view(),
        }
    }
}

/// A shell command of the model in its two serialised forms, as a document and as a text. None
/// where the serialiser refused.
#[derive(Debug, PartialEq, Eq)]
pub struct LocalShellAction {
    pub value: Option<Json>,
    pub text: Option<String>,
}

/// What a [`LocalShellAction`] holds.
pub struct LocalShellActionView {
    pub value: Option<JsonTree>,
    pub text: Option<Seq<char>>,
}

impl DeepView for LocalShellAction {
    type V = LocalShellActionView;

    open spec fn deep_view(&self) -> LocalShellActionView {
        LocalShellActionView {
            value: match self.value {
                Some(json) => Some(json.tree()),
                None => None,
            },
            text: self.text.deep_view(),
        }
    }
}

/// An item of the conversation.
#[allow(inconsistent_fields)]
#[derive(Debug, PartialEq, Eq)]
pub enum ResponseItem {
    Message {
        id: Option<String>,
        role: String,
        content: Vec<ContentItem>,
        end_turn: Option<bool>,
        phase: Option<String>,
    },
    Reasoning {
        id: String,
        summary: Vec<String>,
        /// The text of each piece of reasoning.
        content: Option<Vec<String>>,
        encrypted_content: Option<String>,
    },
    LocalShellCall { id: Option<String>, call_id: Option<String>, action: LocalShellAction },
    FunctionCall {
        id: Option<String>,
        name: String,
        namespace: Option<String>,
        arguments: String,
        call_id: String,
    },
    FunctionCallOutput { call_id: String, output: FunctionCallOutputPayload },
    CustomToolCall { id: Option<String>, call_id: String, name: String, input: String },
    CustomToolCallOutput { call_id: String, output: FunctionCallOutputPayload },
    GhostSnapshot,
    WebSearchCall,
    ToolSearchCall,
    ToolSearchOutput,
    ImageGenerationCall,
    Compaction,
    Other,
}

/// What a [`ResponseItem`] holds.
#[allow(inconsistent_fields)]
pub enum ResponseItemView {
    Message {
        id: Option<Seq<char>>,
        role: Seq<char>,
        content: Seq<ContentItemView>,
        end_turn: Option<bool>,
        phase: Option<Seq<char>>,
    },
    Reasoning {
        id: Seq<char>,
        summary: Seq<Seq<char>>,
        content: Option<Seq<Seq<char>>>,
        encrypted_content: Option<Seq<char>>,
    },
    LocalShellCall {
        id: Option<Seq<char>>,
        call_id: Option<Seq<char>>,
        action: LocalShellActionView,
    },
    FunctionCall {
        id: Option<Seq<char>>,
        name: Seq<char>,
        namespace: Option<Seq<char>>,
        arguments: Seq<char>,
        call_id: Seq<char>,
    },
    FunctionCallOutput { call_id: Seq<char>, output: FunctionCallOutputPayloadView },
    CustomToolCall {
        id: Option<Seq<char>>,
        call_id: Seq<char>,
        name: Seq<char>,
        input: Seq<char>,
    },
    CustomToolCallOutput { call_id: Seq<char>, output: FunctionCallOutputPayloadView },
    GhostSnapshot,
    WebSearchCall,
    ToolSearchCall,
    ToolSearchOutput,
    ImageGenerationCall,
    Compaction,
    Other,
}

impl DeepView for ResponseItem {
    type V = ResponseItemView;

    open spec fn deep_view(&self) -> ResponseItemView {
        match self {
            ResponseItem::Message { id, role, content, end_turn, phase } =>
                ResponseItemView::Message {
                id: id.deep_view(),
                role: role@,
                content: content.deep_view(),
                end_turn: *end_turn,
                phase: phase.deep_view(),
            },
            ResponseItem::Reasoning { id, summary, content, encrypted_content } =>
                ResponseItemView::Reasoning {
                id: id@,
                summary: summary.deep_view(),
                content: content.deep_view(),
                encrypted_content: encrypted_content.deep_view(),
            },
            ResponseItem::LocalShellCall { id, call_id, action } =>
                ResponseItemView::LocalShellCall {
                id: id.deep_view(),
                call_id: call_id.deep_view(),
                action: action.deep_view(),
            },
            ResponseItem::FunctionCall { id, name, namespace, arguments, call_id } =>
                ResponseItemView::FunctionCall {
                id: id.deep_view(),
                name: name@,
                namespace: namespace.deep_view(),
                arguments: arguments@,
                call_id: call_id@,
            },
            ResponseItem::FunctionCallOutput { call_id, output } =>
                ResponseItemView::FunctionCallOutput {
                call_id: call_id@,
                output: output.deep_view(),
            },
            ResponseItem::CustomToolCall { id, call_id, name, input } =>
                ResponseItemView::CustomToolCall {
                id: id.deep_view(),
                call_id: call_id@,
                name: name@,
                input: input@,
            },
            ResponseItem::CustomToolCallOutput { call_id, output } =>
                ResponseItemView::CustomToolCallOutput {
                call_id: call_id@,
                output: output.deep_view(),
            },
            ResponseItem::GhostSnapshot => ResponseItemView::GhostSnapshot,
            ResponseItem::WebSearchCall => ResponseItemView::WebSearchCall,
            ResponseItem::ToolSearchCall => ResponseItemView::ToolSearchCall,
            ResponseItem::ToolSearchOutput => ResponseItemView::ToolSearchOutput,
            ResponseItem::ImageGenerationCall => ResponseItemView::ImageGenerationCall,
            ResponseItem::Compaction => ResponseItemView::Compaction,
            ResponseItem::Other => ResponseItemView::Other,
        }
    }
}

/// The instructions that stand before the conversation.
#[derive(Debug, PartialEq, Eq)]
pub struct BaseInstructions {
    pub text: String,
}

/// What the model is asked: instructions, the conversation so far, and the tools on offer.
#[derive(Debug, PartialEq, Eq)]
pub struct Prompt {
    pub base_instructions: BaseInstructions,
    /// The conversation, formatted for sending.
    pub input: Vec<ResponseItem>,
    pub tools: Vec<ToolSpec>,
    /// The schema that the answer is to follow.
    pub output_schema: Option<Json>,
}

/// Token counts of a response.
#[derive(Debug, Clone, Copy, PartialEq, Eq, Structural)]
pub struct TokenUsage {
    pub input_tokens: i64,
    pub cached_input_tokens: i64,
    pub output_tokens: i64,
    pub reasoning_output_tokens: i64,
    pub total_tokens: i64,
}

/// An event of a response.
#[derive(Debug, PartialEq, Eq)]
pub enum ResponseEvent {
    Created,
    OutputItemAdded(ResponseItem),
    OutputItemDone(ResponseItem),
    OutputTextDelta(String),
    ReasoningContentDelta { delta: String, content_index: i64 },
    Completed { response_id: String, token_usage: Option<TokenUsage> },
    ServerModel(String),
}

/// What a [`ResponseEvent`] holds.
pub enum ResponseEventView {
    Created,
    OutputItemAdded(ResponseItemView),
    OutputItemDone(ResponseItemView),
    OutputTextDelta(Seq<char>),
    ReasoningContentDelta { delta: Seq<char>, content_index: i64 },
    Completed { response_id: Seq<char>, token_usage: Option<TokenUsage> },
    ServerModel(Seq<char>),
}

impl DeepView for ResponseEvent {
    type V = ResponseEventView;

    open spec fn deep_view(&self) -> ResponseEventView {
        match self {
            ResponseEvent::Created => ResponseEventView::Created,
            ResponseEvent::OutputItemAdded(item) => ResponseEventView::OutputItemAdded(
                item.deep_view(),
            ),
            ResponseEvent::OutputItemDone(item) => ResponseEventView::OutputItemDone(
                item.deep_view(),
            ),
            ResponseEvent::OutputTextDelta(t) => ResponseEventView::OutputTextDelta(t@),
            ResponseEvent::ReasoningContentDelta { delta, content_index } =>
                ResponseEventView::ReasoningContentDelta {
                delta: delta@,
                content_index: *content_index,
            },
            ResponseEvent::Completed { response_id, token_usage } => ResponseEventView::Completed {
                response_id: response_id@,
                token_usage: *token_usage,
            },
            ResponseEvent::ServerModel(m) => ResponseEventView::ServerModel(m@),
        }
    }
}

} // verus!
