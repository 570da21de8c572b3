//! The wire types of the Anthropic Messages API.
//!
//! Requests have views, which say what they hold in terms of characters and trees.

use crate::json::{Json, JsonTree};
use vstd::prelude::*;

verus! {

/// The body of a `POST /v1/messages`.
#[derive(Debug)]
pub struct MessagesRequest<'a> {
    pub model: &'a str,
    pub max_tokens: u32,
    pub messages: Vec<MessageParam>,
    pub system: Option<&'a str>,
    pub tools: Option<Vec<AnthropicTool>>,
    pub tool_choice: Option<AnthropicToolChoice>,
    /// True asks for a stream of events.
    pub stream: bool,
}

/// What a [`MessagesRequest`] holds.
pub struct MessagesRequestView {
    pub model: Seq<char>,
    pub max_tokens: u32,
    pub messages: Seq<MessageParamView>,
    pub system: Option<Seq<char>>,
    pub tools: Option<Seq<AnthropicToolView>>,
    pub tool_choice: Option<AnthropicToolChoiceView>,
    pub stream: bool,
}

impl<'a> DeepView for MessagesRequest<'a> {
    type V = MessagesRequestView;

    open spec fn deep_view(&self) -> MessagesRequestView {
        MessagesRequestView {
            model: self.model@,
            max_tokens: self.max_tokens,
            messages: self.messages.deep_view(),
            system: self.system.deep_view(),
            tools: self.tools.deep_view(),
            tool_choice: self.tool_choice.deep_view(),
            stream: self.stream,
        }
    }
}

/// A message of the conversation.
#[derive(Debug, PartialEq, Eq)]
pub struct MessageParam {
    pub role: String,
    pub content: MessageContent,
}

/// What a [`MessageParam`] holds.
pub struct MessageParamView {
    pub role: Seq<char>,
    pub content: MessageContentView,
}

impl DeepView for MessageParam {
    type V = MessageParamView;

    open spec fn deep_view(&self) -> MessageParamView {
        MessageParamView { role: self.role@, content: self.content.deep_view() }
    }
}

/// The content of a message: a plain text, or a list of typed blocks.
#[derive(Debug, PartialEq, Eq)]
pub enum MessageContent {
    Text(String),
    Blocks(Vec<ContentBlockParam>),
}

/// What a [`MessageContent`] holds.
pub enum MessageContentView {
    Text(Seq<char>),
    Blocks(Seq<ContentBlockParamView>),
}

impl DeepView for MessageContent {
    type V = MessageContentView;

    open spec fn deep_view(&self) -> MessageContentView {
        match self {
            MessageContent::Text(t) => MessageContentView::Text(t@),
            MessageContent::Blocks(b) => MessageContentView::Blocks(b.deep_view()),
        }
    }
}

/// A block of the content of a request message.
#[derive(Debug, PartialEq, Eq)]
pub enum ContentBlockParam {
    Text { text: String },
    Image { source: ImageSource },
    ToolUse { id: String, name: String, input: Json },
    ToolResult { tool_use_id: String, content: Option<String>, is_error: Option<bool> },
}

/// What a [`ContentBlockParam`] holds.
pub enum ContentBlockParamView {
    Text { text: Seq<char> },
    Image { source: ImageSourceView },
    ToolUse { id: Seq<char>, name: Seq<char>, input: JsonTree },
    ToolResult { tool_use_id: Seq<char>, content: Option<Seq<char>>, is_error: Option<bool> },
}

impl DeepView for ContentBlockParam {
    type V = ContentBlockParamView;

    open spec fn deep_view(&self) -> ContentBlockParamView {
        match self {
            ContentBlockParam::Text { text } => ContentBlockParamView::Text { text: text@ },
            ContentBlockParam::Image { source } => ContentBlockParamView::Image {
                source: source.deep_view(),
            },
            ContentBlockParam::ToolUse { id, name, input } => ContentBlockParamView::ToolUse {
                id: id@,
                name: name@,
                input: input.tree(),
            },
            ContentBlockParam::ToolResult { tool_use_id, content, is_error } =>
                ContentBlockParamView::ToolResult {
                tool_use_id: tool_use_id@,
                content: content.deep_view(),
                is_error: *is_error,
            },
        }
    }
}

/// The data of an image block.
#[derive(Debug, PartialEq, Eq)]
pub struct ImageSource {
    /// The `type` of the source.
    pub kind: String,
    pub media_type: String,
    pub data: String,
}

/// What an [`ImageSource`] holds.
pub struct ImageSourceView {
    pub kind: Seq<char>,
    pub media_type: Seq<char>,
    pub data: Seq<char>,
}

impl DeepView for ImageSource {
    type V = ImageSourceView;

    open spec fn deep_view(&self) -> ImageSourceView {
        ImageSourceView { kind: self.kind@, media_type: self.media_type@, data: self.data@ }
    }
}

/// A tool definition.
#[derive(Debug, PartialEq, Eq)]
pub struct AnthropicTool {
    pub name: String,
    pub description: String,
    pub input_schema: Json,
}

/// What an [`AnthropicTool`] holds.
pub struct AnthropicToolView {
    pub name: Seq<char>,
    pub description: Seq<char>,
    pub input_schema: JsonTree,
}

impl DeepView for AnthropicTool {
    type V = AnthropicToolView;

    open spec fn deep_view(&self) -> AnthropicToolView {
        AnthropicToolView {
            name: self.name@,
            description: self.description@,
            input_schema: self.input_schema.tree(),
        }
    }
}

/// Which tools the model may choose.
#[derive(Debug, PartialEq, Eq)]
pub enum AnthropicToolChoice {
    Auto,
    Any,
    Tool { name: String },
}

/// What an [`AnthropicToolChoice`] holds.
pub enum AnthropicToolChoiceView {
    Auto,
    Any,
    Tool { name: Seq<char> },
}

impl DeepView for AnthropicToolChoice {
    type V = AnthropicToolChoiceView;

    open spec fn deep_view(&self) -> AnthropicToolChoiceView {
        match self {
            AnthropicToolChoice::Auto => AnthropicToolChoiceView::Auto,
            AnthropicToolChoice::Any => AnthropicToolChoiceView::Any,
            AnthropicToolChoice::Tool { name } => AnthropicToolChoiceView::Tool { name: name@ },
        }
    }
}

/// A block of the content of a response, as it begins.
#[derive(Debug, PartialEq, Eq)]
pub enum ContentBlock {
    Text { text: String },
    ToolUse { id: String, name: String, input: Json },
    Thinking { thinking: String },
}

/// Why the model stopped.
#[derive(Debug, Clone, Copy, PartialEq, Eq, Structural)]
pub enum StopReason {
    EndTurn,
    MaxTokens,
    StopSequence,
    ToolUse,
}

/// Token counts at the start of a message.
#[derive(Debug, Clone, Copy, PartialEq, Eq, Structural)]
pub struct Usage {
    pub input_tokens: u32,
    pub output_tokens: u32,
    pub cache_creation_input_tokens: Option<u32>,
    pub cache_read_input_tokens: Option<u32>,
}

/// An event of the stream.
#[allow(inconsistent_fields)]
#[derive(Debug, PartialEq, Eq)]
pub enum StreamEvent {
    MessageStart { message: StreamMessageStart },
    MessageDelta { delta: MessageDelta, usage: MessageDeltaUsage },
    MessageStop,
    ContentBlockStart { index: usize, content_block: ContentBlock },
    ContentBlockDelta { index: usize, delta: ContentBlockDelta },
    ContentBlockStop { index: usize },
    Ping,
    Error { error: StreamError },
}

/// The head of a message.
#[derive(Debug, PartialEq, Eq)]
pub struct StreamMessageStart {
    pub id: String,
    pub role: String,
    pub model: String,
    pub usage: Usage,
}

/// A change of the message as a whole.
#[derive(Debug, Clone, Copy, PartialEq, Eq, Structural)]
pub struct MessageDelta {
    pub stop_reason: Option<StopReason>,
}

/// The running count of output tokens.
#[derive(Debug, Clone, Copy, PartialEq, Eq, Structural)]
pub struct MessageDeltaUsage {
    pub output_tokens: u32,
}

/// More of a content block.
#[derive(Debug, PartialEq, Eq)]
pub enum ContentBlockDelta {
    TextDelta { text: String },
    InputJsonDelta { partial_json: String },
    ThinkingDelta { thinking: String },
    SignatureDelta { signature: String },
}

/// An error that the provider reports in the stream.
#[derive(Debug, PartialEq, Eq)]
pub struct StreamError {
    pub message: String,
    /// The `type` of the error.
    pub kind: String,
}

} // verus!
