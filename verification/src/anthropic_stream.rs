//! The event stream of the Anthropic Messages API, turned into events of the agent.

use crate::anthropic_types::{ContentBlock, ContentBlockDelta, StreamEvent};
use crate::error::{CodexErr, CodexErrView};
use crate::models::{
    ContentItem, ContentItemView, ResponseEvent, ResponseEventView, ResponseItem, ResponseItemView,
    TokenUsage,
};
use crate::sent;
use std::collections::HashMap;
use vstd::prelude::*;

verus! {

/// The kind of a content block.
#[derive(Debug, Clone, Copy, PartialEq, Eq, Structural)]
pub enum BlockKind {
    Text,
    ToolUse,
    Thinking,
}

/// A content block that has begun and not ended.
#[derive(Debug, PartialEq, Eq)]
pub struct BlockState {
    pub kind: BlockKind,
    pub text: String,
    pub tool_name: String,
    pub tool_id: String,
    pub tool_args: String,
}

/// What a [`BlockState`] holds.
pub struct BlockView {
    pub kind: BlockKind,
    pub text: Seq<char>,
    pub tool_name: Seq<char>,
    pub tool_id: Seq<char>,
    pub tool_args: Seq<char>,
}

impl DeepView for BlockState {
    type V = BlockView;

    open spec fn deep_view(&self) -> BlockView {
        BlockView {
            kind: self.kind,
            text: self.text@,
            tool_name: self.tool_name@,
            tool_id: self.tool_id@,
            tool_args: self.tool_args@,
        }
    }
}

/// What happens on the stream.
#[derive(Debug, PartialEq, Eq)]
pub enum AnthropicInput {
    /// An event.
    Event(StreamEvent),
    /// An event that is not understood.
    Unreadable,
    /// The end of the stream.
    Closed,
    /// A failure of the transport.
    Broken(String),
    /// Nothing, for too long.
    IdleTimeout,
}

/// The state of the processing of a stream.
pub struct AnthropicStream {
    /// The content blocks that have begun and not ended.
    pub blocks: HashMap<usize, BlockState>,
    pub response_id: String,
    /// The content of the message that has been announced and not finished.
    pub open_message: Option<Vec<ContentItem>>,
    pub input_tokens: u32,
    pub output_tokens: u32,
    pub cached_input_tokens: u32,
    /// Whether the last event has been sent.
    pub finished: bool,
}

/// What an [`AnthropicStream`] knows.
pub struct AnthropicState {
    pub blocks: Map<usize, BlockView>,
    pub response_id: Seq<char>,
    pub open_message: Option<Seq<ContentItemView>>,
    pub input_tokens: u32,
    pub output_tokens: u32,
    pub cached_input_tokens: u32,
    pub finished: bool,
}

/// The blocks of a map, seen for what they hold.
pub open spec fn block_views(blocks: Map<usize, BlockState>) -> Map<usize, BlockView> {
    Map::new(|k: usize| blocks.contains_key(k), |k: usize| blocks[k].deep_view())
}

impl View for AnthropicStream {
    type V = AnthropicState;

    open spec fn view(&self) -> AnthropicState {
        AnthropicState {
            blocks: block_views(self.blocks@),
            response_id: self.response_id@,
            open_message: self.open_message.deep_view(),
            input_tokens: self.input_tokens,
            output_tokens: self.output_tokens,
            cached_input_tokens: self.cached_input_tokens,
            finished: self.finished,
        }
    }
}

/// The state at the beginning of a stream.
pub open spec fn anthropic_start() -> AnthropicState {
    AnthropicState {
        blocks: Map::empty(),
        response_id: seq![],
        open_message: None,
        input_tokens: 0,
        output_tokens: 0,
        cached_input_tokens: 0,
        finished: false,
    }
}

/// The block that a block of the response begins as.
pub open spec fn begun_block(b: ContentBlock) -> BlockView {
    match b {
        ContentBlock::Text { .. } => BlockView {
            kind: BlockKind::Text,
            text: seq![],
            tool_name: seq![],
            tool_id: seq![],
            tool_args: seq![],
        },
        ContentBlock::ToolUse { id, name, .. } => BlockView {
            kind: BlockKind::ToolUse,
            text: seq![],
            tool_name: name@,
            tool_id: id@,
            tool_args: seq![],
        },
        ContentBlock::Thinking { .. } => BlockView {
            kind: BlockKind::Thinking,
            text: seq![],
            tool_name: seq![],
            tool_id: seq![],
            tool_args: seq![],
        },
    }
}

/// A block with more of it behind it.
pub open spec fn extended_block(b: BlockView, delta: ContentBlockDelta) -> BlockView {
    match delta {
        ContentBlockDelta::TextDelta { text } => BlockView { text: b.text + text@, ..b },
        ContentBlockDelta::InputJsonDelta { partial_json } => BlockView {
            tool_args: b.tool_args + partial_json@,
            ..b
        },
        ContentBlockDelta::ThinkingDelta { thinking } => BlockView {
            text: b.text + thinking@,
            ..b
        },
        ContentBlockDelta::SignatureDelta { .. } => b,
    }
}

/// The end of the response, with the token counts.
pub open spec fn completed(s: AnthropicState) -> sent::SentView {
    Ok(
        ResponseEventView::Completed {
            response_id: s.response_id,
            token_usage: Some(
                TokenUsage {
                    input_tokens: s.input_tokens as i64,
                    cached_input_tokens: s.cached_input_tokens as i64,
                    output_tokens: s.output_tokens as i64,
                    reasoning_output_tokens: 0,
                    total_tokens: (s.input_tokens + s.output_tokens) as i64,
                },
            ),
        },
    )
}

/// `s`, with the last event sent.
pub open spec fn over(s: AnthropicState) -> AnthropicState {
    AnthropicState { finished: true, ..s }
}

/// What an event does: the state after it, and what is sent.
pub open spec fn event_step(s: AnthropicState, event: StreamEvent) -> (
    AnthropicState,
    Seq<sent::SentView>,
) {
    match event {
        StreamEvent::MessageStart { message } => (
            AnthropicState {
                response_id: message.id@,
                input_tokens: message.usage.input_tokens,
                output_tokens: message.usage.output_tokens,
                cached_input_tokens: match message.usage.cache_read_input_tokens {
                    Some(n) => n,
                    None => 0,
                },
                ..s
            },
            seq![Ok(ResponseEventView::Created)],
        ),
        StreamEvent::ContentBlockStart { index, content_block } => {
            let begun = AnthropicState {
                blocks: s.blocks.insert(index, begun_block(content_block)),
                ..s
            };
            if content_block is Text && s.open_message is None {
                (
                    AnthropicState { open_message: Some(seq![]), ..begun },
                    seq![
                        Ok(
                            ResponseEventView::OutputItemAdded(sent::assistant_message(seq![])),
                        ),
                    ],
                )
            } else {
                (begun, seq![])
            }
        },
        StreamEvent::ContentBlockDelta { index, delta } => if s.blocks.contains_key(index) {
            let extended = AnthropicState {
                blocks: s.blocks.insert(index, extended_block(s.blocks[index], delta)),
                ..s
            };
            match delta {
                ContentBlockDelta::TextDelta { text } => (
                    AnthropicState {
                        open_message: sent::with_text(s.open_message, text@),
                        ..extended
                    },
                    seq![Ok(ResponseEventView::OutputTextDelta(text@))],
                ),
                ContentBlockDelta::ThinkingDelta { thinking } => (
                    extended,
                    seq![
                        Ok(
                            ResponseEventView::ReasoningContentDelta {
                                delta: thinking@,
                                content_index: 0,
                            },
                        ),
                    ],
                ),
                _ => (extended, seq![]),
            }
        } else {
            (s, seq![])
        },
        StreamEvent::ContentBlockStop { index } => if s.blocks.contains_key(index) {
            let b = s.blocks[index];
            let ended = AnthropicState { blocks: s.blocks.remove(index), ..s };
            match b.kind {
                BlockKind::ToolUse => {
                    let call = sent::function_call_item(b.tool_name, b.tool_args, b.tool_id);
                    (
                        AnthropicState { open_message: None, ..ended },
                        sent::message_done(s.open_message) + seq![
                            Ok(ResponseEventView::OutputItemAdded(call)),
                            Ok(ResponseEventView::OutputItemDone(call)),
                        ],
                    )
                },
                BlockKind::Text => (ended, seq![]),
                BlockKind::Thinking => (ended, reasoning_done(b.text)),
            }
        } else {
            (s, seq![])
        },
        StreamEvent::MessageDelta { delta, usage } => {
            let counted = AnthropicState { output_tokens: usage.output_tokens, ..s };
            if delta.stop_reason is Some {
                (
                    AnthropicState { open_message: None, ..counted },
                    sent::message_done(s.open_message),
                )
            } else {
                (counted, seq![])
            }
        },
        StreamEvent::MessageStop => (over(s), seq![completed(s)]),
        StreamEvent::Ping => (s, seq![]),
        StreamEvent::Error { error } => (
            over(s),
            seq![Err(CodexErrView::Stream("Anthropic error: "@ + error.message@))],
        ),
    }
}

/// A finished piece of reasoning; an empty one is not sent.
pub open spec fn reasoning_done(t: Seq<char>) -> Seq<sent::SentView> {
    if t.len() == 0 {
        seq![]
    } else {
        seq![
            Ok(
                ResponseEventView::OutputItemDone(
                    ResponseItemView::Reasoning {
                        id: seq![],
                        summary: seq![],
                        content: Some(seq![t]),
                        encrypted_content: None,
                    },
                ),
            ),
        ]
    }
}

/// What happens on the stream does this: the state after it, and what is sent. Once the last
/// event has been sent, nothing happens any more.
pub open spec fn step(s: AnthropicState, input: AnthropicInput) -> (
    AnthropicState,
    Seq<sent::SentView>,
) {
    if s.finished {
        (s, seq![])
    } else {
        match input {
            AnthropicInput::Event(event) => event_step(s, event),
            AnthropicInput::Unreadable => (s, seq![]),
            AnthropicInput::Closed => (over(s), seq![completed(s)]),
            AnthropicInput::Broken(message) => (
                over(s),
                seq![Err(CodexErrView::Stream(message@))],
            ),
            AnthropicInput::IdleTimeout => (
                over(s),
                seq![Err(CodexErrView::Stream("idle timeout waiting for Anthropic SSE"@))],
            ),
        }
    }
}

impl Default for AnthropicStream {
    /// A processor at the beginning of a stream.
    fn default() -> (stream: AnthropicStream)
        ensures
            stream@ == anthropic_start(),
    {
        let stream = AnthropicStream {
            blocks: HashMap::new(),
            response_id: String::new(),
            open_message: None,
            input_tokens: 0,
            output_tokens: 0,
            cached_input_tokens: 0,
            finished: false,
        };
        assert(stream@.blocks =~= Map::empty());
        stream
    }
}

/// The block that a block of the response begins as.
fn begin_block(b: &ContentBlock) -> (state: BlockState)
    ensures
        state.deep_view() == begun_block(*b),
{
    match b {
        ContentBlock::Text { .. } => BlockState {
            kind: BlockKind::Text,
            text: String::new(),
            tool_name: String::new(),
            tool_id: String::new(),
            tool_args: String::new(),
        },
        ContentBlock::ToolUse { id, name, .. } => BlockState {
            kind: BlockKind::ToolUse,
            text: String::new(),
            tool_name: name.clone(),
            tool_id: id.clone(),
            tool_args: String::new(),
        },
        ContentBlock::Thinking { .. } => BlockState {
            kind: BlockKind::Thinking,
            text: String::new(),
            tool_name: String::new(),
            tool_id: String::new(),
            tool_args: String::new(),
        },
    }
}

impl AnthropicStream {
    /// Sends the end of the response.
    fn complete(&mut self, out: &mut Vec<Result<ResponseEvent, CodexErr>>)
        ensures
            final(self)@ == over(old(self)@),
            sent::sent(final(out)@) == sent::sent(old(out)@).push(completed(old(self)@)),
    {
        self.finished = true;
        sent::send(
            out,
            ResponseEvent::Completed {
                response_id: self.response_id.clone(),
                token_usage: Some(
                    TokenUsage {
                        input_tokens: self.input_tokens as i64,
                        cached_input_tokens: self.cached_input_tokens as i64,
                        output_tokens: self.output_tokens as i64,
                        reasoning_output_tokens: 0,
                        total_tokens: self.input_tokens as i64 + self.output_tokens as i64,
                    },
                ),
            },
        );
    }

    /// Takes in more of a block.
    fn extend_block(
        &mut self,
        index: usize,
        delta: ContentBlockDelta,
        out: &mut Vec<Result<ResponseEvent, CodexErr>>,
    )
        ensures
            ({
                let (state, sendings) = event_step(
                    old(self)@,
                    StreamEvent::ContentBlockDelta { index, delta },
                );
                &&& final(self)@ == state
                &&& sent::sent(final(out)@) == sent::sent(old(out)@) + sendings
            }),
    {
        let ghost s = self@;
        let ghost before = sent::sent(out@);
        match self.blocks.remove(&index) {
            Some(state) => {
                let mut state = state;
                assert(s.blocks[index] == state.deep_view());
                match delta {
                    ContentBlockDelta::TextDelta { text } => {
                        state.text.append(text.as_str());
                        sent::send_text(out, &mut self.open_message, text);
                    },
                    ContentBlockDelta::InputJsonDelta { partial_json } => {
                        state.tool_args.append(partial_json.as_str());
                    },
                    ContentBlockDelta::ThinkingDelta { thinking } => {
                        state.text.append(thinking.as_str());
                        sent::send(
                            out,
                            ResponseEvent::ReasoningContentDelta {
                                delta: thinking,
                                content_index: 0,
                            },
                        );
                    },
                    ContentBlockDelta::SignatureDelta { .. } => {},
                }
                self.blocks.insert(index, state);
                assert(self@.blocks =~= s.blocks.insert(
                    index,
                    extended_block(s.blocks[index], delta),
                ));
            },
            None => {
                assert(self@.blocks =~= s.blocks);
            },
        }
        assert(sent::sent(out@) =~= before + event_step(
            s,
            StreamEvent::ContentBlockDelta { index, delta },
        ).1);
    }

    /// Takes in the end of a block.
    fn end_block(&mut self, index: usize, out: &mut Vec<Result<ResponseEvent, CodexErr>>)
        ensures
            ({
                let (state, sendings) = event_step(
                    old(self)@,
                    StreamEvent::ContentBlockStop { index },
                );
                &&& final(self)@ == state
                &&& sent::sent(final(out)@) == sent::sent(old(out)@) + sendings
            }),
    {
        let ghost s = self@;
        let ghost before = sent::sent(out@);
        match self.blocks.remove(&index) {
            Some(state) => {
                assert(s.blocks[index] == state.deep_view());
                assert(self@.blocks =~= s.blocks.remove(index));
                match state.kind {
                    BlockKind::ToolUse => {
                        sent::finish_message(out, &mut self.open_message);
                        let added = ResponseItem::FunctionCall {
                            id: None,
                            name: state.tool_name.clone(),
                            namespace: None,
                            arguments: state.tool_args.clone(),
                            call_id: state.tool_id.clone(),
                        };
                        let done = ResponseItem::FunctionCall {
                            id: None,
                            name: state.tool_name,
                            namespace: None,
                            arguments: state.tool_args,
                            call_id: state.tool_id,
                        };
                        sent::send(out, ResponseEvent::OutputItemAdded(added));
                        sent::send(out, ResponseEvent::OutputItemDone(done));
                    },
                    BlockKind::Text => {},
                    BlockKind::Thinking => {
                        if !state.text.as_str().is_empty() {
                            let mut content: Vec<String> = Vec::new();
                            content.push(state.text);
                            assert(content.deep_view() =~= seq![state.text@]);
                            let summary: Vec<String> = Vec::new();
                            assert(summary.deep_view() =~= seq![]);
                            sent::send(
                                out,
                                ResponseEvent::OutputItemDone(
                                    ResponseItem::Reasoning {
                                        id: String::new(),
                                        summary,
                                        content: Some(content),
                                        encrypted_content: None,
                                    },
                                ),
                            );
                        }
                    },
                }
            },
            None => {
                assert(self@.blocks =~= s.blocks);
            },
        }
        assert(sent::sent(out@) =~= before + event_step(
            s,
            StreamEvent::ContentBlockStop { index },
        ).1);
    }

    /// Takes in what happens on the stream, and returns what is to be sent.
    pub fn on_input(&mut self, input: AnthropicInput) -> (out: Vec<Result<ResponseEvent, CodexErr>>)
        ensures
            final(self)@ == step(old(self)@, input).0,
            sent::sent(out@) == step(old(self)@, input).1,
    {
        let ghost s = self@;
        let mut out: Vec<Result<ResponseEvent, CodexErr>> = Vec::new();
        assert(sent::sent(out@) =~= seq![]);
        if self.finished {
            return out;
        }
        match input {
            AnthropicInput::Event(event) => match event {
                StreamEvent::MessageStart { message } => {
                    self.response_id = message.id;
                    self.input_tokens = message.usage.input_tokens;
                    self.output_tokens = message.usage.output_tokens;
                    self.cached_input_tokens = match message.usage.cache_read_input_tokens {
                        Some(n) => n,
                        None => 0,
                    };
                    sent::send(&mut out, ResponseEvent::Created);
                },
                StreamEvent::ContentBlockStart { index, content_block } => {
                    self.blocks.insert(index, begin_block(&content_block));
                    assert(self@.blocks =~= s.blocks.insert(index, begun_block(content_block)));
                    if let ContentBlock::Text { .. } = content_block {
                        sent::begin_message(&mut out, &mut self.open_message);
                    }
                },
                StreamEvent::ContentBlockDelta { index, delta } => {
                    self.extend_block(index, delta, &mut out);
                },
                StreamEvent::ContentBlockStop { index } => {
                    self.end_block(index, &mut out);
                },
                StreamEvent::MessageDelta { delta, usage } => {
                    self.output_tokens = usage.output_tokens;
                    if delta.stop_reason.is_some() {
                        sent::finish_message(&mut out, &mut self.open_message);
                    }
                },
                StreamEvent::MessageStop => {
                    self.complete(&mut out);
                },
                StreamEvent::Ping => {},
                StreamEvent::Error { error } => {
                    self.finished = true;
                    let mut message = "Anthropic error: ".to_string();
                    message.append(error.message.as_str());
                    sent::send_error(&mut out, CodexErr::Stream(message));
                },
            },
            AnthropicInput::Unreadable => {},
            AnthropicInput::Closed => {
                self.complete(&mut out);
            },
            AnthropicInput::Broken(message) => {
                self.finished = true;
                sent::send_error(&mut out, CodexErr::Stream(message));
            },
            AnthropicInput::IdleTimeout => {
                self.finished = true;
                sent::send_error(
                    &mut out,
                    CodexErr::Stream("idle timeout waiting for Anthropic SSE".to_string()),
                );
            },
        }
        assert(sent::sent(out@) =~= step(s, input).1);
        out
    }
}

} // verus!
