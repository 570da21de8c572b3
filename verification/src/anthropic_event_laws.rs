//! What each thing that happens on an Anthropic stream leads to, stated on what happened and on
//! what was sent.

use crate::anthropic_stream;
use crate::anthropic_stream::{AnthropicInput, AnthropicState, AnthropicStream, BlockKind};
use crate::anthropic_stream_laws;
use crate::anthropic_types::{
    ContentBlock, ContentBlockDelta, MessageDelta, MessageDeltaUsage, StreamError, StreamEvent,
    StreamMessageStart,
};
use crate::error::CodexErrView;
use crate::models::{ContentItemView, ResponseEventView, ResponseItemView};
use crate::sent;
use vstd::prelude::*;

verus! {

/// What was sent as text, piece by piece.
pub open spec fn texts_sent(out: Seq<sent::SentView>) -> Seq<Seq<char>>
    decreases out.len(),
{
    if out.len() == 0 {
        seq![]
    } else {
        let before = texts_sent(out.drop_last());
        match out.last() {
            Ok(ResponseEventView::OutputTextDelta(t)) => before.push(t),
            _ => before,
        }
    }
}

/// What was sent as reasoning, piece by piece.
pub open spec fn reasoning_sent(out: Seq<sent::SentView>) -> Seq<Seq<char>>
    decreases out.len(),
{
    if out.len() == 0 {
        seq![]
    } else {
        let before = reasoning_sent(out.drop_last());
        match out.last() {
            Ok(ResponseEventView::ReasoningContentDelta { delta, .. }) => before.push(delta),
            _ => before,
        }
    }
}

/// The input ends the response.
pub open spec fn ends_the_response(input: AnthropicInput) -> bool {
    match input {
        AnthropicInput::Event(StreamEvent::MessageStop) => true,
        AnthropicInput::Event(StreamEvent::Error { .. }) => true,
        AnthropicInput::Event(_) => false,
        AnthropicInput::Unreadable => false,
        AnthropicInput::Closed => true,
        AnthropicInput::Broken(_) => true,
        AnthropicInput::IdleTimeout => true,
    }
}

/// None of the inputs ends the response.
pub open spec fn goes_on(inputs: Seq<AnthropicInput>) -> bool {
    forall|i: int| 0 <= i < inputs.len() ==> !ends_the_response(#[trigger] inputs[i])
}

/// The block at `index` has begun and not ended: what the inputs last told of it is that it
/// begins, or, where they told neither, it was open before them.
pub open spec fn in_block(open: bool, inputs: Seq<AnthropicInput>, index: usize) -> bool
    decreases inputs.len(),
{
    if inputs.len() == 0 {
        open
    } else {
        match inputs.last() {
            AnthropicInput::Event(StreamEvent::ContentBlockStart { index: i, .. }) => i == index
                || in_block(open, inputs.drop_last(), index),
            AnthropicInput::Event(StreamEvent::ContentBlockStop { index: i }) => i != index
                && in_block(open, inputs.drop_last(), index),
            _ => in_block(open, inputs.drop_last(), index),
        }
    }
}

/// The texts that came for blocks that had begun and not ended, in order, as long as the response
/// had not ended.
pub open spec fn texts_came(open: Set<usize>, inputs: Seq<AnthropicInput>) -> Seq<Seq<char>>
    decreases inputs.len(),
{
    if inputs.len() == 0 {
        seq![]
    } else {
        let front = inputs.drop_last();
        let before = texts_came(open, front);
        match inputs.last() {
            AnthropicInput::Event(
                StreamEvent::ContentBlockDelta {
                    index,
                    delta: ContentBlockDelta::TextDelta { text },
                },
            ) => if goes_on(front) && in_block(open.contains(index), front, index) {
                before.push(text@)
            } else {
                before
            },
            _ => before,
        }
    }
}

/// The reasoning that came for blocks that had begun and not ended, in order, as long as the
/// response had not ended.
pub open spec fn reasoning_came(open: Set<usize>, inputs: Seq<AnthropicInput>) -> Seq<Seq<char>>
    decreases inputs.len(),
{
    if inputs.len() == 0 {
        seq![]
    } else {
        let front = inputs.drop_last();
        let before = reasoning_came(open, front);
        match inputs.last() {
            AnthropicInput::Event(
                StreamEvent::ContentBlockDelta {
                    index,
                    delta: ContentBlockDelta::ThinkingDelta { thinking },
                },
            ) => if goes_on(front) && in_block(open.contains(index), front, index) {
                before.push(thinking@)
            } else {
                before
            },
            _ => before,
        }
    }
}

proof fn lemma_goes_on(inputs: Seq<AnthropicInput>)
    requires
        inputs.len() > 0,
    ensures
        goes_on(inputs) <==> goes_on(inputs.drop_last()) && !ends_the_response(inputs.last()),
{
    let front = inputs.drop_last();
    if goes_on(inputs) {
        assert forall|i: int| 0 <= i < front.len() implies !ends_the_response(
            #[trigger] front[i],
        ) by {
            assert(front[i] == inputs[i]);
        }
        assert(!ends_the_response(inputs[inputs.len() - 1]));
    }
    if goes_on(front) && !ends_the_response(inputs.last()) {
        assert forall|i: int| 0 <= i < inputs.len() implies !ends_the_response(
            #[trigger] inputs[i],
        ) by {
            if i < front.len() {
                assert(front[i] == inputs[i]);
            }
        }
    }
}

/// The response has ended exactly if an input has ended it; and until then the blocks that are
/// open are those that have begun and not ended.
pub proof fn law_blocks_are_open_from_their_beginning_to_their_end(
    s: AnthropicState,
    inputs: Seq<AnthropicInput>,
    index: usize,
)
    requires
        !s.finished,
    ensures
        anthropic_stream_laws::run(s, inputs).0.finished <==> !goes_on(inputs),
        goes_on(inputs) ==> (anthropic_stream_laws::run(s, inputs).0.blocks.contains_key(index)
            <==> in_block(s.blocks.contains_key(index), inputs, index)),
    decreases inputs.len(),
{
    if inputs.len() > 0 {
        lemma_goes_on(inputs);
        law_blocks_are_open_from_their_beginning_to_their_end(s, inputs.drop_last(), index);
    }
}

proof fn lemma_texts_concat(a: Seq<sent::SentView>, b: Seq<sent::SentView>)
    ensures
        texts_sent(a + b) == texts_sent(a) + texts_sent(b),
        reasoning_sent(a + b) == reasoning_sent(a) + reasoning_sent(b),
    decreases b.len(),
{
    if b.len() == 0 {
        assert(a + b =~= a);
    } else {
        assert((a + b).drop_last() =~= a + b.drop_last());
        lemma_texts_concat(a, b.drop_last());
    }
    assert(texts_sent(a + b) =~= texts_sent(a) + texts_sent(b));
    assert(reasoning_sent(a + b) =~= reasoning_sent(a) + reasoning_sent(b));
}

proof fn lemma_texts_of_few(out: Seq<sent::SentView>)
    requires
        out.len() <= 3,
        forall|i: int|
            0 <= i < out.len() ==> !(#[trigger] out[i] matches Ok(e) && (e is OutputTextDelta
                || e is ReasoningContentDelta)),
    ensures
        texts_sent(out).len() == 0,
        reasoning_sent(out).len() == 0,
    decreases out.len(),
{
    if out.len() > 0 {
        let front = out.drop_last();
        assert forall|i: int| 0 <= i < front.len() implies !(#[trigger] front[i] matches Ok(e) && (
        e is OutputTextDelta || e is ReasoningContentDelta)) by {
            assert(front[i] == out[i]);
        }
        lemma_texts_of_few(front);
        assert(out.last() == out[out.len() - 1]);
    }
}

/// What is sent as text is what came as text: the pieces of text that came for blocks that had
/// begun and not ended, one for one and in order, each as it came. So it is with reasoning.
pub proof fn law_what_is_sent_is_what_came(s: AnthropicState, inputs: Seq<AnthropicInput>)
    requires
        !s.finished,
    ensures
        texts_sent(anthropic_stream_laws::run(s, inputs).1) == texts_came(s.blocks.dom(), inputs),
        reasoning_sent(anthropic_stream_laws::run(s, inputs).1) == reasoning_came(
            s.blocks.dom(),
            inputs,
        ),
    decreases inputs.len(),
{
    reveal_with_fuel(texts_sent, 2);
    reveal_with_fuel(reasoning_sent, 2);
    if inputs.len() > 0 {
        let front = inputs.drop_last();
        let last = inputs.last();
        let (mid, out) = anthropic_stream_laws::run(s, front);
        let more = anthropic_stream::step(mid, last).1;
        law_what_is_sent_is_what_came(s, front);
        lemma_texts_concat(out, more);
        law_blocks_are_open_from_their_beginning_to_their_end(s, front, 0);
        match last {
            AnthropicInput::Event(StreamEvent::ContentBlockDelta { index, delta }) => {
                law_blocks_are_open_from_their_beginning_to_their_end(s, front, index);
                match delta {
                    ContentBlockDelta::TextDelta { text } => {},
                    ContentBlockDelta::ThinkingDelta { thinking } => {},
                    _ => {
                        lemma_texts_of_few(more);
                    },
                }
                assert(more.len() > 0 ==> more.drop_last() =~= seq![]);
            },
            _ => {
                lemma_texts_of_few(more);
            },
        }
        assert(texts_sent(out + more) =~= texts_came(s.blocks.dom(), inputs));
        assert(reasoning_sent(out + more) =~= reasoning_came(s.blocks.dom(), inputs));
    }
}

/// A message of the assistant.
pub open spec fn said(content: Seq<ContentItemView>) -> ResponseItemView {
    ResponseItemView::Message {
        id: None,
        role: "assistant"@,
        content,
        end_turn: None,
        phase: None,
    }
}

/// The end of the message that is open, if any.
pub open spec fn message_end(open: Option<Seq<ContentItemView>>) -> Seq<sent::SentView> {
    if open is Some {
        seq![Ok(ResponseEventView::OutputItemDone(said(open->0)))]
    } else {
        seq![]
    }
}

/// The head of a message begins the response: it gives the id and the token counts.
pub proof fn law_the_head_begins_the_response(s: AnthropicState, message: StreamMessageStart)
    requires
        !s.finished,
    ensures
        ({
            let (after, out) = anthropic_stream::step(
                s,
                AnthropicInput::Event(StreamEvent::MessageStart { message }),
            );
            &&& out == seq![Ok::<ResponseEventView, CodexErrView>(ResponseEventView::Created)]
            &&& after.response_id == message.id@
            &&& after.input_tokens == message.usage.input_tokens
            &&& after.output_tokens == message.usage.output_tokens
            &&& message.usage.cache_read_input_tokens is Some ==> after.cached_input_tokens
                == message.usage.cache_read_input_tokens->0
            &&& message.usage.cache_read_input_tokens is None ==> after.cached_input_tokens == 0
            &&& after.blocks == s.blocks
            &&& after.open_message == s.open_message
            &&& !after.finished
        }),
{
}

/// The beginning of a block opens it, empty but for the name and the id of a tool. The first block
/// of text announces a message, unless one is open. Nothing else changes.
pub proof fn law_the_beginning_of_a_block(
    s: AnthropicState,
    index: usize,
    content_block: ContentBlock,
)
    requires
        !s.finished,
    ensures
        ({
            let (after, out) = anthropic_stream::step(
                s,
                AnthropicInput::Event(StreamEvent::ContentBlockStart { index, content_block }),
            );
            let announces = content_block is Text && s.open_message is None;
            &&& after.blocks.contains_key(index)
            &&& after.blocks[index].text.len() == 0
            &&& after.blocks[index].tool_args.len() == 0
            &&& match content_block {
                ContentBlock::Text { .. } => after.blocks[index].kind == BlockKind::Text,
                ContentBlock::ToolUse { id, name, .. } => {
                    &&& after.blocks[index].kind == BlockKind::ToolUse
                    &&& after.blocks[index].tool_id == id@
                    &&& after.blocks[index].tool_name == name@
                },
                ContentBlock::Thinking { .. } => after.blocks[index].kind == BlockKind::Thinking,
            }
            &&& announces ==> out == seq![
                Ok::<ResponseEventView, CodexErrView>(
                    ResponseEventView::OutputItemAdded(said(seq![])),
                ),
            ]
            &&& announces ==> after.open_message == Some(Seq::<ContentItemView>::empty())
            &&& !announces ==> out.len() == 0 && after.open_message == s.open_message
            &&& after == AnthropicState {
                blocks: s.blocks.insert(index, after.blocks[index]),
                open_message: after.open_message,
                ..s
            }
        }),
{
    let after = anthropic_stream::step(
        s,
        AnthropicInput::Event(StreamEvent::ContentBlockStart { index, content_block }),
    ).0;
    assert(after.blocks =~= s.blocks.insert(index, after.blocks[index]));
}

/// More of a block goes behind what the block holds: text and reasoning behind its text, and
/// arguments behind its arguments. Text and reasoning are sent as they come; text goes into the
/// open message too. Nothing else changes.
pub proof fn law_more_of_a_block(s: AnthropicState, index: usize, delta: ContentBlockDelta)
    requires
        !s.finished,
        s.blocks.contains_key(index),
    ensures
        ({
            let (after, out) = anthropic_stream::step(
                s,
                AnthropicInput::Event(StreamEvent::ContentBlockDelta { index, delta }),
            );
            let had = s.blocks[index];
            let has = after.blocks[index];
            &&& after.blocks == s.blocks.insert(index, has)
            &&& has.kind == had.kind && has.tool_name == had.tool_name && has.tool_id
                == had.tool_id
            &&& after == AnthropicState {
                blocks: after.blocks,
                open_message: after.open_message,
                ..s
            }
            &&& match delta {
                ContentBlockDelta::TextDelta { text } => {
                    &&& out == seq![
                        Ok::<ResponseEventView, CodexErrView>(
                            ResponseEventView::OutputTextDelta(text@),
                        ),
                    ]
                    &&& has.text == had.text + text@ && has.tool_args == had.tool_args
                    &&& s.open_message is None ==> after.open_message is None
                    &&& s.open_message is Some ==> after.open_message == Some(
                        s.open_message->0.push(ContentItemView::OutputText { text: text@ }),
                    )
                },
                ContentBlockDelta::ThinkingDelta { thinking } => {
                    &&& out == seq![
                        Ok::<ResponseEventView, CodexErrView>(
                            ResponseEventView::ReasoningContentDelta {
                                delta: thinking@,
                                content_index: 0,
                            },
                        ),
                    ]
                    &&& has.text == had.text + thinking@ && has.tool_args == had.tool_args
                    &&& after.open_message == s.open_message
                },
                ContentBlockDelta::InputJsonDelta { partial_json } => {
                    &&& out.len() == 0
                    &&& has.tool_args == had.tool_args + partial_json@ && has.text == had.text
                    &&& after.open_message == s.open_message
                },
                ContentBlockDelta::SignatureDelta { .. } => {
                    &&& out.len() == 0
                    &&& has.tool_args == had.tool_args && has.text == had.text
                    &&& after.open_message == s.open_message
                },
            }
        }),
{
}

/// The end of a block closes it. A tool call ends the open message, if there is one, and is then
/// announced and finished with the name, the id and the arguments of its block. Reasoning is
/// finished with the text of its block, unless that is empty. Nothing else changes.
pub proof fn law_the_end_of_a_block(s: AnthropicState, index: usize)
    requires
        !s.finished,
        s.blocks.contains_key(index),
    ensures
        ({
            let (after, out) = anthropic_stream::step(
                s,
                AnthropicInput::Event(StreamEvent::ContentBlockStop { index }),
            );
            let b = s.blocks[index];
            &&& after == AnthropicState {
                blocks: s.blocks.remove(index),
                open_message: after.open_message,
                ..s
            }
            &&& match b.kind {
                BlockKind::Text => out.len() == 0 && after.open_message == s.open_message,
                BlockKind::ToolUse => {
                    let call = ResponseItemView::FunctionCall {
                        id: None,
                        name: b.tool_name,
                        namespace: None,
                        arguments: b.tool_args,
                        call_id: b.tool_id,
                    };
                    &&& after.open_message is None
                    &&& out == message_end(s.open_message) + seq![
                        Ok::<ResponseEventView, CodexErrView>(
                            ResponseEventView::OutputItemAdded(call),
                        ),
                        Ok::<ResponseEventView, CodexErrView>(
                            ResponseEventView::OutputItemDone(call),
                        ),
                    ]
                },
                BlockKind::Thinking => {
                    &&& after.open_message == s.open_message
                    &&& b.text.len() == 0 ==> out.len() == 0
                    &&& b.text.len() > 0 ==> out == seq![
                        Ok::<ResponseEventView, CodexErrView>(
                            ResponseEventView::OutputItemDone(
                                ResponseItemView::Reasoning {
                                    id: seq![],
                                    summary: seq![],
                                    content: Some(seq![b.text]),
                                    encrypted_content: None,
                                },
                            ),
                        ),
                    ]
                },
            }
        }),
{
    let out = anthropic_stream::step(
        s,
        AnthropicInput::Event(StreamEvent::ContentBlockStop { index }),
    ).1;
    assert(sent::message_done(s.open_message) =~= message_end(s.open_message));
}

/// A change of the message counts the tokens, and where it gives a reason to stop it ends the
/// open message, if there is one. Nothing else changes.
pub proof fn law_a_change_of_the_message(
    s: AnthropicState,
    delta: MessageDelta,
    usage: MessageDeltaUsage,
)
    requires
        !s.finished,
    ensures
        ({
            let (after, out) = anthropic_stream::step(
                s,
                AnthropicInput::Event(StreamEvent::MessageDelta { delta, usage }),
            );
            &&& after == AnthropicState {
                output_tokens: usage.output_tokens,
                open_message: after.open_message,
                ..s
            }
            &&& delta.stop_reason is Some ==> after.open_message is None && out == message_end(
                s.open_message,
            )
            &&& delta.stop_reason is None ==> after.open_message == s.open_message && out.len()
                == 0
        }),
{
    assert(sent::message_done(s.open_message) =~= message_end(s.open_message));
}

/// The response ends with its id and its token counts, of which the total is the sum: at the end
/// of the message, and at the end of the stream.
pub proof fn law_the_end_of_the_response(s: AnthropicState, input: AnthropicInput)
    requires
        !s.finished,
        input is Closed || input == AnthropicInput::Event(StreamEvent::MessageStop),
    ensures
        ({
            let (after, out) = anthropic_stream::step(s, input);
            &&& after.finished
            &&& out.len() == 1
            &&& out[0] matches Ok(ResponseEventView::Completed { response_id, token_usage }) && {
                &&& response_id == s.response_id
                &&& token_usage is Some
                &&& token_usage->0.input_tokens == s.input_tokens
                &&& token_usage->0.output_tokens == s.output_tokens
                &&& token_usage->0.cached_input_tokens == s.cached_input_tokens
                &&& token_usage->0.reasoning_output_tokens == 0
                &&& token_usage->0.total_tokens == s.input_tokens + s.output_tokens
            }
        }),
{
}

/// A failure ends the response with an error that tells of it: one of the provider with its own
/// words and its name, one of the transport with its own words, silence for too long as a timeout.
pub proof fn law_a_failure_ends_the_response(
    s: AnthropicState,
    error: StreamError,
    message: String,
)
    requires
        !s.finished,
    ensures
        ({
            let (after, out) = anthropic_stream::step(
                s,
                AnthropicInput::Event(StreamEvent::Error { error }),
            );
            &&& after.finished
            &&& out == seq![
                Err::<ResponseEventView, CodexErrView>(
                    CodexErrView::Stream("Anthropic error: "@ + error.message@),
                ),
            ]
        }),
        ({
            let (after, out) = anthropic_stream::step(s, AnthropicInput::Broken(message));
            &&& after.finished
            &&& out == seq![
                Err::<ResponseEventView, CodexErrView>(CodexErrView::Stream(message@)),
            ]
        }),
        ({
            let (after, out) = anthropic_stream::step(s, AnthropicInput::IdleTimeout);
            &&& after.finished
            &&& out == seq![
                Err::<ResponseEventView, CodexErrView>(
                    CodexErrView::Stream("idle timeout waiting for Anthropic SSE"@),
                ),
            ]
        }),
{
}

/// What is passed over: everything once the response has ended, what is not understood, a ping,
/// and what is told of a block that is not open.
pub proof fn law_what_is_passed_over(s: AnthropicState, input: AnthropicInput)
    requires
        ({
            ||| s.finished
            ||| input is Unreadable
            ||| input == AnthropicInput::Event(StreamEvent::Ping)
            ||| (input matches AnthropicInput::Event(
                StreamEvent::ContentBlockDelta { index, .. },
            ) && !s.blocks.contains_key(index))
            ||| (input matches AnthropicInput::Event(
                StreamEvent::ContentBlockStop { index },
            ) && !s.blocks.contains_key(index))
        }),
    ensures
        anthropic_stream::step(s, input) == (s, Seq::<sent::SentView>::empty()),
{
}

/// Nothing is known at the beginning.
pub proof fn law_nothing_is_known_at_the_beginning(index: usize)
    ensures
        ({
            let s = anthropic_stream::anthropic_start();
            &&& !s.blocks.contains_key(index)
            &&& s.response_id.len() == 0
            &&& s.open_message is None
            &&& s.input_tokens == 0
            &&& s.output_tokens == 0
            &&& s.cached_input_tokens == 0
            &&& !s.finished
        }),
{
}

/// What is known of a processor is what it holds.
pub proof fn law_a_processor_is_told_as_it_is(stream: AnthropicStream)
    ensures
        forall|k: usize| #[trigger]
            stream@.blocks.contains_key(k) <==> stream.blocks@.contains_key(k),
        forall|k: usize|
            stream.blocks@.contains_key(k) ==> {
                let b = stream.blocks@[k];
                &&& (#[trigger] stream@.blocks[k]).kind == b.kind
                &&& stream@.blocks[k].text == b.text@
                &&& stream@.blocks[k].tool_name == b.tool_name@
                &&& stream@.blocks[k].tool_id == b.tool_id@
                &&& stream@.blocks[k].tool_args == b.tool_args@
            },
        stream@.response_id == stream.response_id@,
        stream@.open_message is Some <==> stream.open_message is Some,
        stream.open_message is Some ==> stream@.open_message->0.len()
            == stream.open_message->0@.len(),
        stream@.input_tokens == stream.input_tokens,
        stream@.output_tokens == stream.output_tokens,
        stream@.cached_input_tokens == stream.cached_input_tokens,
        stream@.finished == stream.finished,
{
}

} // verus!
