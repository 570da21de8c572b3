//! What holds of everything that is sent for an Anthropic stream.

use crate::anthropic_stream;
use crate::anthropic_stream::{AnthropicInput, AnthropicState};
use crate::anthropic_types::{ContentBlock, ContentBlockDelta, StreamEvent};
use crate::error::CodexErrView;
use crate::models::ResponseEventView;
use crate::sent;
use vstd::prelude::*;

verus! {

/// The state after a run of inputs, and all that was sent.
pub open spec fn run(s: AnthropicState, inputs: Seq<AnthropicInput>) -> (
    AnthropicState,
    Seq<sent::SentView>,
)
    decreases inputs.len(),
{
    if inputs.len() == 0 {
        (s, seq![])
    } else {
        let (mid, out) = run(s, inputs.drop_last());
        let (end, more) = anthropic_stream::step(mid, inputs.last());
        (end, out + more)
    }
}

/// Every finished function call was announced right before.
pub open spec fn calls_announced(out: Seq<sent::SentView>) -> bool {
    forall|i: int|
        0 <= i < out.len() ==> match #[trigger] out[i] {
            Ok(ResponseEventView::OutputItemDone(item)) => item is FunctionCall ==> i > 0 && out[i
                - 1] == Ok::<ResponseEventView, CodexErrView>(
                ResponseEventView::OutputItemAdded(item),
            ),
            _ => true,
        }
}

/// What a step sends keeps the record of the open message.
proof fn lemma_step_keeps_record(s: AnthropicState, input: AnthropicInput, out: Seq<sent::SentView>)
    requires
        s.open_message == sent::streamed_text(out),
        sent::messages_hold_streamed_text(out),
    ensures
        anthropic_stream::step(s, input).0.open_message == sent::streamed_text(
            out + anthropic_stream::step(s, input).1,
        ),
        sent::messages_hold_streamed_text(out + anthropic_stream::step(s, input).1),
{
    let more = anthropic_stream::step(s, input).1;
    if more.len() == 0 {
        assert(out + more =~= out);
    } else if more.len() == 1 {
        assert(out + more =~= out.push(more[0]));
        sent::lemma_streamed_text_push(out, more[0]);
        sent::lemma_holds_push(out, more[0]);
    } else {
        let first = out.push(more[0]);
        let second = first.push(more[1]);
        sent::lemma_streamed_text_push(out, more[0]);
        sent::lemma_holds_push(out, more[0]);
        sent::lemma_streamed_text_push(first, more[1]);
        sent::lemma_holds_push(first, more[1]);
        if more.len() == 2 {
            assert(out + more =~= second);
        } else {
            sent::lemma_streamed_text_push(second, more[2]);
            sent::lemma_holds_push(second, more[2]);
            assert(out + more =~= second.push(more[2]));
        }
    }
}

/// A message is announced only when none is open, and finished only when one is; and what is
/// finished is the text that was streamed since it was announced.
pub proof fn law_messages_hold_what_was_streamed(inputs: Seq<AnthropicInput>)
    ensures
        sent::messages_hold_streamed_text(run(anthropic_stream::anthropic_start(), inputs).1),
        sent::messages_are_what_was_streamed(run(anthropic_stream::anthropic_start(), inputs).1),
        run(anthropic_stream::anthropic_start(), inputs).0.open_message == sent::streamed_text(
            run(anthropic_stream::anthropic_start(), inputs).1,
        ),
    decreases inputs.len(),
{
    let start = anthropic_stream::anthropic_start();
    if inputs.len() > 0 {
        law_messages_hold_what_was_streamed(inputs.drop_last());
        let (mid, out) = run(start, inputs.drop_last());
        lemma_step_keeps_record(mid, inputs.last(), out);
    }
    sent::lemma_messages_are_what_was_streamed(run(start, inputs).1);
}

/// Every function call is announced, and finished right behind its announcement.
pub proof fn law_calls_are_announced(inputs: Seq<AnthropicInput>)
    ensures
        calls_announced(run(anthropic_stream::anthropic_start(), inputs).1),
    decreases inputs.len(),
{
    let start = anthropic_stream::anthropic_start();
    if inputs.len() > 0 {
        law_calls_are_announced(inputs.drop_last());
        let (mid, out) = run(start, inputs.drop_last());
        let more = anthropic_stream::step(mid, inputs.last()).1;
        let all = out + more;
        assert forall|i: int| 0 <= i < all.len() implies match #[trigger] all[i] {
            Ok(ResponseEventView::OutputItemDone(item)) => item is FunctionCall ==> i > 0 && all[i
                - 1] == Ok::<ResponseEventView, CodexErrView>(
                ResponseEventView::OutputItemAdded(item),
            ),
            _ => true,
        } by {
            if i < out.len() {
                assert(all[i] == out[i]);
                if i > 0 {
                    assert(all[i - 1] == out[i - 1]);
                }
            } else {
                let k = i - out.len();
                assert(all[i] == more[k]);
                if k > 0 {
                    assert(all[i - 1] == more[k - 1]);
                }
            }
        }
    }
}

/// A response ends once: `Completed` or an error is the last thing that is sent, and it has been
/// sent if and only if the processing is over.
pub proof fn law_a_response_ends_once(inputs: Seq<AnthropicInput>)
    ensures
        ({
            let (s, out) = run(anthropic_stream::anthropic_start(), inputs);
            &&& s.finished <==> out.len() > 0 && sent::ending(out.last())
            &&& forall|i: int| 0 <= i < out.len() - 1 ==> !sent::ending(#[trigger] out[i])
        }),
    decreases inputs.len(),
{
    let start = anthropic_stream::anthropic_start();
    if inputs.len() > 0 {
        law_a_response_ends_once(inputs.drop_last());
        let (mid, out) = run(start, inputs.drop_last());
        let (end, more) = anthropic_stream::step(mid, inputs.last());
        let all = out + more;
        if mid.finished {
            assert(all =~= out);
        } else {
            assert forall|i: int| 0 <= i < all.len() - 1 implies !sent::ending(
                #[trigger] all[i],
            ) by {
                if i < out.len() {
                    assert(all[i] == out[i]);
                    if i == out.len() - 1 {
                        assert(out[i] == out.last());
                    }
                } else {
                    assert(all[i] == more[i - out.len()]);
                }
            }
            if more.len() > 0 {
                assert(all.last() == more.last());
            } else {
                assert(all =~= out);
            }
        }
    }
}

/// After the end nothing is sent and nothing changes.
pub proof fn law_nothing_after_the_end(s: AnthropicState, inputs: Seq<AnthropicInput>)
    requires
        s.finished,
    ensures
        run(s, inputs) == (s, Seq::<sent::SentView>::empty()),
    decreases inputs.len(),
{
    if inputs.len() > 0 {
        law_nothing_after_the_end(s, inputs.drop_last());
        assert(run(s, inputs).1 =~= seq![]);
    }
}

/// The total is the sum of the tokens in and out.
pub proof fn law_total_is_the_sum(s: AnthropicState)
    ensures
        anthropic_stream::completed(s) matches Ok(
            ResponseEventView::Completed { token_usage: Some(usage), .. },
        ) && usage.total_tokens == usage.input_tokens + usage.output_tokens
            && usage.input_tokens == s.input_tokens && usage.output_tokens == s.output_tokens,
{
}

/// The input begins or ends the block at `index`.
pub open spec fn bounds_block(input: AnthropicInput, index: usize) -> bool {
    match input {
        AnthropicInput::Event(StreamEvent::ContentBlockStart { index: i, .. }) => i == index,
        AnthropicInput::Event(StreamEvent::ContentBlockStop { index: i }) => i == index,
        _ => false,
    }
}

/// The arguments that an input adds to the block at `index`.
pub open spec fn argument_piece(input: AnthropicInput, index: usize) -> Seq<char> {
    match input {
        AnthropicInput::Event(
            StreamEvent::ContentBlockDelta {
                index: i,
                delta: ContentBlockDelta::InputJsonDelta { partial_json },
            },
        ) => if i == index {
            partial_json@
        } else {
            seq![]
        },
        _ => seq![],
    }
}

/// The text that an input adds to the block at `index`.
pub open spec fn text_piece(input: AnthropicInput, index: usize) -> Seq<char> {
    match input {
        AnthropicInput::Event(StreamEvent::ContentBlockDelta { index: i, delta }) => if i
            == index {
            match delta {
                ContentBlockDelta::TextDelta { text } => text@,
                ContentBlockDelta::ThinkingDelta { thinking } => thinking@,
                _ => seq![],
            }
        } else {
            seq![]
        },
        _ => seq![],
    }
}

/// The arguments that the inputs add to the block at `index`, put together.
pub open spec fn arguments_for(inputs: Seq<AnthropicInput>, index: usize) -> Seq<char>
    decreases inputs.len(),
{
    if inputs.len() == 0 {
        seq![]
    } else {
        arguments_for(inputs.drop_last(), index) + argument_piece(inputs.last(), index)
    }
}

/// The text that the inputs add to the block at `index`, put together.
pub open spec fn text_for(inputs: Seq<AnthropicInput>, index: usize) -> Seq<char>
    decreases inputs.len(),
{
    if inputs.len() == 0 {
        seq![]
    } else {
        text_for(inputs.drop_last(), index) + text_piece(inputs.last(), index)
    }
}

/// A block takes in what is meant for it, whatever happens to other blocks in between.
pub proof fn law_blocks_take_in_their_pieces(
    s: AnthropicState,
    inputs: Seq<AnthropicInput>,
    index: usize,
)
    requires
        s.blocks.contains_key(index),
        !run(s, inputs).0.finished,
        forall|i: int| 0 <= i < inputs.len() ==> !bounds_block(#[trigger] inputs[i], index),
    ensures
        ({
            let end = run(s, inputs).0;
            &&& end.blocks.contains_key(index)
            &&& end.blocks[index].kind == s.blocks[index].kind
            &&& end.blocks[index].tool_name == s.blocks[index].tool_name
            &&& end.blocks[index].tool_id == s.blocks[index].tool_id
            &&& end.blocks[index].tool_args == s.blocks[index].tool_args + arguments_for(
                inputs,
                index,
            )
            &&& end.blocks[index].text == s.blocks[index].text + text_for(inputs, index)
        }),
    decreases inputs.len(),
{
    if inputs.len() == 0 {
        assert(s.blocks[index].tool_args + arguments_for(inputs, index)
            =~= s.blocks[index].tool_args);
        assert(s.blocks[index].text + text_for(inputs, index) =~= s.blocks[index].text);
    } else {
        let front = inputs.drop_last();
        let mid = run(s, front).0;
        let end = run(s, inputs).0;
        assert forall|i: int| 0 <= i < front.len() implies !bounds_block(
            #[trigger] front[i],
            index,
        ) by {
            assert(front[i] == inputs[i]);
        }
        assert(!bounds_block(inputs[inputs.len() - 1], index));
        law_blocks_take_in_their_pieces(s, front, index);
        assert(end.blocks[index].tool_args =~= mid.blocks[index].tool_args + argument_piece(
            inputs.last(),
            index,
        ));
        assert(end.blocks[index].text =~= mid.blocks[index].text + text_piece(
            inputs.last(),
            index,
        ));
        assert(end.blocks[index].tool_args =~= s.blocks[index].tool_args + arguments_for(
            inputs,
            index,
        ));
        assert(end.blocks[index].text =~= s.blocks[index].text + text_for(inputs, index));
    }
}

/// A tool call is put together from its pieces: the name and the id that its block began with,
/// and the arguments in the order in which they came. It is sent when its block ends.
pub proof fn law_tool_calls_are_assembled(
    s: AnthropicState,
    index: usize,
    content_block: ContentBlock,
    between: Seq<AnthropicInput>,
)
    requires
        !s.finished,
        content_block is ToolUse,
        forall|i: int| 0 <= i < between.len() ==> !bounds_block(#[trigger] between[i], index),
        ({
            let begun = anthropic_stream::event_step(
                s,
                StreamEvent::ContentBlockStart { index, content_block },
            ).0;
            !run(begun, between).0.finished
        }),
    ensures
        ({
            let begun = anthropic_stream::event_step(
                s,
                StreamEvent::ContentBlockStart { index, content_block },
            ).0;
            let mid = run(begun, between).0;
            let call = sent::function_call_item(
                content_block->ToolUse_name@,
                arguments_for(between, index),
                content_block->ToolUse_id@,
            );
            anthropic_stream::event_step(mid, StreamEvent::ContentBlockStop { index }).1
                == sent::message_done(mid.open_message) + seq![
                Ok::<ResponseEventView, CodexErrView>(ResponseEventView::OutputItemAdded(call)),
                Ok(ResponseEventView::OutputItemDone(call)),
            ]
        }),
{
    let begun = anthropic_stream::event_step(
        s,
        StreamEvent::ContentBlockStart { index, content_block },
    ).0;
    law_blocks_take_in_their_pieces(begun, between, index);
    let mid = run(begun, between).0;
    assert(mid.blocks[index].tool_args =~= arguments_for(between, index));
}

/// A piece of reasoning is put together from its pieces, and sent when its block ends, unless it
/// is empty.
pub proof fn law_reasoning_is_assembled(
    s: AnthropicState,
    index: usize,
    content_block: ContentBlock,
    between: Seq<AnthropicInput>,
)
    requires
        !s.finished,
        content_block is Thinking,
        forall|i: int| 0 <= i < between.len() ==> !bounds_block(#[trigger] between[i], index),
        ({
            let begun = anthropic_stream::event_step(
                s,
                StreamEvent::ContentBlockStart { index, content_block },
            ).0;
            !run(begun, between).0.finished
        }),
    ensures
        ({
            let begun = anthropic_stream::event_step(
                s,
                StreamEvent::ContentBlockStart { index, content_block },
            ).0;
            let mid = run(begun, between).0;
            anthropic_stream::event_step(mid, StreamEvent::ContentBlockStop { index }).1
                == anthropic_stream::reasoning_done(text_for(between, index))
        }),
{
    let begun = anthropic_stream::event_step(
        s,
        StreamEvent::ContentBlockStart { index, content_block },
    ).0;
    law_blocks_take_in_their_pieces(begun, between, index);
    let mid = run(begun, between).0;
    assert(mid.blocks[index].text =~= text_for(between, index));
}

} // verus!
