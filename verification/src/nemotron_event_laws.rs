//! What each thing that happens on a Nemotron stream leads to, stated on what happened and on what
//! was sent.

use crate::error::CodexErrView;
use crate::models::{ContentItemView, ResponseEventView, ResponseItemView, TokenUsage};
use crate::nemotron_stream;
use crate::nemotron_stream::{NemotronInput, NemotronState, NemotronStream, ToolCallView};
use crate::nemotron_stream_laws;
use crate::nemotron_types::{ChatCompletionChunk, ChunkChoice, ChunkToolCall};
use crate::sent;
use crate::text;
use crate::text_laws;
use crate::think;
use crate::think::ParsedDeltaView;
use vstd::prelude::*;

verus! {

/// Sorted text, sent piece by piece as what it is.
pub open spec fn told(deltas: Seq<ParsedDeltaView>) -> Seq<sent::SentView> {
    Seq::new(
        deltas.len(),
        |i: int|
            match deltas[i] {
                ParsedDeltaView::Text(t) => Ok(ResponseEventView::OutputTextDelta(t)),
                ParsedDeltaView::Thinking(t) => Ok(
                    ResponseEventView::ReasoningContentDelta { delta: t, content_index: 0 },
                ),
            },
    )
}

/// A message of the assistant.
pub open spec fn said(content: Seq<ContentItemView>) -> ResponseItemView {
    ResponseItemView::Message {
        id: None,
        role: "assistant"@,
        content,
        end_turn: None,
        phase: None,
    }
}

/// The end of the message that is open, if any, with `more` behind what it holds.
pub open spec fn message_end(open: Option<Seq<ContentItemView>>, more: Seq<ContentItemView>) -> Seq<
    sent::SentView,
> {
    if open is Some {
        seq![Ok(ResponseEventView::OutputItemDone(said(open->0 + more)))]
    } else {
        seq![]
    }
}

/// The function calls that are finished among the sendings, in order.
pub open spec fn finished_calls(out: Seq<sent::SentView>) -> Seq<ResponseItemView>
    decreases out.len(),
{
    if out.len() == 0 {
        seq![]
    } else {
        let before = finished_calls(out.drop_last());
        match out.last() {
            Ok(ResponseEventView::OutputItemDone(item)) => if item is FunctionCall {
                before.push(item)
            } else {
                before
            },
            _ => before,
        }
    }
}

/// The `k`-th of the finished calls is the `k`-th of the calls that were pending, with its own
/// name, arguments and id; and there are no others.
pub open spec fn each_call_is_finished(
    pending: Seq<(usize, ToolCallView)>,
    finished: Seq<ResponseItemView>,
) -> bool {
    &&& finished.len() == pending.len()
    &&& forall|k: int|
        0 <= k < pending.len() ==> #[trigger] finished[k] == (ResponseItemView::FunctionCall {
            id: None,
            name: pending[k].1.name,
            namespace: None,
            arguments: pending[k].1.arguments,
            call_id: pending[k].1.id,
        })
}

/// The beginning of the response, unless it has been sent.
pub open spec fn beginning(s: NemotronState) -> Seq<sent::SentView> {
    if s.created_sent {
        seq![]
    } else {
        seq![Ok(ResponseEventView::Created)]
    }
}

/// The state that knows what a chunk says of the response as a whole: its id, unless one is known,
/// and the token counts, if the chunk has them.
pub open spec fn informed(s: NemotronState, chunk: ChatCompletionChunk) -> NemotronState {
    NemotronState {
        response_id: if s.response_id == Seq::<char>::empty() {
            chunk.id@
        } else {
            s.response_id
        },
        created_sent: true,
        input_tokens: if chunk.usage is Some {
            chunk.usage->0.prompt_tokens
        } else {
            s.input_tokens
        },
        output_tokens: if chunk.usage is Some {
            chunk.usage->0.completion_tokens
        } else {
            s.output_tokens
        },
        ..s
    }
}

/// The chunk has one choice, which holds a text and nothing else.
pub open spec fn only_says(chunk: ChatCompletionChunk, t: Seq<char>) -> bool {
    &&& chunk.choices@.len() == 1
    &&& chunk.choices@[0].delta.content is Some
    &&& chunk.choices@[0].delta.content->0@ == t
    &&& chunk.choices@[0].delta.tool_calls is None
    &&& chunk.choices@[0].finish_reason is None
}

/// The chunk has one choice, which holds a piece of a tool call and nothing else.
pub open spec fn only_calls(chunk: ChatCompletionChunk, piece: ChunkToolCall) -> bool {
    &&& chunk.choices@.len() == 1
    &&& chunk.choices@[0].delta.content is None
    &&& chunk.choices@[0].delta.tool_calls is Some
    &&& chunk.choices@[0].delta.tool_calls->0@ == seq![piece]
    &&& chunk.choices@[0].finish_reason is None
}

/// The chunk has one choice, which holds a finish reason and nothing else.
pub open spec fn only_finishes(chunk: ChatCompletionChunk, reason: Seq<char>) -> bool {
    &&& chunk.choices@.len() == 1
    &&& chunk.choices@[0].delta.content is None
    &&& chunk.choices@[0].delta.tool_calls is None
    &&& chunk.choices@[0].finish_reason is Some
    &&& chunk.choices@[0].finish_reason->0@ == reason
}

proof fn lemma_after_deltas(open: Option<Seq<ContentItemView>>, deltas: Seq<ParsedDeltaView>)
    ensures
        open is None ==> nemotron_stream::after_deltas(open, deltas) is None,
        open is Some ==> nemotron_stream::after_deltas(open, deltas) == Some(
            open->0 + nemotron_stream_laws::text_items(deltas),
        ),
    decreases deltas.len(),
{
    if deltas.len() > 0 {
        lemma_after_deltas(open, deltas.drop_last());
        if open is Some {
            assert(nemotron_stream::after_deltas(open, deltas)->0 =~= open->0
                + nemotron_stream_laws::text_items(deltas));
        }
    } else if open is Some {
        assert(open->0 + nemotron_stream_laws::text_items(deltas) =~= open->0);
    }
}

proof fn lemma_told(deltas: Seq<ParsedDeltaView>)
    ensures
        nemotron_stream::deltas_sent(deltas) == told(deltas),
{
    assert(nemotron_stream::deltas_sent(deltas) =~= told(deltas));
}

proof fn lemma_finished_calls_concat(a: Seq<sent::SentView>, b: Seq<sent::SentView>)
    ensures
        finished_calls(a + b) == finished_calls(a) + finished_calls(b),
    decreases b.len(),
{
    if b.len() == 0 {
        assert(a + b =~= a);
        assert(finished_calls(a) + finished_calls(b) =~= finished_calls(a));
    } else {
        assert((a + b).drop_last() =~= a + b.drop_last());
        lemma_finished_calls_concat(a, b.drop_last());
        assert(finished_calls(a + b) =~= finished_calls(a) + finished_calls(b));
    }
}

proof fn lemma_no_finished_calls(out: Seq<sent::SentView>)
    requires
        forall|i: int|
            0 <= i < out.len() ==> !(#[trigger] out[i] matches Ok(
                ResponseEventView::OutputItemDone(item),
            ) && item is FunctionCall),
    ensures
        finished_calls(out).len() == 0,
    decreases out.len(),
{
    if out.len() > 0 {
        let front = out.drop_last();
        assert forall|i: int| 0 <= i < front.len() implies !(#[trigger] front[i] matches Ok(
            ResponseEventView::OutputItemDone(item),
        ) && item is FunctionCall) by {
            assert(front[i] == out[i]);
        }
        lemma_no_finished_calls(front);
        assert(out.last() == out[out.len() - 1]);
    }
}

proof fn lemma_calls_sent(calls: Seq<(usize, ToolCallView)>)
    ensures
        each_call_is_finished(calls, finished_calls(nemotron_stream::calls_sent(calls))),
    decreases calls.len(),
{
    let out = nemotron_stream::calls_sent(calls);
    if calls.len() > 0 {
        let front = calls.drop_last();
        assert(out.drop_last() =~= nemotron_stream::calls_sent(front));
        lemma_calls_sent(front);
        let before = finished_calls(nemotron_stream::calls_sent(front));
        let finished = finished_calls(out);
        assert forall|k: int| 0 <= k < calls.len() implies #[trigger] finished[k] == (
        ResponseItemView::FunctionCall {
            id: None,
            name: calls[k].1.name,
            namespace: None,
            arguments: calls[k].1.arguments,
            call_id: calls[k].1.id,
        }) by {
            if k < front.len() {
                assert(finished[k] == before[k]);
                assert(front[k] == calls[k]);
            }
        }
    }
}

proof fn lemma_calls_step(s: NemotronState)
    ensures
        each_call_is_finished(
            s.tool_calls,
            finished_calls(nemotron_stream::calls_step(s).1),
        ),
{
    let done = sent::message_done(s.open_message);
    let calls = nemotron_stream::calls_sent(s.tool_calls);
    lemma_calls_sent(s.tool_calls);
    lemma_no_finished_calls(done);
    lemma_finished_calls_concat(done, calls);
    assert(finished_calls(done) + finished_calls(calls) =~= finished_calls(calls));
}

proof fn lemma_one_choice(s: NemotronState, choices: Seq<ChunkChoice>)
    requires
        choices.len() == 1,
    ensures
        nemotron_stream::choices_step(s, choices) == nemotron_stream::choice_step(s, choices[0]),
{
    reveal_with_fuel(nemotron_stream::choices_step, 2);
    assert(choices.drop_last() =~= seq![]);
    let one = nemotron_stream::choice_step(s, choices[0]);
    assert(Seq::<sent::SentView>::empty() + one.1 =~= one.1);
}

proof fn lemma_informed(s: NemotronState, chunk: ChatCompletionChunk)
    ensures
        nemotron_stream::head_step(s, chunk) == (informed(s, chunk), beginning(s)),
{
    if s.response_id.len() == 0 {
        assert(s.response_id =~= Seq::<char>::empty());
    }
    assert(nemotron_stream::head_step(s, chunk).1 =~= beginning(s));
}

/// When the response is marked as complete, every pending call is finished, once and in order,
/// with its own name, arguments and id; nothing else is finished as a call, and no call is kept.
pub proof fn law_the_done_mark_finishes_every_pending_call(s: NemotronState)
    requires
        !s.finished,
    ensures
        ({
            let (after, out) = nemotron_stream::step(s, NemotronInput::Done);
            &&& each_call_is_finished(s.tool_calls, finished_calls(out))
            &&& after.tool_calls.len() == 0
        }),
{
    let flushed = nemotron_stream::flush_step(s);
    let calls = nemotron_stream::calls_step(flushed.0);
    let called = nemotron_stream::both(flushed, calls);
    let close = nemotron_stream::close_step(called.0);
    let closed = nemotron_stream::both(called, close);
    let end = nemotron_stream::complete_step(closed.0);
    lemma_calls_step(flushed.0);
    lemma_no_finished_calls(flushed.1);
    lemma_no_finished_calls(close.1);
    lemma_no_finished_calls(end.1);
    lemma_finished_calls_concat(flushed.1, calls.1);
    lemma_finished_calls_concat(called.1, close.1);
    lemma_finished_calls_concat(closed.1, end.1);
    assert(finished_calls(nemotron_stream::step(s, NemotronInput::Done).1) =~= finished_calls(
        calls.1,
    ));
}

/// When a choice is complete because of tool calls, every pending call is finished, once and in
/// order, with its own name, arguments and id, those among them of which the choice brings the
/// last pieces; nothing else is finished as a call, and no call is kept.
pub proof fn law_complete_tool_calls_are_all_finished(
    s: NemotronState,
    chunk: ChatCompletionChunk,
    before: ChatCompletionChunk,
)
    requires
        !s.finished,
        chunk.choices@.len() == 1,
        chunk.choices@[0].finish_reason is Some,
        chunk.choices@[0].finish_reason->0@ == "tool_calls"@,
        before.choices@.len() == 1,
        before.choices@[0].delta == chunk.choices@[0].delta,
        before.choices@[0].finish_reason is None,
        before.id == chunk.id,
        before.usage == chunk.usage,
    ensures
        ({
            let (after, out) = nemotron_stream::step(s, NemotronInput::Chunk(chunk));
            let pending = nemotron_stream::step(s, NemotronInput::Chunk(before)).0.tool_calls;
            &&& each_call_is_finished(pending, finished_calls(out))
            &&& after.tool_calls.len() == 0
        }),
{
    let head = nemotron_stream::head_step(s, chunk);
    let choice = chunk.choices@[0];
    lemma_informed(s, chunk);
    lemma_informed(s, before);
    lemma_one_choice(head.0, chunk.choices@);
    lemma_one_choice(head.0, before.choices@);
    let worded = nemotron_stream::worded_step(head.0, choice.delta.content);
    let called = nemotron_stream::choice_step(head.0, before.choices@[0]).0;
    let calls = nemotron_stream::calls_step(called);
    lemma_calls_step(called);
    lemma_no_finished_calls(head.1);
    lemma_no_finished_calls(worded.1);
    lemma_finished_calls_concat(worded.1, calls.1);
    lemma_finished_calls_concat(head.1, worded.1 + calls.1);
    assert(finished_calls(nemotron_stream::step(s, NemotronInput::Chunk(chunk)).1)
        =~= finished_calls(calls.1));
}

/// A text is sorted by the parser, and what comes out of it is sent piece by piece. A message is
/// announced, unless one is open, and takes in what is text.
pub proof fn law_a_text_is_sorted_and_sent(
    s: NemotronState,
    chunk: ChatCompletionChunk,
    t: Seq<char>,
)
    requires
        !s.finished,
        only_says(chunk, t),
    ensures
        ({
            let (after, out) = nemotron_stream::step(s, NemotronInput::Chunk(chunk));
            let (deltas, think) = think::fed(s.think, t);
            let announced: Seq<sent::SentView> = if s.open_message is Some {
                seq![]
            } else {
                seq![Ok(ResponseEventView::OutputItemAdded(said(seq![])))]
            };
            let held = if s.open_message is Some {
                s.open_message->0
            } else {
                seq![]
            };
            &&& out == beginning(s) + announced + told(deltas)
            &&& after == NemotronState {
                open_message: Some(held + nemotron_stream_laws::text_items(deltas)),
                think,
                ..informed(s, chunk)
            }
        }),
{
    lemma_informed(s, chunk);
    lemma_one_choice(informed(s, chunk), chunk.choices@);
    let deltas = think::fed(s.think, t).0;
    lemma_told(deltas);
    let held = if s.open_message is Some {
        s.open_message->0
    } else {
        seq![]
    };
    lemma_after_deltas(Some(held), deltas);
    let announced: Seq<sent::SentView> = if s.open_message is Some {
        seq![]
    } else {
        seq![Ok(ResponseEventView::OutputItemAdded(said(seq![])))]
    };
    assert(nemotron_stream::step(s, NemotronInput::Chunk(chunk)).1 =~= beginning(s) + announced
        + told(deltas));
}

/// The call that a piece makes of a call: the id and the name of the piece, where it has them,
/// and its arguments behind those that came before.
pub open spec fn grown(call: ToolCallView, piece: ChunkToolCall) -> ToolCallView {
    ToolCallView {
        id: if piece.id is Some {
            piece.id->0@
        } else {
            call.id
        },
        name: if piece.function is Some && piece.function->0.name is Some {
            piece.function->0.name->0@
        } else {
            call.name
        },
        arguments: if piece.function is Some && piece.function->0.arguments is Some {
            call.arguments + piece.function->0.arguments->0@
        } else {
            call.arguments
        },
    }
}

/// A piece of a tool call goes to the pending call of its index, and to no other; where there is
/// none it begins one, behind the others. Nothing is sent for it.
pub proof fn law_a_piece_of_a_call_goes_to_its_call(
    s: NemotronState,
    chunk: ChatCompletionChunk,
    piece: ChunkToolCall,
)
    requires
        !s.finished,
        only_calls(chunk, piece),
        nemotron_stream_laws::distinct_indexes(s.tool_calls),
    ensures
        ({
            let (after, out) = nemotron_stream::step(s, NemotronInput::Chunk(chunk));
            let calls = after.tool_calls;
            let known = exists|i: int|
                0 <= i < s.tool_calls.len() && (#[trigger] s.tool_calls[i]).0 == piece.index;
            &&& out == beginning(s)
            &&& after == NemotronState { tool_calls: calls, ..informed(s, chunk) }
            &&& calls.len() == s.tool_calls.len() + (if known {
                0int
            } else {
                1int
            })
            &&& forall|i: int|
                0 <= i < s.tool_calls.len() && s.tool_calls[i].0 != piece.index
                    ==> #[trigger] calls[i] == s.tool_calls[i]
            &&& forall|i: int|
                0 <= i < s.tool_calls.len() && s.tool_calls[i].0 == piece.index
                    ==> #[trigger] calls[i] == (piece.index, grown(s.tool_calls[i].1, piece))
            &&& !known ==> calls.last() == (
                piece.index,
                grown(
                    ToolCallView { id: seq![], name: seq![], arguments: seq![] },
                    piece,
                ),
            )
        }),
{
    lemma_informed(s, chunk);
    let head = informed(s, chunk);
    lemma_one_choice(head, chunk.choices@);
    reveal_with_fuel(nemotron_stream::with_call_pieces, 2);
    assert(seq![piece].drop_last() =~= seq![]);
    nemotron_stream_laws::lemma_call_position(s.tool_calls, piece.index);
    let (after, out) = nemotron_stream::step(s, NemotronInput::Chunk(chunk));
    assert(out =~= beginning(s));
    assert(after.tool_calls == nemotron_stream::with_call_piece(s.tool_calls, piece));
    match nemotron_stream::call_position(s.tool_calls, piece.index) {
        Some(p) => {
            assert(s.tool_calls[p].0 == piece.index);
            assert forall|i: int|
                0 <= i < s.tool_calls.len() && s.tool_calls[i].0
                    == piece.index implies #[trigger] after.tool_calls[i] == (
                piece.index,
                grown(s.tool_calls[i].1, piece),
            ) by {
                if i != p {
                    assert(s.tool_calls[i].0 != s.tool_calls[p].0);
                }
            }
        },
        None => {},
    }
}

/// A finish reason that tells of tool calls ends the open message, if there is one and a call is
/// pending; the calls follow, and are pending no more. Nothing else changes.
pub proof fn law_tool_calls_end_the_message(s: NemotronState, chunk: ChatCompletionChunk)
    requires
        !s.finished,
        only_finishes(chunk, "tool_calls"@),
    ensures
        ({
            let (after, out) = nemotron_stream::step(s, NemotronInput::Chunk(chunk));
            let none = s.tool_calls.len() == 0;
            &&& none ==> out == beginning(s) && after == informed(s, chunk)
            &&& !none ==> {
                let before = beginning(s) + message_end(s.open_message, seq![]);
                &&& out.len() == before.len() + s.tool_calls.len()
                &&& out.take(before.len() as int) == before
                &&& forall|k: int|
                    0 <= k < s.tool_calls.len() ==> #[trigger] out[before.len() + k] == Ok::<
                        ResponseEventView,
                        CodexErrView,
                    >(
                        ResponseEventView::OutputItemDone(
                            ResponseItemView::FunctionCall {
                                id: None,
                                name: s.tool_calls[k].1.name,
                                namespace: None,
                                arguments: s.tool_calls[k].1.arguments,
                                call_id: s.tool_calls[k].1.id,
                            },
                        ),
                    )
                &&& after == NemotronState {
                    open_message: None,
                    tool_calls: seq![],
                    ..informed(s, chunk)
                }
            }
        }),
{
    lemma_informed(s, chunk);
    let head = informed(s, chunk);
    lemma_one_choice(head, chunk.choices@);
    let (after, out) = nemotron_stream::step(s, NemotronInput::Chunk(chunk));
    if s.tool_calls.len() == 0 {
        assert(out =~= beginning(s));
    } else {
        if s.open_message is Some {
            assert(s.open_message->0 + Seq::<ContentItemView>::empty() =~= s.open_message->0);
        }
        let before = beginning(s) + message_end(s.open_message, seq![]);
        let calls = nemotron_stream::calls_sent(s.tool_calls);
        assert(sent::message_done(s.open_message) =~= message_end(s.open_message, seq![]));
        assert(out =~= before + calls);
        assert(out.take(before.len() as int) =~= before);
        assert forall|k: int| 0 <= k < s.tool_calls.len() implies #[trigger] out[before.len() + k]
            == calls[k] by {}
    }
}

/// A finish reason that tells of the end of the text, or of no room for more, has what the parser
/// holds back sent and the open message ended. Nothing else changes.
pub proof fn law_the_end_of_the_text_ends_the_message(
    s: NemotronState,
    chunk: ChatCompletionChunk,
    reason: Seq<char>,
)
    requires
        !s.finished,
        only_finishes(chunk, reason),
        reason == "stop"@ || reason == "length"@,
    ensures
        ({
            let (after, out) = nemotron_stream::step(s, NemotronInput::Chunk(chunk));
            let rest = think::flushed(s.think);
            &&& out == beginning(s) + told(rest) + message_end(
                s.open_message,
                nemotron_stream_laws::text_items(rest),
            )
            &&& after == NemotronState {
                open_message: None,
                think: think::emptied(s.think),
                ..informed(s, chunk)
            }
        }),
{
    lemma_informed(s, chunk);
    let head = informed(s, chunk);
    lemma_one_choice(head, chunk.choices@);
    let rest = think::flushed(s.think);
    lemma_told(rest);
    lemma_after_deltas(s.open_message, rest);
    nemotron_stream_laws::lemma_finish_reasons_differ();
    let (after, out) = nemotron_stream::step(s, NemotronInput::Chunk(chunk));
    assert(out =~= beginning(s) + told(rest) + message_end(
        s.open_message,
        nemotron_stream_laws::text_items(rest),
    ));
}

/// Any other finish reason changes nothing.
pub proof fn law_other_finish_reasons_change_nothing(
    s: NemotronState,
    chunk: ChatCompletionChunk,
    reason: Seq<char>,
)
    requires
        !s.finished,
        only_finishes(chunk, reason),
        reason != "tool_calls"@,
        reason != "stop"@,
        reason != "length"@,
    ensures
        nemotron_stream::step(s, NemotronInput::Chunk(chunk)) == (
            informed(s, chunk),
            beginning(s),
        ),
{
    lemma_informed(s, chunk);
    lemma_one_choice(informed(s, chunk), chunk.choices@);
    assert(nemotron_stream::step(s, NemotronInput::Chunk(chunk)).1 =~= beginning(s));
}

/// A chunk without a choice begins the response, unless it has begun, and tells of the response
/// as a whole. Nothing else changes.
pub proof fn law_an_empty_chunk_only_informs(s: NemotronState, chunk: ChatCompletionChunk)
    requires
        !s.finished,
        chunk.choices@.len() == 0,
    ensures
        nemotron_stream::step(s, NemotronInput::Chunk(chunk)) == (
            informed(s, chunk),
            beginning(s),
        ),
{
    lemma_informed(s, chunk);
    assert(nemotron_stream::step(s, NemotronInput::Chunk(chunk)).1 =~= beginning(s));
}

proof fn lemma_choices_keep_the_head(s: NemotronState, choices: Seq<ChunkChoice>)
    ensures
        ({
            let after = nemotron_stream::choices_step(s, choices).0;
            &&& after.response_id == s.response_id
            &&& after.created_sent == s.created_sent
            &&& after.input_tokens == s.input_tokens
            &&& after.output_tokens == s.output_tokens
            &&& after.finished == s.finished
        }),
    decreases choices.len(),
{
    if choices.len() > 0 {
        lemma_choices_keep_the_head(s, choices.drop_last());
    }
}

proof fn lemma_choices_concat(s: NemotronState, a: Seq<ChunkChoice>, b: Seq<ChunkChoice>)
    ensures
        ({
            let first = nemotron_stream::choices_step(s, a);
            let second = nemotron_stream::choices_step(first.0, b);
            nemotron_stream::choices_step(s, a + b) == (second.0, first.1 + second.1)
        }),
    decreases b.len(),
{
    let first = nemotron_stream::choices_step(s, a);
    let second = nemotron_stream::choices_step(first.0, b);
    if b.len() == 0 {
        assert(a + b =~= a);
        assert(first.1 + second.1 =~= first.1);
    } else {
        lemma_choices_concat(s, a, b.drop_last());
        assert((a + b).drop_last() =~= a + b.drop_last());
        assert((a + b).last() == b.last());
        assert(nemotron_stream::choices_step(s, a + b).1 =~= first.1 + second.1);
    }
}

/// The choices of a chunk count one after the other: it is all the same whether they come in one
/// chunk or in two.
pub proof fn law_choices_count_one_after_the_other(
    s: NemotronState,
    whole: ChatCompletionChunk,
    first: ChatCompletionChunk,
    rest: ChatCompletionChunk,
)
    requires
        !s.finished,
        whole.choices@ == first.choices@ + rest.choices@,
        first.id == whole.id,
        rest.id == whole.id,
        first.usage == whole.usage,
        rest.usage is None,
    ensures
        ({
            let a = nemotron_stream::step(s, NemotronInput::Chunk(first));
            let b = nemotron_stream::step(a.0, NemotronInput::Chunk(rest));
            nemotron_stream::step(s, NemotronInput::Chunk(whole)) == (b.0, a.1 + b.1)
        }),
{
    let head = nemotron_stream::head_step(s, whole);
    lemma_choices_concat(head.0, first.choices@, rest.choices@);
    lemma_choices_keep_the_head(head.0, first.choices@);
    let a = nemotron_stream::step(s, NemotronInput::Chunk(first));
    let b = nemotron_stream::step(a.0, NemotronInput::Chunk(rest));
    let again = nemotron_stream::head_step(a.0, rest);
    assert(again.0 == a.0) by {
        if a.0.response_id.len() == 0 {
            assert(a.0.response_id == rest.id@);
        }
    }
    assert(nemotron_stream::step(s, NemotronInput::Chunk(whole)).1 =~= a.1 + b.1);
}

/// A choice counts part by part, its text first, its tool calls next and its finish reason last:
/// it is all the same whether they come in one choice or in three.
pub proof fn law_a_choice_counts_part_by_part(
    s: NemotronState,
    whole: ChatCompletionChunk,
    parts: ChatCompletionChunk,
)
    requires
        !s.finished,
        whole.id == parts.id,
        whole.usage == parts.usage,
        whole.choices@.len() == 1,
        parts.choices@.len() == 3,
        parts.choices@[0].delta.content == whole.choices@[0].delta.content,
        parts.choices@[0].delta.tool_calls is None,
        parts.choices@[0].finish_reason is None,
        parts.choices@[1].delta.content is None,
        parts.choices@[1].delta.tool_calls == whole.choices@[0].delta.tool_calls,
        parts.choices@[1].finish_reason is None,
        parts.choices@[2].delta.content is None,
        parts.choices@[2].delta.tool_calls is None,
        parts.choices@[2].finish_reason == whole.choices@[0].finish_reason,
    ensures
        nemotron_stream::step(s, NemotronInput::Chunk(whole)) == nemotron_stream::step(
            s,
            NemotronInput::Chunk(parts),
        ),
{
    let head = nemotron_stream::head_step(s, whole);
    lemma_informed(s, whole);
    lemma_informed(s, parts);
    lemma_one_choice(head.0, whole.choices@);
    let cs = parts.choices@;
    assert(cs =~= seq![cs[0]] + seq![cs[1]] + seq![cs[2]]);
    let first = nemotron_stream::choice_step(head.0, cs[0]);
    let second = nemotron_stream::choice_step(first.0, cs[1]);
    lemma_choices_concat(head.0, seq![cs[0]] + seq![cs[1]], seq![cs[2]]);
    lemma_choices_concat(head.0, seq![cs[0]], seq![cs[1]]);
    lemma_one_choice(head.0, seq![cs[0]]);
    lemma_one_choice(first.0, seq![cs[1]]);
    lemma_one_choice(second.0, seq![cs[2]]);
    assert(nemotron_stream::choices_step(head.0, cs).1 =~= nemotron_stream::choices_step(
        head.0,
        whole.choices@,
    ).1);
}

proof fn lemma_pieces_concat(
    calls: Seq<(usize, ToolCallView)>,
    a: Seq<ChunkToolCall>,
    b: Seq<ChunkToolCall>,
)
    ensures
        nemotron_stream::with_call_pieces(calls, a + b) == nemotron_stream::with_call_pieces(
            nemotron_stream::with_call_pieces(calls, a),
            b,
        ),
    decreases b.len(),
{
    if b.len() == 0 {
        assert(a + b =~= a);
    } else {
        lemma_pieces_concat(calls, a, b.drop_last());
        assert((a + b).drop_last() =~= a + b.drop_last());
        assert((a + b).last() == b.last());
    }
}

/// The pieces of tool calls count one after the other: it is all the same whether they come in
/// one choice or in two.
pub proof fn law_pieces_count_one_after_the_other(
    s: NemotronState,
    whole: ChatCompletionChunk,
    parts: ChatCompletionChunk,
)
    requires
        !s.finished,
        whole.id == parts.id,
        whole.usage == parts.usage,
        whole.choices@.len() == 1,
        parts.choices@.len() == 2,
        whole.choices@[0].delta.content is None,
        parts.choices@[0].delta.content is None,
        parts.choices@[1].delta.content is None,
        whole.choices@[0].finish_reason is None,
        parts.choices@[0].finish_reason is None,
        parts.choices@[1].finish_reason is None,
        whole.choices@[0].delta.tool_calls is Some,
        parts.choices@[0].delta.tool_calls is Some,
        parts.choices@[1].delta.tool_calls is Some,
        whole.choices@[0].delta.tool_calls->0@ == parts.choices@[0].delta.tool_calls->0@
            + parts.choices@[1].delta.tool_calls->0@,
    ensures
        nemotron_stream::step(s, NemotronInput::Chunk(whole)) == nemotron_stream::step(
            s,
            NemotronInput::Chunk(parts),
        ),
{
    let head = nemotron_stream::head_step(s, whole);
    lemma_informed(s, whole);
    lemma_informed(s, parts);
    lemma_one_choice(head.0, whole.choices@);
    let cs = parts.choices@;
    assert(cs =~= seq![cs[0]] + seq![cs[1]]);
    let first = nemotron_stream::choice_step(head.0, cs[0]);
    lemma_choices_concat(head.0, seq![cs[0]], seq![cs[1]]);
    lemma_one_choice(head.0, seq![cs[0]]);
    lemma_one_choice(first.0, seq![cs[1]]);
    lemma_pieces_concat(
        s.tool_calls,
        cs[0].delta.tool_calls->0@,
        cs[1].delta.tool_calls->0@,
    );
    assert(nemotron_stream::choices_step(head.0, cs).1 =~= nemotron_stream::choices_step(
        head.0,
        whole.choices@,
    ).1);
}

/// A choice without anything in it counts for nothing.
pub proof fn law_an_empty_choice_counts_for_nothing(s: NemotronState, chunk: ChatCompletionChunk)
    requires
        !s.finished,
        chunk.choices@.len() == 1,
        chunk.choices@[0].delta.content is None,
        chunk.choices@[0].finish_reason is None,
        chunk.choices@[0].delta.tool_calls is None || chunk.choices@[0].delta.tool_calls->0@.len()
            == 0,
    ensures
        nemotron_stream::step(s, NemotronInput::Chunk(chunk)) == (
            informed(s, chunk),
            beginning(s),
        ),
{
    lemma_informed(s, chunk);
    lemma_one_choice(informed(s, chunk), chunk.choices@);
    assert(nemotron_stream::step(s, NemotronInput::Chunk(chunk)).1 =~= beginning(s));
}

/// The last event of a response names the response and counts its tokens.
pub open spec fn counted_end(s: NemotronState) -> sent::SentView {
    Ok(
        ResponseEventView::Completed {
            response_id: s.response_id,
            token_usage: Some(
                TokenUsage {
                    input_tokens: s.input_tokens,
                    cached_input_tokens: 0,
                    output_tokens: s.output_tokens,
                    reasoning_output_tokens: 0,
                    total_tokens: (s.input_tokens + s.output_tokens) as i64,
                },
            ),
        },
    )
}

/// The done mark sends what the parser holds back, ends the open message with it, sends the
/// pending calls, and ends the response with its token counts.
pub proof fn law_the_done_mark_sends_all_that_is_left(s: NemotronState)
    requires
        !s.finished,
    ensures
        ({
            let (after, out) = nemotron_stream::step(s, NemotronInput::Done);
            let rest = think::flushed(s.think);
            let before = told(rest) + message_end(
                s.open_message,
                nemotron_stream_laws::text_items(rest),
            );
            &&& out.len() == before.len() + s.tool_calls.len() + 1
            &&& out.take(before.len() as int) == before
            &&& forall|k: int|
                0 <= k < s.tool_calls.len() ==> #[trigger] out[before.len() + k] == Ok::<
                    ResponseEventView,
                    CodexErrView,
                >(
                    ResponseEventView::OutputItemDone(
                        ResponseItemView::FunctionCall {
                            id: None,
                            name: s.tool_calls[k].1.name,
                            namespace: None,
                            arguments: s.tool_calls[k].1.arguments,
                            call_id: s.tool_calls[k].1.id,
                        },
                    ),
                )
            &&& out.last() == counted_end(s)
            &&& after.finished
        }),
{
    let rest = think::flushed(s.think);
    lemma_told(rest);
    lemma_after_deltas(s.open_message, rest);
    let before = told(rest) + message_end(s.open_message, nemotron_stream_laws::text_items(rest));
    let calls = nemotron_stream::calls_sent(s.tool_calls);
    let (after, out) = nemotron_stream::step(s, NemotronInput::Done);
    assert(out =~= before + calls + seq![counted_end(s)]);
    assert(out.take(before.len() as int) =~= before);
    assert forall|k: int| 0 <= k < s.tool_calls.len() implies #[trigger] out[before.len() + k]
        == calls[k] by {}
}

/// The end of the stream sends what the parser holds back, ends the open message with it, and
/// ends the response with its token counts.
pub proof fn law_the_end_of_the_stream_ends_the_response(s: NemotronState)
    requires
        !s.finished,
    ensures
        ({
            let (after, out) = nemotron_stream::step(s, NemotronInput::Closed);
            let rest = think::flushed(s.think);
            &&& out == told(rest) + message_end(
                s.open_message,
                nemotron_stream_laws::text_items(rest),
            ) + seq![counted_end(s)]
            &&& after.finished
        }),
{
    let rest = think::flushed(s.think);
    lemma_told(rest);
    lemma_after_deltas(s.open_message, rest);
    assert(nemotron_stream::step(s, NemotronInput::Closed).1 =~= told(rest) + message_end(
        s.open_message,
        nemotron_stream_laws::text_items(rest),
    ) + seq![counted_end(s)]);
}

/// A failure ends the response with an error that tells of it: that of the transport with its own
/// words, silence for too long as a timeout.
pub proof fn law_a_failure_ends_the_response(s: NemotronState, message: String)
    requires
        !s.finished,
    ensures
        nemotron_stream::step(s, NemotronInput::Broken(message)).1 == seq![
            Err::<ResponseEventView, CodexErrView>(CodexErrView::Stream(message@)),
        ],
        nemotron_stream::step(s, NemotronInput::Broken(message)).0.finished,
        nemotron_stream::step(s, NemotronInput::IdleTimeout).1 == seq![
            Err::<ResponseEventView, CodexErrView>(
                CodexErrView::Stream("idle timeout waiting for Nemotron SSE"@),
            ),
        ],
        nemotron_stream::step(s, NemotronInput::IdleTimeout).0.finished,
{
}

/// What is not understood is passed over, and so is everything once the response has ended.
pub proof fn law_what_is_passed_over(s: NemotronState, input: NemotronInput)
    requires
        s.finished || input is Unreadable,
    ensures
        nemotron_stream::step(s, input) == (s, Seq::<sent::SentView>::empty()),
{
}

/// Nothing is known at the beginning, and nothing has been sent.
pub proof fn law_nothing_is_known_at_the_beginning()
    ensures
        ({
            let s = nemotron_stream::nemotron_start();
            &&& s.response_id.len() == 0
            &&& s.open_message is None
            &&& s.tool_calls.len() == 0
            &&& s.think.buffer.len() == 0
            &&& !s.think.inside
            &&& !s.created_sent
            &&& s.input_tokens == 0
            &&& s.output_tokens == 0
            &&& !s.finished
        }),
{
}

/// Every input can be taken in, but for the end of a response whose token counts have a sum that
/// cannot be written.
pub proof fn law_what_can_be_taken_in(s: NemotronState, input: NemotronInput)
    ensures
        nemotron_stream::can_take_in(s, input) <==> {
            ||| s.finished
            ||| !(input is Done || input is Closed)
            ||| i64::MIN <= s.input_tokens + s.output_tokens <= i64::MAX
        },
{
}

/// What is known of a processor is what it holds.
pub proof fn law_a_processor_is_told_as_it_is(stream: NemotronStream)
    ensures
        stream@.response_id == stream.response_id@,
        stream@.open_message is Some <==> stream.open_message is Some,
        stream.open_message is Some ==> stream@.open_message->0.len()
            == stream.open_message->0@.len(),
        stream@.tool_calls.len() == stream.tool_calls@.len(),
        forall|i: int|
            0 <= i < stream.tool_calls@.len() ==> #[trigger] stream@.tool_calls[i] == (
                stream.tool_calls@[i].0,
                ToolCallView {
                    id: stream.tool_calls@[i].1.id@,
                    name: stream.tool_calls@[i].1.name@,
                    arguments: stream.tool_calls@[i].1.arguments@,
                },
            ),
        stream@.think == stream.think_parser@,
        stream@.created_sent == stream.created_sent,
        stream@.input_tokens == stream.input_tokens,
        stream@.output_tokens == stream.output_tokens,
        stream@.finished == stream.finished,
{
}

/// The data is the mark that the response is complete exactly if `[DONE]` stands in it with
/// nothing but white space around it.
pub proof fn law_what_marks_the_end(data: Seq<char>)
    ensures
        nemotron_stream::done_mark(data) <==> exists|i: int| #[trigger]
            done_at(data, i),
{
    reveal_strlit("[DONE]");
    let mark = "[DONE]"@;
    if nemotron_stream::done_mark(data) {
        let cut = text_laws::law_trimming_takes_white_space_off_the_ends(data);
        assert(data.subrange(cut.0, cut.0 + 6) =~= seq!['[', 'D', 'O', 'N', 'E', ']']);
        assert(done_at(data, cut.0));
    }
    if exists|i: int| #[trigger] done_at(data, i) {
        let i = choose|i: int| #[trigger] done_at(data, i);
        let cut = text_laws::law_trimming_takes_white_space_off_the_ends(data);
        let inner = data.subrange(i, i + 6);
        assert(inner[0] == '[' && inner[5] == ']');
        assert(data[i] == '[' && data[i + 5] == ']');
        assert(!text::white_space(data[i]) && !text::white_space(data[i + 5]));
        assert(cut.0 <= i && i + 5 < cut.1);
        let trimmed = text::trimmed(data);
        assert(trimmed[0] == data[cut.0]);
        assert(trimmed.last() == data[cut.1 - 1]);
        assert(cut.0 == i);
        assert(cut.1 == i + 6);
        assert(inner =~= mark);
    }
}

/// `[DONE]` stands at `i`, with nothing but white space around it.
pub open spec fn done_at(data: Seq<char>, i: int) -> bool {
    &&& 0 <= i <= data.len() - 6
    &&& data.subrange(i, i + 6) == seq!['[', 'D', 'O', 'N', 'E', ']']
    &&& forall|j: int| 0 <= j < i ==> text::white_space(#[trigger] data[j])
    &&& forall|j: int| i + 6 <= j < data.len() ==> text::white_space(#[trigger] data[j])
}

/// The opening event names the model, and it as it is.
pub proof fn law_the_opening_names_the_model(model: Seq<char>)
    ensures
        nemotron_stream::opening(model) == ResponseEventView::ServerModel(model),
{
}

} // verus!
