//! What holds of everything that is sent for a Nemotron stream.

use crate::error::CodexErrView;
use crate::models::{ContentItemView, ResponseEventView};
use crate::nemotron_stream;
use crate::nemotron_stream::{NemotronInput, NemotronState, ToolCallView};
use crate::nemotron_types::{ChunkChoice, ChunkToolCall};
use crate::sent;
use crate::text;
use crate::think;
use crate::think::{ParsedDeltaView, ThinkState};
use vstd::prelude::*;

verus! {

/// The state after a run of inputs, and all that was sent.
pub open spec fn run(s: NemotronState, inputs: Seq<NemotronInput>) -> (
    NemotronState,
    Seq<sent::SentView>,
)
    decreases inputs.len(),
{
    if inputs.len() == 0 {
        (s, seq![])
    } else {
        let (mid, out) = run(s, inputs.drop_last());
        let (end, more) = nemotron_stream::step(mid, inputs.last());
        (end, out + more)
    }
}

/// The open message has the text that was streamed for it, and so had every finished one.
pub open spec fn on_record(s: NemotronState, out: Seq<sent::SentView>) -> bool {
    &&& s.open_message == sent::streamed_text(out)
    &&& sent::messages_hold_streamed_text(out)
}

proof fn lemma_deltas_on_record(
    s: NemotronState,
    deltas: Seq<ParsedDeltaView>,
    out: Seq<sent::SentView>,
)
    requires
        on_record(s, out),
    ensures
        nemotron_stream::after_deltas(s.open_message, deltas) == sent::streamed_text(
            out + nemotron_stream::deltas_sent(deltas),
        ),
        sent::messages_hold_streamed_text(out + nemotron_stream::deltas_sent(deltas)),
    decreases deltas.len(),
{
    let more = nemotron_stream::deltas_sent(deltas);
    if deltas.len() == 0 {
        assert(out + more =~= out);
    } else {
        let front = deltas.drop_last();
        let done = out + nemotron_stream::deltas_sent(front);
        let r = nemotron_stream::delta_sent(deltas.last());
        lemma_deltas_on_record(s, front, out);
        assert(out + more =~= done.push(r));
        sent::lemma_streamed_text_push(done, r);
        sent::lemma_holds_push(done, r);
    }
}

proof fn lemma_calls_on_record(calls: Seq<(usize, ToolCallView)>, out: Seq<sent::SentView>)
    requires
        sent::messages_hold_streamed_text(out),
    ensures
        sent::streamed_text(out + nemotron_stream::calls_sent(calls)) == sent::streamed_text(out),
        sent::messages_hold_streamed_text(out + nemotron_stream::calls_sent(calls)),
    decreases calls.len(),
{
    let more = nemotron_stream::calls_sent(calls);
    if calls.len() == 0 {
        assert(out + more =~= out);
    } else {
        let front = calls.drop_last();
        let done = out + nemotron_stream::calls_sent(front);
        let r = more.last();
        lemma_calls_on_record(front, out);
        assert(out + more =~= done.push(r));
        sent::lemma_streamed_text_push(done, r);
        sent::lemma_holds_push(done, r);
    }
}

proof fn lemma_close_on_record(s: NemotronState, out: Seq<sent::SentView>)
    requires
        on_record(s, out),
    ensures
        sent::streamed_text(out + sent::message_done(s.open_message)) is None,
        sent::messages_hold_streamed_text(out + sent::message_done(s.open_message)),
{
    let more = sent::message_done(s.open_message);
    if more.len() == 0 {
        assert(out + more =~= out);
    } else {
        assert(out + more =~= out.push(more[0]));
        sent::lemma_streamed_text_push(out, more[0]);
        sent::lemma_holds_push(out, more[0]);
    }
}

proof fn lemma_calls_step_on_record(s: NemotronState, out: Seq<sent::SentView>)
    requires
        on_record(s, out),
    ensures
        on_record(nemotron_stream::calls_step(s).0, out + nemotron_stream::calls_step(s).1),
{
    let more = nemotron_stream::calls_step(s).1;
    if s.tool_calls.len() == 0 {
        assert(out + more =~= out);
    } else {
        let closed = out + sent::message_done(s.open_message);
        lemma_close_on_record(s, out);
        lemma_calls_on_record(s.tool_calls, closed);
        assert(out + more =~= closed + nemotron_stream::calls_sent(s.tool_calls));
    }
}

/// Two steps, each of which keeps the record, keep it one after the other.
proof fn lemma_both_on_record(
    first: (NemotronState, Seq<sent::SentView>),
    second: (NemotronState, Seq<sent::SentView>),
    out: Seq<sent::SentView>,
)
    requires
        on_record(second.0, (out + first.1) + second.1),
    ensures
        on_record(
            nemotron_stream::both(first, second).0,
            out + nemotron_stream::both(first, second).1,
        ),
{
    assert(out + (first.1 + second.1) =~= (out + first.1) + second.1);
}

proof fn lemma_flush_and_close_on_record(s: NemotronState, out: Seq<sent::SentView>)
    requires
        on_record(s, out),
    ensures
        ({
            let flushed = nemotron_stream::flush_step(s);
            let closed = nemotron_stream::both(flushed, nemotron_stream::close_step(flushed.0));
            &&& on_record(flushed.0, out + flushed.1)
            &&& on_record(closed.0, out + closed.1)
        }),
{
    let flushed = nemotron_stream::flush_step(s);
    lemma_deltas_on_record(s, think::flushed(s.think), out);
    lemma_close_on_record(flushed.0, out + flushed.1);
    lemma_both_on_record(flushed, nemotron_stream::close_step(flushed.0), out);
}

proof fn lemma_worded_on_record(s: NemotronState, content: Option<String>, out: Seq<sent::SentView>)
    requires
        on_record(s, out),
    ensures
        on_record(
            nemotron_stream::worded_step(s, content).0,
            out + nemotron_stream::worded_step(s, content).1,
        ),
{
    let more = nemotron_stream::worded_step(s, content).1;
    match content {
        None => {
            assert(out + more =~= out);
        },
        Some(t) => {
            let deltas = think::fed(s.think, t@).0;
            match s.open_message {
                Some(_) => {
                    lemma_deltas_on_record(s, deltas, out);
                    assert(out + more =~= out + nemotron_stream::deltas_sent(deltas));
                },
                None => {
                    let added = Ok::<ResponseEventView, CodexErrView>(
                        ResponseEventView::OutputItemAdded(sent::assistant_message(seq![])),
                    );
                    let opened = NemotronState { open_message: Some(seq![]), ..s };
                    sent::lemma_streamed_text_push(out, added);
                    sent::lemma_holds_push(out, added);
                    lemma_deltas_on_record(opened, deltas, out.push(added));
                    assert(out + more =~= out.push(added) + nemotron_stream::deltas_sent(deltas));
                },
            }
        },
    }
}

proof fn lemma_choice_on_record(s: NemotronState, choice: ChunkChoice, out: Seq<sent::SentView>)
    requires
        on_record(s, out),
    ensures
        on_record(
            nemotron_stream::choice_step(s, choice).0,
            out + nemotron_stream::choice_step(s, choice).1,
        ),
{
    let worded = nemotron_stream::worded_step(s, choice.delta.content);
    lemma_worded_on_record(s, choice.delta.content, out);
    let called = match choice.delta.tool_calls {
        Some(pieces) => NemotronState {
            tool_calls: nemotron_stream::with_call_pieces(worded.0.tool_calls, pieces@),
            ..worded.0
        },
        None => worded.0,
    };
    if let Some(reason) = choice.finish_reason {
        let finish = nemotron_stream::finish_step(called, reason@);
        if reason@ == "tool_calls"@ {
            lemma_calls_step_on_record(called, out + worded.1);
        } else if reason@ == "stop"@ || reason@ == "length"@ {
            lemma_flush_and_close_on_record(called, out + worded.1);
        } else {
            assert((out + worded.1) + finish.1 =~= out + worded.1);
        }
        lemma_both_on_record(worded, finish, out);
    }
}

proof fn lemma_choices_on_record(
    s: NemotronState,
    choices: Seq<ChunkChoice>,
    out: Seq<sent::SentView>,
)
    requires
        on_record(s, out),
    ensures
        on_record(
            nemotron_stream::choices_step(s, choices).0,
            out + nemotron_stream::choices_step(s, choices).1,
        ),
    decreases choices.len(),
{
    if choices.len() == 0 {
        assert(out + nemotron_stream::choices_step(s, choices).1 =~= out);
    } else {
        let before = nemotron_stream::choices_step(s, choices.drop_last());
        lemma_choices_on_record(s, choices.drop_last(), out);
        lemma_choice_on_record(before.0, choices.last(), out + before.1);
        lemma_both_on_record(
            before,
            nemotron_stream::choice_step(before.0, choices.last()),
            out,
        );
    }
}

proof fn lemma_complete_on_record(s: NemotronState, out: Seq<sent::SentView>)
    requires
        on_record(s, out),
    ensures
        on_record(nemotron_stream::complete_step(s).0, out + nemotron_stream::complete_step(s).1),
{
    let more = nemotron_stream::complete_step(s).1;
    assert(out + more =~= out.push(more[0]));
    sent::lemma_streamed_text_push(out, more[0]);
    sent::lemma_holds_push(out, more[0]);
}

proof fn lemma_step_on_record(s: NemotronState, input: NemotronInput, out: Seq<sent::SentView>)
    requires
        on_record(s, out),
    ensures
        on_record(
            nemotron_stream::step(s, input).0,
            out + nemotron_stream::step(s, input).1,
        ),
{
    let more = nemotron_stream::step(s, input).1;
    if s.finished {
        assert(out + more =~= out);
    } else {
        match input {
            NemotronInput::Chunk(chunk) => {
                let head = nemotron_stream::head_step(s, chunk);
                if s.created_sent {
                    assert(out + head.1 =~= out);
                } else {
                    assert(out + head.1 =~= out.push(head.1[0]));
                    sent::lemma_streamed_text_push(out, head.1[0]);
                    sent::lemma_holds_push(out, head.1[0]);
                }
                lemma_choices_on_record(head.0, chunk.choices@, out + head.1);
                lemma_both_on_record(
                    head,
                    nemotron_stream::choices_step(head.0, chunk.choices@),
                    out,
                );
            },
            NemotronInput::Unreadable => {
                assert(out + more =~= out);
            },
            NemotronInput::Done => {
                let flushed = nemotron_stream::flush_step(s);
                let calls = nemotron_stream::calls_step(flushed.0);
                let called = nemotron_stream::both(flushed, calls);
                let close = nemotron_stream::close_step(called.0);
                let closed = nemotron_stream::both(called, close);
                lemma_flush_and_close_on_record(s, out);
                lemma_calls_step_on_record(flushed.0, out + flushed.1);
                lemma_both_on_record(flushed, calls, out);
                lemma_close_on_record(called.0, out + called.1);
                lemma_both_on_record(called, close, out);
                lemma_complete_on_record(closed.0, out + closed.1);
                lemma_both_on_record(closed, nemotron_stream::complete_step(closed.0), out);
            },
            NemotronInput::Closed => {
                let flushed = nemotron_stream::flush_step(s);
                let closed = nemotron_stream::both(flushed, nemotron_stream::close_step(flushed.0));
                lemma_flush_and_close_on_record(s, out);
                lemma_complete_on_record(closed.0, out + closed.1);
                lemma_both_on_record(closed, nemotron_stream::complete_step(closed.0), out);
            },
            _ => {
                assert(out + more =~= out.push(more[0]));
                sent::lemma_streamed_text_push(out, more[0]);
                sent::lemma_holds_push(out, more[0]);
            },
        }
    }
}

/// A message is announced only when none is open, and finished only when one is; and what is
/// finished is the text that was streamed since it was announced.
pub proof fn law_messages_hold_what_was_streamed(inputs: Seq<NemotronInput>)
    ensures
        on_record(
            run(nemotron_stream::nemotron_start(), inputs).0,
            run(nemotron_stream::nemotron_start(), inputs).1,
        ),
        sent::messages_are_what_was_streamed(run(nemotron_stream::nemotron_start(), inputs).1),
    decreases inputs.len(),
{
    if inputs.len() > 0 {
        law_messages_hold_what_was_streamed(inputs.drop_last());
        let before = run(nemotron_stream::nemotron_start(), inputs.drop_last());
        lemma_step_on_record(before.0, inputs.last(), before.1);
    }
    sent::lemma_messages_are_what_was_streamed(run(nemotron_stream::nemotron_start(), inputs).1);
}

/// A sending that neither begins nor ends the response.
pub open spec fn ordinary(r: sent::SentView) -> bool {
    &&& !sent::ending(r)
    &&& r != Ok::<ResponseEventView, CodexErrView>(ResponseEventView::Created)
    &&& !names_model(r)
}

/// A sending that names the model.
pub open spec fn names_model(r: sent::SentView) -> bool {
    r matches Ok(e) && e is ServerModel
}

/// The response goes on: nothing that begins or ends it was sent.
pub open spec fn goes_on(s: NemotronState, r: (NemotronState, Seq<sent::SentView>)) -> bool {
    &&& r.0.finished == s.finished
    &&& r.0.created_sent == s.created_sent
    &&& forall|i: int| 0 <= i < r.1.len() ==> ordinary(#[trigger] r.1[i])
}

proof fn lemma_both_go_on(
    s: NemotronState,
    first: (NemotronState, Seq<sent::SentView>),
    second: (NemotronState, Seq<sent::SentView>),
)
    requires
        goes_on(s, first),
        goes_on(first.0, second),
    ensures
        goes_on(s, nemotron_stream::both(first, second)),
{
    let out = nemotron_stream::both(first, second).1;
    assert forall|i: int| 0 <= i < out.len() implies ordinary(#[trigger] out[i]) by {
        if i < first.1.len() {
            assert(out[i] == first.1[i]);
        } else {
            assert(out[i] == second.1[i - first.1.len()]);
        }
    }
}

proof fn lemma_parts_go_on(s: NemotronState)
    ensures
        goes_on(s, nemotron_stream::flush_step(s)),
        goes_on(s, nemotron_stream::calls_step(s)),
        goes_on(s, nemotron_stream::close_step(s)),
        ({
            let flushed = nemotron_stream::flush_step(s);
            goes_on(s, nemotron_stream::both(flushed, nemotron_stream::close_step(flushed.0)))
        }),
{
    let flushed = nemotron_stream::flush_step(s);
    let close = nemotron_stream::close_step(flushed.0);
    lemma_both_go_on(s, flushed, close);
}

proof fn lemma_choice_goes_on(s: NemotronState, choice: ChunkChoice)
    ensures
        goes_on(s, nemotron_stream::choice_step(s, choice)),
{
    let worded = nemotron_stream::worded_step(s, choice.delta.content);
    assert(goes_on(s, worded));
    let called = match choice.delta.tool_calls {
        Some(pieces) => NemotronState {
            tool_calls: nemotron_stream::with_call_pieces(worded.0.tool_calls, pieces@),
            ..worded.0
        },
        None => worded.0,
    };
    if let Some(reason) = choice.finish_reason {
        lemma_parts_go_on(called);
        lemma_both_go_on(s, worded, nemotron_stream::finish_step(called, reason@));
    }
}

proof fn lemma_choices_go_on(s: NemotronState, choices: Seq<ChunkChoice>)
    ensures
        goes_on(s, nemotron_stream::choices_step(s, choices)),
    decreases choices.len(),
{
    if choices.len() > 0 {
        let before = nemotron_stream::choices_step(s, choices.drop_last());
        lemma_choices_go_on(s, choices.drop_last());
        lemma_choice_goes_on(before.0, choices.last());
        lemma_both_go_on(s, before, nemotron_stream::choice_step(before.0, choices.last()));
    }
}

/// The end of the response is the last thing that a step sends, and the beginning the first.
proof fn lemma_step_bounds(s: NemotronState, input: NemotronInput)
    requires
        !s.finished,
    ensures
        ({
            let (end, more) = nemotron_stream::step(s, input);
            &&& end.finished <==> more.len() > 0 && sent::ending(more.last())
            &&& forall|i: int| 0 <= i < more.len() - 1 ==> !sent::ending(#[trigger] more[i])
            &&& forall|i: int| 0 <= i < more.len() ==> !names_model(#[trigger] more[i])
            &&& end.created_sent <==> s.created_sent || input is Chunk
            &&& s.created_sent || !(input is Chunk) ==> forall|i: int|
                0 <= i < more.len() ==> #[trigger] more[i] != Ok::<ResponseEventView, CodexErrView>(
                    ResponseEventView::Created,
                )
            &&& !s.created_sent && input is Chunk ==> more.len() > 0 && more[0] == Ok::<
                ResponseEventView,
                CodexErrView,
            >(ResponseEventView::Created) && forall|i: int|
                0 < i < more.len() ==> #[trigger] more[i] != Ok::<ResponseEventView, CodexErrView>(
                    ResponseEventView::Created,
                )
        }),
{
    let (end, more) = nemotron_stream::step(s, input);
    match input {
        NemotronInput::Chunk(chunk) => {
            let head = nemotron_stream::head_step(s, chunk);
            let rest = nemotron_stream::choices_step(head.0, chunk.choices@);
            lemma_choices_go_on(head.0, chunk.choices@);
            assert forall|i: int| head.1.len() <= i < more.len() implies ordinary(
                #[trigger] more[i],
            ) by {
                assert(more[i] == rest.1[i - head.1.len()]);
            }
            if !s.created_sent {
                assert(more[0] == head.1[0]);
            }
        },
        NemotronInput::Done => {
            let flushed = nemotron_stream::flush_step(s);
            let calls = nemotron_stream::calls_step(flushed.0);
            let called = nemotron_stream::both(flushed, calls);
            let close = nemotron_stream::close_step(called.0);
            let closed = nemotron_stream::both(called, close);
            lemma_parts_go_on(s);
            lemma_parts_go_on(flushed.0);
            lemma_parts_go_on(called.0);
            lemma_both_go_on(s, flushed, calls);
            lemma_both_go_on(s, called, close);
            assert(more =~= closed.1.push(nemotron_stream::completed(closed.0)));
        },
        NemotronInput::Closed => {
            let flushed = nemotron_stream::flush_step(s);
            let closed = nemotron_stream::both(flushed, nemotron_stream::close_step(flushed.0));
            lemma_parts_go_on(s);
            assert(more =~= closed.1.push(nemotron_stream::completed(closed.0)));
        },
        _ => {},
    }
}

/// A response ends once: `Completed` or an error is the last thing that is sent, and it has been
/// sent if and only if the processing is over.
pub proof fn law_a_response_ends_once(inputs: Seq<NemotronInput>)
    ensures
        ({
            let (s, out) = run(nemotron_stream::nemotron_start(), inputs);
            &&& s.finished <==> out.len() > 0 && sent::ending(out.last())
            &&& forall|i: int| 0 <= i < out.len() - 1 ==> !sent::ending(#[trigger] out[i])
        }),
    decreases inputs.len(),
{
    if inputs.len() > 0 {
        law_a_response_ends_once(inputs.drop_last());
        let (mid, out) = run(nemotron_stream::nemotron_start(), inputs.drop_last());
        let more = nemotron_stream::step(mid, inputs.last()).1;
        let all = out + more;
        if mid.finished {
            assert(all =~= out);
        } else {
            lemma_step_bounds(mid, inputs.last());
            assert forall|i: int| 0 <= i < all.len() - 1 implies !sent::ending(
                #[trigger] all[i],
            ) by {
                if i < out.len() {
                    assert(all[i] == out[i]);
                    if i == out.len() - 1 {
                        assert(out[i] == out.last());
                    }
                } else {
                    assert(all[i] == more[i - out.len()]);
                }
            }
            if more.len() > 0 {
                assert(all.last() == more.last());
            } else {
                assert(all =~= out);
            }
        }
    }
}

/// A response begins once: `Created` is sent first or not at all, and it is sent with the first
/// chunk. A response that ends before a chunk has come is its end alone.
pub proof fn law_a_response_begins_once(inputs: Seq<NemotronInput>)
    ensures
        ({
            let (s, out) = run(nemotron_stream::nemotron_start(), inputs);
            let created = Ok::<ResponseEventView, CodexErrView>(ResponseEventView::Created);
            &&& s.created_sent <==> out.len() > 0 && out[0] == created
            &&& forall|i: int| 0 < i < out.len() ==> #[trigger] out[i] != created
            &&& !s.created_sent ==> out.len() == (if s.finished {
                1int
            } else {
                0
            })
            &&& !s.created_sent && !s.finished ==> s == nemotron_stream::nemotron_start()
        }),
    decreases inputs.len(),
{
    let start = nemotron_stream::nemotron_start();
    let created = Ok::<ResponseEventView, CodexErrView>(ResponseEventView::Created);
    if inputs.len() > 0 {
        law_a_response_begins_once(inputs.drop_last());
        let (mid, out) = run(start, inputs.drop_last());
        let more = nemotron_stream::step(mid, inputs.last()).1;
        let all = out + more;
        if mid.finished {
            assert(all =~= out);
        } else {
            lemma_step_bounds(mid, inputs.last());
            assert forall|i: int| 0 < i < all.len() implies #[trigger] all[i] != created by {
                if i < out.len() {
                    assert(all[i] == out[i]);
                } else {
                    assert(all[i] == more[i - out.len()]);
                }
            }
            if out.len() > 0 {
                assert(all[0] == out[0]);
            } else {
                assert(all =~= more);
            }
        }
    }
}

/// All that the agent receives: the model that answers, then what is sent for the inputs.
pub open spec fn whole_response(model: Seq<char>, inputs: Seq<NemotronInput>) -> Seq<
    sent::SentView,
> {
    seq![
        Ok::<ResponseEventView, CodexErrView>(ResponseEventView::ServerModel(model)),
    ] + run(nemotron_stream::nemotron_start(), inputs).1
}

/// The model is named first, and not again.
pub proof fn law_the_model_is_named_first_and_once(model: Seq<char>, inputs: Seq<NemotronInput>)
    ensures
        whole_response(model, inputs)[0] == Ok::<ResponseEventView, CodexErrView>(
            ResponseEventView::ServerModel(model),
        ),
        forall|i: int|
            0 < i < whole_response(model, inputs).len() ==> !names_model(
                #[trigger] whole_response(model, inputs)[i],
            ),
    decreases inputs.len(),
{
    if inputs.len() > 0 {
        let front = inputs.drop_last();
        law_the_model_is_named_first_and_once(model, front);
        let before = run(nemotron_stream::nemotron_start(), front);
        let more = nemotron_stream::step(before.0, inputs.last()).1;
        let done = whole_response(model, front);
        let all = whole_response(model, inputs);
        assert(all =~= done + more);
        if !before.0.finished {
            lemma_step_bounds(before.0, inputs.last());
        }
        assert forall|i: int| 0 < i < all.len() implies !names_model(#[trigger] all[i]) by {
            if i < done.len() {
                assert(all[i] == done[i]);
            } else {
                assert(all[i] == more[i - done.len()]);
            }
        }
    }
}

/// After the end nothing is sent and nothing changes.
pub proof fn law_nothing_after_the_end(s: NemotronState, inputs: Seq<NemotronInput>)
    requires
        s.finished,
    ensures
        run(s, inputs) == (s, Seq::<sent::SentView>::empty()),
    decreases inputs.len(),
{
    if inputs.len() > 0 {
        law_nothing_after_the_end(s, inputs.drop_last());
        assert(run(s, inputs).1 =~= seq![]);
    }
}

/// The total is the sum of the tokens in and out.
pub proof fn law_total_is_the_sum(s: NemotronState)
    requires
        nemotron_stream::total_fits(s),
    ensures
        nemotron_stream::completed(s) matches Ok(
            ResponseEventView::Completed { token_usage: Some(usage), .. },
        ) && usage.total_tokens == usage.input_tokens + usage.output_tokens
            && usage.input_tokens == s.input_tokens && usage.output_tokens == s.output_tokens,
{
}

/// What the stream asks of the parser.
pub enum ParserOp {
    /// To take in a piece of text.
    Feed(Seq<char>),
    /// To hand out what is held back.
    Flush,
}

/// What the parser gives for a run of requests, and its state after them.
pub open spec fn parsed(st: ThinkState, ops: Seq<ParserOp>) -> (Seq<ParsedDeltaView>, ThinkState)
    decreases ops.len(),
{
    if ops.len() == 0 {
        (seq![], st)
    } else {
        let (deltas, mid) = parsed(st, ops.drop_last());
        match ops.last() {
            ParserOp::Feed(t) => (deltas + think::fed(mid, t).0, think::fed(mid, t).1),
            ParserOp::Flush => (deltas + think::flushed(mid), think::emptied(mid)),
        }
    }
}

/// What the text of a choice asks of the parser.
pub open spec fn content_ops(content: Option<String>) -> Seq<ParserOp> {
    match content {
        Some(t) => seq![ParserOp::Feed(t@)],
        None => seq![],
    }
}

/// What the end of a choice asks of the parser.
pub open spec fn finish_ops(reason: Option<String>) -> Seq<ParserOp> {
    match reason {
        Some(r) => if r@ == "stop"@ || r@ == "length"@ {
            seq![ParserOp::Flush]
        } else {
            seq![]
        },
        None => seq![],
    }
}

/// What the choices of a chunk ask of the parser.
pub open spec fn choices_ops(choices: Seq<ChunkChoice>) -> Seq<ParserOp>
    decreases choices.len(),
{
    if choices.len() == 0 {
        seq![]
    } else {
        let last = choices.last();
        choices_ops(choices.drop_last()) + content_ops(last.delta.content) + finish_ops(
            last.finish_reason,
        )
    }
}

/// What an input asks of the parser.
pub open spec fn input_ops(input: NemotronInput) -> Seq<ParserOp> {
    match input {
        NemotronInput::Chunk(chunk) => choices_ops(chunk.choices@),
        NemotronInput::Done | NemotronInput::Closed => seq![ParserOp::Flush],
        _ => seq![],
    }
}

/// What a run of inputs asks of the parser.
pub open spec fn parser_ops(inputs: Seq<NemotronInput>) -> Seq<ParserOp>
    decreases inputs.len(),
{
    if inputs.len() == 0 {
        seq![]
    } else {
        parser_ops(inputs.drop_last()) + input_ops(inputs.last())
    }
}

/// What was sent as text and as reasoning, in order.
pub open spec fn sorted_deltas(out: Seq<sent::SentView>) -> Seq<ParsedDeltaView>
    decreases out.len(),
{
    if out.len() == 0 {
        seq![]
    } else {
        let before = sorted_deltas(out.drop_last());
        match out.last() {
            Ok(ResponseEventView::OutputTextDelta(t)) => before.push(ParsedDeltaView::Text(t)),
            Ok(ResponseEventView::ReasoningContentDelta { delta, .. }) => before.push(
                ParsedDeltaView::Thinking(delta),
            ),
            _ => before,
        }
    }
}

proof fn lemma_sorted_deltas_concat(a: Seq<sent::SentView>, b: Seq<sent::SentView>)
    ensures
        sorted_deltas(a + b) == sorted_deltas(a) + sorted_deltas(b),
    decreases b.len(),
{
    if b.len() == 0 {
        assert(a + b =~= a);
        assert(sorted_deltas(a) + sorted_deltas(b) =~= sorted_deltas(a));
    } else {
        assert((a + b).drop_last() =~= a + b.drop_last());
        lemma_sorted_deltas_concat(a, b.drop_last());
        assert(sorted_deltas(a + b) =~= sorted_deltas(a) + sorted_deltas(b));
    }
}

proof fn lemma_sorted_deltas_of_deltas(deltas: Seq<ParsedDeltaView>)
    ensures
        sorted_deltas(nemotron_stream::deltas_sent(deltas)) == deltas,
    decreases deltas.len(),
{
    let out = nemotron_stream::deltas_sent(deltas);
    if deltas.len() > 0 {
        assert(out.drop_last() =~= nemotron_stream::deltas_sent(deltas.drop_last()));
        lemma_sorted_deltas_of_deltas(deltas.drop_last());
    }
    assert(sorted_deltas(out) =~= deltas);
}

/// Sendings that are neither text nor reasoning.
proof fn lemma_sorted_deltas_of_others(out: Seq<sent::SentView>)
    requires
        forall|i: int|
            0 <= i < out.len() ==> !(#[trigger] out[i] matches Ok(e) && (e is OutputTextDelta
                || e is ReasoningContentDelta)),
    ensures
        sorted_deltas(out) == Seq::<ParsedDeltaView>::empty(),
    decreases out.len(),
{
    if out.len() > 0 {
        let front = out.drop_last();
        assert forall|i: int| 0 <= i < front.len() implies !(#[trigger] front[i] matches Ok(e) && (
        e is OutputTextDelta || e is ReasoningContentDelta)) by {
            assert(front[i] == out[i]);
        }
        lemma_sorted_deltas_of_others(front);
        assert(out.last() == out[out.len() - 1]);
    }
}

proof fn lemma_parsed_concat(st: ThinkState, a: Seq<ParserOp>, b: Seq<ParserOp>)
    ensures
        ({
            let first = parsed(st, a);
            let second = parsed(first.1, b);
            parsed(st, a + b) == (first.0 + second.0, second.1)
        }),
    decreases b.len(),
{
    let first = parsed(st, a);
    let second = parsed(first.1, b);
    if b.len() == 0 {
        assert(a + b =~= a);
        assert(first.0 + second.0 =~= first.0);
    } else {
        lemma_parsed_concat(st, a, b.drop_last());
        assert((a + b).drop_last() =~= a + b.drop_last());
        assert((a + b).last() == b.last());
        assert(parsed(st, a + b).0 =~= first.0 + second.0);
    }
}

proof fn lemma_parsed_one(st: ThinkState, op: ParserOp)
    ensures
        parsed(st, seq![op]) == (match op {
            ParserOp::Feed(t) => think::fed(st, t),
            ParserOp::Flush => (think::flushed(st), think::emptied(st)),
        }),
{
    reveal_with_fuel(parsed, 2);
    assert(seq![op].drop_last() =~= seq![]);
    assert(parsed(st, seq![op]).0 =~= (match op {
        ParserOp::Feed(t) => think::fed(st, t).0,
        ParserOp::Flush => think::flushed(st),
    }));
}

/// A step did what was asked of the parser, and sent what the parser gave.
pub open spec fn parses(
    s: NemotronState,
    ops: Seq<ParserOp>,
    r: (NemotronState, Seq<sent::SentView>),
) -> bool {
    (sorted_deltas(r.1), r.0.think) == parsed(s.think, ops)
}

proof fn lemma_both_parse(
    s: NemotronState,
    a: Seq<ParserOp>,
    first: (NemotronState, Seq<sent::SentView>),
    b: Seq<ParserOp>,
    mid: NemotronState,
    second: (NemotronState, Seq<sent::SentView>),
)
    requires
        parses(s, a, first),
        mid.think == first.0.think,
        parses(mid, b, second),
    ensures
        parses(s, a + b, nemotron_stream::both(first, second)),
{
    lemma_parsed_concat(s.think, a, b);
    lemma_sorted_deltas_concat(first.1, second.1);
}

proof fn lemma_parts_parse(s: NemotronState)
    ensures
        parses(s, seq![ParserOp::Flush], nemotron_stream::flush_step(s)),
        parses(s, seq![], nemotron_stream::calls_step(s)),
        parses(s, seq![], nemotron_stream::close_step(s)),
        parses(s, seq![], nemotron_stream::complete_step(s)),
{
    lemma_parsed_one(s.think, ParserOp::Flush);
    lemma_sorted_deltas_of_deltas(think::flushed(s.think));
    lemma_sorted_deltas_of_others(nemotron_stream::calls_step(s).1);
    lemma_sorted_deltas_of_others(nemotron_stream::close_step(s).1);
    lemma_sorted_deltas_of_others(nemotron_stream::complete_step(s).1);
}

proof fn lemma_choice_parses(s: NemotronState, choice: ChunkChoice)
    ensures
        parses(
            s,
            content_ops(choice.delta.content) + finish_ops(choice.finish_reason),
            nemotron_stream::choice_step(s, choice),
        ),
{
    let worded = nemotron_stream::worded_step(s, choice.delta.content);
    let a = content_ops(choice.delta.content);
    let b = finish_ops(choice.finish_reason);
    if let Some(t) = choice.delta.content {
        let deltas = think::fed(s.think, t@).0;
        let added = match s.open_message {
            Some(_) => seq![],
            None => seq![
                Ok::<ResponseEventView, CodexErrView>(
                    ResponseEventView::OutputItemAdded(sent::assistant_message(seq![])),
                ),
            ],
        };
        lemma_parsed_one(s.think, ParserOp::Feed(t@));
        lemma_sorted_deltas_of_deltas(deltas);
        lemma_sorted_deltas_of_others(added);
        lemma_sorted_deltas_concat(added, nemotron_stream::deltas_sent(deltas));
        assert(sorted_deltas(worded.1) =~= deltas);
    }
    assert(parses(s, a, worded));
    let called = match choice.delta.tool_calls {
        Some(pieces) => NemotronState {
            tool_calls: nemotron_stream::with_call_pieces(worded.0.tool_calls, pieces@),
            ..worded.0
        },
        None => worded.0,
    };
    match choice.finish_reason {
        Some(reason) => {
            let finish = nemotron_stream::finish_step(called, reason@);
            let flushed = nemotron_stream::flush_step(called);
            let close = nemotron_stream::close_step(flushed.0);
            lemma_finish_reasons_differ();
            lemma_parts_parse(called);
            lemma_parts_parse(flushed.0);
            lemma_both_parse(called, seq![ParserOp::Flush], flushed, seq![], flushed.0, close);
            assert(seq![ParserOp::Flush] + seq![] =~= seq![ParserOp::Flush]);
            lemma_both_parse(s, a, worded, b, called, finish);
        },
        None => {
            assert(a + b =~= a);
        },
    }
}

pub proof fn lemma_finish_reasons_differ()
    ensures
        "tool_calls"@ != "stop"@,
        "tool_calls"@ != "length"@,
{
    reveal_strlit("tool_calls");
    reveal_strlit("stop");
    reveal_strlit("length");
    assert("tool_calls"@.len() == 10);
    assert("stop"@.len() == 4);
    assert("length"@.len() == 6);
}

proof fn lemma_choices_parse(s: NemotronState, choices: Seq<ChunkChoice>)
    ensures
        parses(s, choices_ops(choices), nemotron_stream::choices_step(s, choices)),
    decreases choices.len(),
{
    if choices.len() > 0 {
        let before = nemotron_stream::choices_step(s, choices.drop_last());
        let last = choices.last();
        let ops = choices_ops(choices.drop_last());
        let more = content_ops(last.delta.content) + finish_ops(last.finish_reason);
        lemma_choices_parse(s, choices.drop_last());
        lemma_choice_parses(before.0, last);
        lemma_both_parse(
            s,
            ops,
            before,
            more,
            before.0,
            nemotron_stream::choice_step(before.0, last),
        );
        assert(choices_ops(choices) =~= ops + more);
    }
}

proof fn lemma_step_parses(s: NemotronState, input: NemotronInput)
    requires
        !s.finished,
    ensures
        parses(s, input_ops(input), nemotron_stream::step(s, input)),
{
    let flush = seq![ParserOp::Flush];
    let flushed = nemotron_stream::flush_step(s);
    match input {
        NemotronInput::Chunk(chunk) => {
            let head = nemotron_stream::head_step(s, chunk);
            lemma_sorted_deltas_of_others(head.1);
            assert(parses(s, seq![], head));
            lemma_choices_parse(head.0, chunk.choices@);
            lemma_both_parse(
                s,
                seq![],
                head,
                choices_ops(chunk.choices@),
                head.0,
                nemotron_stream::choices_step(head.0, chunk.choices@),
            );
            assert(Seq::<ParserOp>::empty() + choices_ops(chunk.choices@) =~= choices_ops(
                chunk.choices@,
            ));
        },
        NemotronInput::Done => {
            let calls = nemotron_stream::calls_step(flushed.0);
            let called = nemotron_stream::both(flushed, calls);
            let close = nemotron_stream::close_step(called.0);
            let closed = nemotron_stream::both(called, close);
            lemma_parts_parse(s);
            lemma_parts_parse(flushed.0);
            lemma_parts_parse(called.0);
            lemma_parts_parse(closed.0);
            assert(flush + seq![] =~= flush);
            lemma_both_parse(s, flush, flushed, seq![], flushed.0, calls);
            lemma_both_parse(s, flush, called, seq![], called.0, close);
            lemma_both_parse(
                s,
                flush,
                closed,
                seq![],
                closed.0,
                nemotron_stream::complete_step(closed.0),
            );
        },
        NemotronInput::Closed => {
            let close = nemotron_stream::close_step(flushed.0);
            let closed = nemotron_stream::both(flushed, close);
            lemma_parts_parse(s);
            lemma_parts_parse(flushed.0);
            lemma_parts_parse(closed.0);
            assert(flush + seq![] =~= flush);
            lemma_both_parse(s, flush, flushed, seq![], flushed.0, close);
            lemma_both_parse(
                s,
                flush,
                closed,
                seq![],
                closed.0,
                nemotron_stream::complete_step(closed.0),
            );
        },
        _ => {
            lemma_sorted_deltas_of_others(nemotron_stream::step(s, input).1);
        },
    }
}

/// What is sent as text and as reasoning is, in order, what the parser gives for the content of
/// the chunks: no character of it is sent that the parser has not sorted, and none is left out.
pub proof fn law_content_goes_through_the_parser(s: NemotronState, inputs: Seq<NemotronInput>)
    requires
        inputs.len() > 0 ==> !run(s, inputs.drop_last()).0.finished,
    ensures
        sorted_deltas(run(s, inputs).1) == parsed(s.think, parser_ops(inputs)).0,
        run(s, inputs).0.think == parsed(s.think, parser_ops(inputs)).1,
    decreases inputs.len(),
{
    if inputs.len() > 0 {
        let front = inputs.drop_last();
        let before = run(s, front);
        if front.len() > 0 && run(s, front.drop_last()).0.finished {
            law_finished_stays(s, front);
        }
        law_content_goes_through_the_parser(s, front);
        lemma_step_parses(before.0, inputs.last());
        lemma_both_parse(
            s,
            parser_ops(front),
            before,
            input_ops(inputs.last()),
            before.0,
            nemotron_stream::step(before.0, inputs.last()),
        );
    }
}

/// The pieces of text among sorted deltas.
pub open spec fn text_items(deltas: Seq<ParsedDeltaView>) -> Seq<ContentItemView>
    decreases deltas.len(),
{
    if deltas.len() == 0 {
        seq![]
    } else {
        let before = text_items(deltas.drop_last());
        match deltas.last() {
            ParsedDeltaView::Text(t) => before.push(ContentItemView::OutputText { text: t }),
            ParsedDeltaView::Thinking(_) => before,
        }
    }
}

proof fn lemma_output_texts(out: Seq<sent::SentView>)
    ensures
        sent::output_texts(out) == text_items(sorted_deltas(out)),
    decreases out.len(),
{
    if out.len() > 0 {
        lemma_output_texts(out.drop_last());
        let before = sorted_deltas(out.drop_last());
        if sorted_deltas(out).len() > before.len() {
            assert(sorted_deltas(out).drop_last() =~= before);
        }
    }
}

/// Messages hold the text of the response and none of its reasoning: every finished message is
/// made of pieces that were sent as text since it was announced, and what is sent as text is, in
/// order, what the parser finds outside `<think>` blocks.
pub proof fn law_messages_hold_text_and_no_reasoning(inputs: Seq<NemotronInput>)
    requires
        inputs.len() > 0 ==> !run(
            nemotron_stream::nemotron_start(),
            inputs.drop_last(),
        ).0.finished,
    ensures
        ({
            let out = run(nemotron_stream::nemotron_start(), inputs).1;
            &&& sent::messages_are_what_was_streamed(out)
            &&& sent::output_texts(out) == text_items(
                parsed(think::think_start(), parser_ops(inputs)).0,
            )
        }),
{
    let start = nemotron_stream::nemotron_start();
    law_messages_hold_what_was_streamed(inputs);
    law_content_goes_through_the_parser(start, inputs);
    lemma_output_texts(run(start, inputs).1);
}

/// Once over, the processing stays over.
pub proof fn law_finished_stays(s: NemotronState, inputs: Seq<NemotronInput>)
    requires
        inputs.len() > 0,
        run(s, inputs.drop_last()).0.finished,
    ensures
        run(s, inputs).0.finished,
{
}

/// The text that the parser is asked to take in, put together.
pub open spec fn text_fed(ops: Seq<ParserOp>) -> Seq<char>
    decreases ops.len(),
{
    if ops.len() == 0 {
        seq![]
    } else {
        match ops[0] {
            ParserOp::Feed(t) => t + text_fed(ops.drop_first()),
            ParserOp::Flush => text_fed(ops.drop_first()),
        }
    }
}

/// A tag begins in what is held back, and ends in what comes after.
pub open spec fn tag_is_pending(st: ThinkState, rest: Seq<char>) -> bool {
    exists|j: int|
        j < st.buffer.len() && #[trigger] text::occurs_at(
            st.buffer + rest,
            think::tag(st.inside),
            j,
        )
}

/// No flush hands out the beginning of a tag that goes on behind it.
pub open spec fn no_flush_cuts_a_tag(st: ThinkState, ops: Seq<ParserOp>) -> bool
    decreases ops.len(),
{
    ops.len() == 0 || match ops[0] {
        ParserOp::Feed(t) => no_flush_cuts_a_tag(think::fed(st, t).1, ops.drop_first()),
        ParserOp::Flush => {
            &&& !tag_is_pending(st, text_fed(ops.drop_first()))
            &&& no_flush_cuts_a_tag(think::emptied(st), ops.drop_first())
        },
    }
}

proof fn lemma_parsed_sorts(st: ThinkState, ops: Seq<ParserOp>)
    requires
        no_flush_cuts_a_tag(st, ops),
        !text::has_infix(st.buffer, think::tag(st.inside)),
    ensures
        think::totals(parsed(st, ops).0 + think::flushed(parsed(st, ops).1))
            == think::sorted_stream(st.inside, st.buffer + text_fed(ops)),
    decreases ops.len(),
{
    think::lemma_tags();
    if ops.len() == 0 {
        assert(st.buffer + text_fed(ops) =~= st.buffer);
        assert(parsed(st, ops).0 + think::flushed(st) =~= think::flushed(st));
        think::lemma_totals_piece(st.inside, st.buffer);
    } else {
        let rest = ops.drop_first();
        let after = text_fed(rest);
        assert(ops =~= seq![ops[0]] + rest);
        lemma_parsed_one(st, ops[0]);
        lemma_parsed_concat(st, seq![ops[0]], rest);
        let (deltas, mid) = parsed(st, seq![ops[0]]);
        let (more, end) = parsed(mid, rest);
        let last = think::flushed(end);
        assert((deltas + more) + last =~= deltas + (more + last));
        think::lemma_totals_concat(deltas, more + last);
        match ops[0] {
            ParserOp::Feed(t) => {
                let given = think::with_chunk(st, t);
                think::lemma_drained_settles(given);
                think::lemma_drained_sorts(given, after);
                assert(given.buffer + after =~= st.buffer + text_fed(ops));
                lemma_parsed_sorts(mid, rest);
            },
            ParserOp::Flush => {
                think::lemma_totals_piece(st.inside, st.buffer);
                think::lemma_sorted_prefix(st.inside, st.buffer, after);
                lemma_parsed_sorts(mid, rest);
                assert(mid.buffer + after =~= after);
            },
        }
    }
}

/// The reasoning between `<think>` and `</think>` is told from the text, however the chunks of
/// the response cut it: put together, what is sent as text and what is sent as reasoning are the
/// content of the response sorted at one go. This is so of every response at whose end nothing is
/// held back, as after the done mark or the end of the stream, unless a choice stopped in the
/// middle of a tag and was followed by the rest of it.
pub proof fn law_reasoning_is_told_from_text(inputs: Seq<NemotronInput>)
    requires
        inputs.len() > 0 ==> !run(
            nemotron_stream::nemotron_start(),
            inputs.drop_last(),
        ).0.finished,
        run(nemotron_stream::nemotron_start(), inputs).0.think.buffer.len() == 0,
        no_flush_cuts_a_tag(think::think_start(), parser_ops(inputs)),
    ensures
        think::totals(sorted_deltas(run(nemotron_stream::nemotron_start(), inputs).1))
            == think::sorted_stream(false, text_fed(parser_ops(inputs))),
{
    let start = nemotron_stream::nemotron_start();
    let st = think::think_start();
    let ops = parser_ops(inputs);
    law_content_goes_through_the_parser(start, inputs);
    think::lemma_tags();
    lemma_parsed_sorts(st, ops);
    assert(st.buffer + text_fed(ops) =~= text_fed(ops));
    let (deltas, end) = parsed(st, ops);
    assert(deltas + think::flushed(end) =~= deltas);
}

/// At the done mark and at the end of the stream nothing is held back.
pub proof fn law_nothing_is_held_back_at_the_end(s: NemotronState, input: NemotronInput)
    requires
        !s.finished,
        input is Done || input is Closed,
    ensures
        nemotron_stream::step(s, input).0.think.buffer.len() == 0,
        nemotron_stream::step(s, input).0.finished,
{
}

/// No text is fed behind a flush.
pub open spec fn flushes_come_last(ops: Seq<ParserOp>) -> bool {
    forall|i: int, j: int|
        0 <= i < j < ops.len() && #[trigger] ops[i] is Flush ==> #[trigger] ops[j] is Flush
}

proof fn lemma_flushes_feed_nothing(ops: Seq<ParserOp>)
    requires
        forall|i: int| 0 <= i < ops.len() ==> #[trigger] ops[i] is Flush,
    ensures
        text_fed(ops) == Seq::<char>::empty(),
    decreases ops.len(),
{
    if ops.len() > 0 {
        let rest = ops.drop_first();
        assert forall|i: int| 0 <= i < rest.len() implies #[trigger] rest[i] is Flush by {
            assert(rest[i] == ops[i + 1]);
        }
        assert(ops[0] is Flush);
        lemma_flushes_feed_nothing(rest);
    }
}

proof fn lemma_last_flushes_cut_no_tag(st: ThinkState, ops: Seq<ParserOp>)
    requires
        flushes_come_last(ops),
        !text::has_infix(st.buffer, think::tag(st.inside)),
    ensures
        no_flush_cuts_a_tag(st, ops),
    decreases ops.len(),
{
    if ops.len() > 0 {
        let rest = ops.drop_first();
        assert forall|i: int, j: int|
            0 <= i < j < rest.len() && #[trigger] rest[i] is Flush implies #[trigger] rest[
            j] is Flush by {
            assert(rest[i] == ops[i + 1] && rest[j] == ops[j + 1]);
        }
        match ops[0] {
            ParserOp::Feed(t) => {
                think::lemma_drained_settles(think::with_chunk(st, t));
                lemma_last_flushes_cut_no_tag(think::fed(st, t).1, rest);
            },
            ParserOp::Flush => {
                assert forall|i: int| 0 <= i < rest.len() implies #[trigger] rest[i] is Flush by {
                    assert(ops[0] is Flush && rest[i] == ops[i + 1]);
                }
                lemma_flushes_feed_nothing(rest);
                assert(st.buffer + text_fed(rest) =~= st.buffer);
                think::lemma_tags();
                lemma_last_flushes_cut_no_tag(think::emptied(st), rest);
            },
        }
    }
}

/// A response whose content comes before the first flush, as it does in one that stops once, cuts
/// no tag, whatever its content and its chunks.
pub proof fn law_flushes_behind_the_content_cut_no_tag(ops: Seq<ParserOp>)
    requires
        flushes_come_last(ops),
    ensures
        no_flush_cuts_a_tag(think::think_start(), ops),
{
    think::lemma_tags();
    lemma_last_flushes_cut_no_tag(think::think_start(), ops);
}

/// The call with the given index.
pub open spec fn call_at(calls: Seq<(usize, ToolCallView)>, index: usize) -> Option<ToolCallView> {
    match nemotron_stream::call_position(calls, index) {
        Some(i) => Some(calls[i].1),
        None => None,
    }
}

/// No index occurs twice.
pub open spec fn distinct_indexes(calls: Seq<(usize, ToolCallView)>) -> bool {
    forall|i: int, j: int| 0 <= i < j < calls.len() ==> (#[trigger] calls[i]).0 != (
    #[trigger] calls[j]).0
}

pub proof fn lemma_call_position(calls: Seq<(usize, ToolCallView)>, index: usize)
    ensures
        match nemotron_stream::call_position(calls, index) {
            Some(i) => 0 <= i < calls.len() && calls[i].0 == index && forall|j: int|
                i < j < calls.len() ==> (#[trigger] calls[j]).0 != index,
            None => forall|j: int| 0 <= j < calls.len() ==> (#[trigger] calls[j]).0 != index,
        },
    decreases calls.len(),
{
    if calls.len() > 0 && calls.last().0 != index {
        lemma_call_position(calls.drop_last(), index);
        assert forall|j: int| 0 <= j < calls.len() - 1 implies #[trigger] calls[j]
            == calls.drop_last()[j] by {}
    }
}

proof fn lemma_call_piece(
    calls: Seq<(usize, ToolCallView)>,
    piece: ChunkToolCall,
    index: usize,
)
    ensures
        call_at(nemotron_stream::with_call_piece(calls, piece), index) == (if piece.index
            == index {
            Some(
                nemotron_stream::extended_call(
                    match call_at(calls, index) {
                        Some(call) => call,
                        None => nemotron_stream::unknown_call(),
                    },
                    piece,
                ),
            )
        } else {
            call_at(calls, index)
        }),
        distinct_indexes(calls) ==> distinct_indexes(
            nemotron_stream::with_call_piece(calls, piece),
        ),
{
    let after = nemotron_stream::with_call_piece(calls, piece);
    lemma_call_position(calls, piece.index);
    lemma_call_position(calls, index);
    lemma_call_position(after, index);
    match nemotron_stream::call_position(calls, index) {
        Some(i) => {
            assert(after[i].0 == index);
        },
        None => {},
    }
}

/// A call with more pieces, those of its index among the given ones.
pub open spec fn call_with_pieces(
    call: Option<ToolCallView>,
    pieces: Seq<ChunkToolCall>,
    index: usize,
) -> Option<ToolCallView>
    decreases pieces.len(),
{
    if pieces.len() == 0 {
        call
    } else {
        let before = call_with_pieces(call, pieces.drop_last(), index);
        let piece = pieces.last();
        if piece.index == index {
            Some(
                nemotron_stream::extended_call(
                    match before {
                        Some(known) => known,
                        None => nemotron_stream::unknown_call(),
                    },
                    piece,
                ),
            )
        } else {
            before
        }
    }
}

proof fn lemma_call_pieces(
    calls: Seq<(usize, ToolCallView)>,
    pieces: Seq<ChunkToolCall>,
    index: usize,
)
    ensures
        call_at(nemotron_stream::with_call_pieces(calls, pieces), index) == call_with_pieces(
            call_at(calls, index),
            pieces,
            index,
        ),
        distinct_indexes(calls) ==> distinct_indexes(
            nemotron_stream::with_call_pieces(calls, pieces),
        ),
    decreases pieces.len(),
{
    if pieces.len() > 0 {
        lemma_call_pieces(calls, pieces.drop_last(), index);
        lemma_call_piece(
            nemotron_stream::with_call_pieces(calls, pieces.drop_last()),
            pieces.last(),
            index,
        );
    }
}

/// The pieces of tool calls in the choices of a chunk.
pub open spec fn choices_pieces(choices: Seq<ChunkChoice>) -> Seq<ChunkToolCall>
    decreases choices.len(),
{
    if choices.len() == 0 {
        seq![]
    } else {
        choices_pieces(choices.drop_last()) + (match choices.last().delta.tool_calls {
            Some(pieces) => pieces@,
            None => seq![],
        })
    }
}

/// The pieces of tool calls in a run of inputs.
pub open spec fn call_pieces(inputs: Seq<NemotronInput>) -> Seq<ChunkToolCall>
    decreases inputs.len(),
{
    if inputs.len() == 0 {
        seq![]
    } else {
        call_pieces(inputs.drop_last()) + (match inputs.last() {
            NemotronInput::Chunk(chunk) => choices_pieces(chunk.choices@),
            _ => seq![],
        })
    }
}

/// No choice says that the tool calls are complete.
pub open spec fn calls_go_on(choices: Seq<ChunkChoice>) -> bool {
    forall|i: int|
        0 <= i < choices.len() ==> !((#[trigger] choices[i]).finish_reason matches Some(reason)
            && reason@ == "tool_calls"@)
}

proof fn lemma_call_with_pieces_concat(
    call: Option<ToolCallView>,
    a: Seq<ChunkToolCall>,
    b: Seq<ChunkToolCall>,
    index: usize,
)
    ensures
        call_with_pieces(call, a + b, index) == call_with_pieces(
            call_with_pieces(call, a, index),
            b,
            index,
        ),
    decreases b.len(),
{
    if b.len() == 0 {
        assert(a + b =~= a);
    } else {
        assert((a + b).drop_last() =~= a + b.drop_last());
        lemma_call_with_pieces_concat(call, a, b.drop_last(), index);
    }
}

proof fn lemma_choices_calls(s: NemotronState, choices: Seq<ChunkChoice>, index: usize)
    requires
        calls_go_on(choices),
    ensures
        call_at(nemotron_stream::choices_step(s, choices).0.tool_calls, index) == call_with_pieces(
            call_at(s.tool_calls, index),
            choices_pieces(choices),
            index,
        ),
    decreases choices.len(),
{
    if choices.len() > 0 {
        let front = choices.drop_last();
        let last = choices.last();
        let before = nemotron_stream::choices_step(s, front).0;
        let pieces = match last.delta.tool_calls {
            Some(pieces) => pieces@,
            None => seq![],
        };
        assert(calls_go_on(front)) by {
            assert forall|i: int| 0 <= i < front.len() implies !((
            #[trigger] front[i]).finish_reason matches Some(reason) && reason@
                == "tool_calls"@) by {
                assert(front[i] == choices[i]);
            }
        }
        assert(choices[choices.len() - 1] == last);
        lemma_choices_calls(s, front, index);
        lemma_call_pieces(before.tool_calls, pieces, index);
        lemma_call_with_pieces_concat(
            call_at(s.tool_calls, index),
            choices_pieces(front),
            pieces,
            index,
        );
    }
}

/// A tool call is put together from its pieces, in the order in which they came, whatever comes
/// in between: as long as the tool calls are not said to be complete, the call with an index is
/// what it was, extended by the pieces that bear its index.
pub proof fn law_tool_calls_take_in_their_pieces(
    s: NemotronState,
    inputs: Seq<NemotronInput>,
    index: usize,
)
    requires
        !run(s, inputs).0.finished,
        forall|i: int|
            0 <= i < inputs.len() ==> (#[trigger] inputs[i] matches NemotronInput::Chunk(chunk)
                ==> calls_go_on(chunk.choices@)),
    ensures
        call_at(run(s, inputs).0.tool_calls, index) == call_with_pieces(
            call_at(s.tool_calls, index),
            call_pieces(inputs),
            index,
        ),
    decreases inputs.len(),
{
    if inputs.len() > 0 {
        let front = inputs.drop_last();
        let last = inputs.last();
        let mid = run(s, front).0;
        if mid.finished {
            law_finished_stays(s, inputs);
        }
        assert forall|i: int| 0 <= i < front.len() implies (
        #[trigger] front[i] matches NemotronInput::Chunk(chunk) ==> calls_go_on(
            chunk.choices@,
        )) by {
            assert(front[i] == inputs[i]);
        }
        assert(inputs[inputs.len() - 1] == last);
        law_tool_calls_take_in_their_pieces(s, front, index);
        match last {
            NemotronInput::Chunk(chunk) => {
                lemma_choices_calls(
                    nemotron_stream::head_step(mid, chunk).0,
                    chunk.choices@,
                    index,
                );
                lemma_call_with_pieces_concat(
                    call_at(s.tool_calls, index),
                    call_pieces(front),
                    choices_pieces(chunk.choices@),
                    index,
                );
            },
            NemotronInput::Unreadable => {
                assert(call_pieces(inputs) =~= call_pieces(front));
            },
            NemotronInput::Done => {
                lemma_step_bounds(mid, last);
            },
            NemotronInput::Closed => {
                lemma_step_bounds(mid, last);
            },
            _ => {},
        }
    }
}

/// The arguments that the pieces add to the call with an index, put together.
pub open spec fn argument_pieces(pieces: Seq<ChunkToolCall>, index: usize) -> Seq<char>
    decreases pieces.len(),
{
    if pieces.len() == 0 {
        seq![]
    } else {
        argument_pieces(pieces.drop_last(), index) + (match pieces.last().function {
            Some(function) => match function.arguments {
                Some(arguments) => if pieces.last().index == index {
                    arguments@
                } else {
                    seq![]
                },
                None => seq![],
            },
            None => seq![],
        })
    }
}

/// The arguments of a call are those of its pieces, put together.
pub proof fn law_arguments_are_put_together(
    call: ToolCallView,
    pieces: Seq<ChunkToolCall>,
    index: usize,
)
    ensures
        call_with_pieces(Some(call), pieces, index) is Some,
        call_with_pieces(Some(call), pieces, index)->0.arguments == call.arguments
            + argument_pieces(pieces, index),
    decreases pieces.len(),
{
    if pieces.len() > 0 {
        law_arguments_are_put_together(call, pieces.drop_last(), index);
    }
    assert(call_with_pieces(Some(call), pieces, index)->0.arguments =~= call.arguments
        + argument_pieces(pieces, index));
}

proof fn lemma_choices_distinct(s: NemotronState, choices: Seq<ChunkChoice>)
    requires
        distinct_indexes(s.tool_calls),
    ensures
        distinct_indexes(nemotron_stream::choices_step(s, choices).0.tool_calls),
    decreases choices.len(),
{
    if choices.len() > 0 {
        lemma_choices_distinct(s, choices.drop_last());
        let before = nemotron_stream::choices_step(s, choices.drop_last()).0;
        if let Some(pieces) = choices.last().delta.tool_calls {
            lemma_call_pieces(before.tool_calls, pieces@, 0);
        }
    }
}

/// No two tool calls of one index are kept at a time.
pub proof fn law_call_indexes_are_distinct(inputs: Seq<NemotronInput>)
    ensures
        distinct_indexes(run(nemotron_stream::nemotron_start(), inputs).0.tool_calls),
    decreases inputs.len(),
{
    if inputs.len() > 0 {
        law_call_indexes_are_distinct(inputs.drop_last());
        let mid = run(nemotron_stream::nemotron_start(), inputs.drop_last()).0;
        if let NemotronInput::Chunk(chunk) = inputs.last() {
            lemma_choices_distinct(nemotron_stream::head_step(mid, chunk).0, chunk.choices@);
        }
    }
}

/// The function calls among the sendings.
pub open spec fn function_calls(out: Seq<sent::SentView>) -> Seq<sent::SentView> {
    out.filter(
        |r: sent::SentView|
            r matches Ok(ResponseEventView::OutputItemDone(item)) && item is FunctionCall,
    )
}

/// When the tool calls are complete, each of them is sent, once and in order, and none is kept:
/// they are not sent again.
pub proof fn law_complete_calls_are_sent_once(s: NemotronState)
    ensures
        function_calls(nemotron_stream::calls_step(s).1) == nemotron_stream::calls_sent(
            s.tool_calls,
        ),
        nemotron_stream::calls_step(s).0.tool_calls.len() == 0,
        !s.finished ==> nemotron_stream::step(s, NemotronInput::Done).0.tool_calls.len() == 0,
        !s.finished ==> function_calls(nemotron_stream::step(s, NemotronInput::Done).1)
            == nemotron_stream::calls_sent(s.tool_calls),
{
    let flushed = nemotron_stream::flush_step(s);
    let calls = nemotron_stream::calls_step(flushed.0);
    let called = nemotron_stream::both(flushed, calls);
    let close = nemotron_stream::close_step(called.0);
    let closed = nemotron_stream::both(called, close);
    let end = nemotron_stream::complete_step(closed.0);
    let sendings = nemotron_stream::calls_sent(s.tool_calls);
    lemma_calls_among(s);
    lemma_calls_among(flushed.0);
    lemma_no_calls_among(flushed.1);
    lemma_no_calls_among(close.1);
    lemma_no_calls_among(end.1);
    lemma_function_calls_concat(flushed.1, calls.1);
    lemma_function_calls_concat(called.1, close.1);
    lemma_function_calls_concat(closed.1, end.1);
    if !s.finished {
        assert(function_calls(nemotron_stream::step(s, NemotronInput::Done).1) =~= sendings);
    }
}

proof fn lemma_function_calls_concat(a: Seq<sent::SentView>, b: Seq<sent::SentView>)
    ensures
        function_calls(a + b) == function_calls(a) + function_calls(b),
{
    Seq::filter_distributes_over_add(
        a,
        b,
        |r: sent::SentView|
            r matches Ok(ResponseEventView::OutputItemDone(item)) && item is FunctionCall,
    );
}

proof fn lemma_no_calls_among(out: Seq<sent::SentView>)
    requires
        forall|i: int|
            0 <= i < out.len() ==> !(#[trigger] out[i] matches Ok(
                ResponseEventView::OutputItemDone(item),
            ) && item is FunctionCall),
    ensures
        function_calls(out) == Seq::<sent::SentView>::empty(),
    decreases out.len(),
{
    reveal(Seq::filter);
    if out.len() > 0 {
        let front = out.drop_last();
        assert forall|i: int| 0 <= i < front.len() implies !(#[trigger] front[i] matches Ok(
            ResponseEventView::OutputItemDone(item),
        ) && item is FunctionCall) by {
            assert(front[i] == out[i]);
        }
        lemma_no_calls_among(front);
        assert(out.last() == out[out.len() - 1]);
    }
}

proof fn lemma_all_calls(calls: Seq<(usize, ToolCallView)>)
    ensures
        function_calls(nemotron_stream::calls_sent(calls)) == nemotron_stream::calls_sent(calls),
    decreases calls.len(),
{
    reveal(Seq::filter);
    let out = nemotron_stream::calls_sent(calls);
    if calls.len() > 0 {
        assert(out.drop_last() =~= nemotron_stream::calls_sent(calls.drop_last()));
        lemma_all_calls(calls.drop_last());
    }
    assert(function_calls(out) =~= out);
}

proof fn lemma_calls_among(s: NemotronState)
    ensures
        function_calls(nemotron_stream::calls_step(s).1) == nemotron_stream::calls_sent(
            s.tool_calls,
        ),
{
    let done = sent::message_done(s.open_message);
    let calls = nemotron_stream::calls_sent(s.tool_calls);
    lemma_no_calls_among(done);
    lemma_all_calls(s.tool_calls);
    lemma_function_calls_concat(done, calls);
    assert(function_calls(nemotron_stream::calls_step(s).1) =~= calls);
}

} // verus!
