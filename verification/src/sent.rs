//! What a stream processor sends to the agent: events, and an error where the stream breaks off.

use crate::error::{CodexErr, CodexErrView};
use crate::models::{
    ContentItem, ContentItemView, ResponseEvent, ResponseEventView, ResponseItem, ResponseItemView,
};
use vstd::prelude::*;

verus! {

/// What one sending holds.
pub type SentView = Result<ResponseEventView, CodexErrView>;

/// What one sending holds.
pub open spec fn sent_one(r: Result<ResponseEvent, CodexErr>) -> SentView {
    match r {
        Ok(event) => Ok(event.deep_view()),
        Err(e) => Err(e.deep_view()),
    }
}

/// What the sendings hold, in order.
pub open spec fn sent(out: Seq<Result<ResponseEvent, CodexErr>>) -> Seq<SentView> {
    out.map_values(|r: Result<ResponseEvent, CodexErr>| sent_one(r))
}

/// The message of the assistant with the given content.
pub open spec fn assistant_message(content: Seq<ContentItemView>) -> ResponseItemView {
    ResponseItemView::Message {
        id: None,
        role: "assistant"@,
        content,
        end_turn: None,
        phase: None,
    }
}

/// A call of a function by the model.
pub open spec fn function_call_item(
    name: Seq<char>,
    arguments: Seq<char>,
    call_id: Seq<char>,
) -> ResponseItemView {
    ResponseItemView::FunctionCall { id: None, name, namespace: None, arguments, call_id }
}

/// The end of the open message, if there is one.
pub open spec fn message_done(open: Option<Seq<ContentItemView>>) -> Seq<SentView> {
    match open {
        Some(content) => seq![
            Ok(ResponseEventView::OutputItemDone(assistant_message(content))),
        ],
        None => seq![],
    }
}

/// Sends an event.
pub fn send(out: &mut Vec<Result<ResponseEvent, CodexErr>>, event: ResponseEvent)
    ensures
        sent(final(out)@) == sent(old(out)@).push(Ok(event.deep_view())),
{
    let ghost before = sent(out@);
    out.push(Ok(event));
    assert(sent(out@) =~= before.push(Ok(event.deep_view())));
}

/// Sends an error.
pub fn send_error(out: &mut Vec<Result<ResponseEvent, CodexErr>>, error: CodexErr)
    ensures
        sent(final(out)@) == sent(old(out)@).push(Err(error.deep_view())),
{
    let ghost before = sent(out@);
    out.push(Err(error));
    assert(sent(out@) =~= before.push(Err(error.deep_view())));
}

/// The message of the assistant with the given content.
pub fn make_message(content: Vec<ContentItem>) -> (item: ResponseItem)
    ensures
        item.deep_view() == assistant_message(content.deep_view()),
{
    ResponseItem::Message {
        id: None,
        role: "assistant".to_string(),
        content,
        end_turn: None,
        phase: None,
    }
}

/// Closes the open message, if there is one, and sends it.
pub fn finish_message(
    out: &mut Vec<Result<ResponseEvent, CodexErr>>,
    open: &mut Option<Vec<ContentItem>>,
)
    ensures
        *final(open) == None::<Vec<ContentItem>>,
        sent(final(out)@) == sent(old(out)@) + message_done(old(open).deep_view()),
{
    let ghost before = sent(out@);
    match open.take() {
        Some(content) => {
            send(out, ResponseEvent::OutputItemDone(make_message(content)));
        },
        None => {},
    }
    assert(sent(out@) =~= before + message_done(old(open).deep_view()));
}

/// Opens a message, unless one is open, and announces it.
pub fn begin_message(
    out: &mut Vec<Result<ResponseEvent, CodexErr>>,
    open: &mut Option<Vec<ContentItem>>,
)
    ensures
        final(open).deep_view() == Some(
            match old(open).deep_view() {
                Some(content) => content,
                None => seq![],
            },
        ),
        sent(final(out)@) == sent(old(out)@) + (match old(open).deep_view() {
            Some(_) => seq![],
            None => seq![
                Ok::<ResponseEventView, CodexErrView>(
                    ResponseEventView::OutputItemAdded(assistant_message(seq![])),
                ),
            ],
        }),
{
    let ghost before = sent(out@);
    if open.is_none() {
        let content: Vec<ContentItem> = Vec::new();
        assert(content.deep_view() =~= seq![]);
        *open = Some(Vec::new());
        assert(open->Some_0.deep_view() =~= seq![]);
        send(out, ResponseEvent::OutputItemAdded(make_message(content)));
    }
    assert(sent(out@) =~= before + (match old(open).deep_view() {
        Some(_) => seq![],
        None => seq![
            Ok::<ResponseEventView, CodexErrView>(
                ResponseEventView::OutputItemAdded(assistant_message(seq![])),
            ),
        ],
    }));
}

/// The content with a piece of text of the assistant behind it.
pub open spec fn with_text(open: Option<Seq<ContentItemView>>, t: Seq<char>) -> Option<
    Seq<ContentItemView>,
> {
    match open {
        Some(content) => Some(content.push(ContentItemView::OutputText { text: t })),
        None => None,
    }
}

/// Sends a piece of text, and adds it to the open message, if there is one.
pub fn send_text(
    out: &mut Vec<Result<ResponseEvent, CodexErr>>,
    open: &mut Option<Vec<ContentItem>>,
    t: String,
)
    ensures
        final(open).deep_view() == with_text(old(open).deep_view(), t@),
        sent(final(out)@) == sent(old(out)@).push(Ok(ResponseEventView::OutputTextDelta(t@))),
{
    match open.take() {
        Some(content) => {
            let mut content = content;
            let ghost before = content.deep_view();
            content.push(ContentItem::OutputText { text: t.clone() });
            assert(content.deep_view() =~= before.push(ContentItemView::OutputText { text: t@ }));
            *open = Some(content);
        },
        None => {},
    }
    send(out, ResponseEvent::OutputTextDelta(t));
}

/// A sending that ends the response.
pub open spec fn ending(r: SentView) -> bool {
    match r {
        Ok(ResponseEventView::Completed { .. }) => true,
        Ok(_) => false,
        Err(_) => true,
    }
}

/// The content of the message that the sendings leave open: what was sent as text since it was
/// announced.
pub open spec fn streamed_text(out: Seq<SentView>) -> Option<Seq<ContentItemView>>
    decreases out.len(),
{
    if out.len() == 0 {
        None
    } else {
        let before = streamed_text(out.drop_last());
        match out.last() {
            Ok(ResponseEventView::OutputItemAdded(ResponseItemView::Message { .. })) => Some(
                seq![],
            ),
            Ok(ResponseEventView::OutputItemDone(ResponseItemView::Message { .. })) => None,
            Ok(ResponseEventView::OutputTextDelta(t)) => with_text(before, t),
            _ => before,
        }
    }
}

/// A message is announced empty and only while none is open; every finished message was open, and
/// has the text that was streamed for it.
pub open spec fn messages_hold_streamed_text(out: Seq<SentView>) -> bool {
    forall|i: int|
        0 <= i < out.len() ==> match #[trigger] out[i] {
            Ok(
                ResponseEventView::OutputItemDone(
                    ResponseItemView::Message { id, role, content, end_turn, phase },
                ),
            ) => {
                &&& streamed_text(out.take(i)) == Some(content)
                &&& ResponseItemView::Message { id, role, content, end_turn, phase }
                    == assistant_message(content)
            },
            Ok(
                ResponseEventView::OutputItemAdded(
                    ResponseItemView::Message { id, role, content, end_turn, phase },
                ),
            ) => {
                &&& streamed_text(out.take(i)) is None
                &&& ResponseItemView::Message { id, role, content, end_turn, phase }
                    == assistant_message(seq![])
            },
            _ => true,
        }
}

pub proof fn lemma_streamed_text_push(out: Seq<SentView>, r: SentView)
    ensures
        streamed_text(out.push(r)) == match r {
            Ok(ResponseEventView::OutputItemAdded(ResponseItemView::Message { .. })) => Some(
                Seq::<ContentItemView>::empty(),
            ),
            Ok(ResponseEventView::OutputItemDone(ResponseItemView::Message { .. })) => None,
            Ok(ResponseEventView::OutputTextDelta(t)) => with_text(streamed_text(out), t),
            _ => streamed_text(out),
        },
{
    assert(out.push(r).drop_last() =~= out);
}

pub proof fn lemma_holds_push(out: Seq<SentView>, r: SentView)
    requires
        messages_hold_streamed_text(out),
        match r {
            Ok(
                ResponseEventView::OutputItemDone(
                    ResponseItemView::Message { id, role, content, end_turn, phase },
                ),
            ) => {
                &&& streamed_text(out) == Some(content)
                &&& ResponseItemView::Message { id, role, content, end_turn, phase }
                    == assistant_message(content)
            },
            Ok(
                ResponseEventView::OutputItemAdded(
                    ResponseItemView::Message { id, role, content, end_turn, phase },
                ),
            ) => {
                &&& streamed_text(out) is None
                &&& ResponseItemView::Message { id, role, content, end_turn, phase }
                    == assistant_message(seq![])
            },
            _ => true,
        },
    ensures
        messages_hold_streamed_text(out.push(r)),
{
    let all = out.push(r);
    assert forall|i: int| 0 <= i < all.len() implies match #[trigger] all[i] {
        Ok(
            ResponseEventView::OutputItemDone(
                ResponseItemView::Message { id, role, content, end_turn, phase },
            ),
        ) => {
            &&& streamed_text(all.take(i)) == Some(content)
            &&& ResponseItemView::Message { id, role, content, end_turn, phase }
                == assistant_message(content)
        },
        Ok(
            ResponseEventView::OutputItemAdded(
                ResponseItemView::Message { id, role, content, end_turn, phase },
            ),
        ) => {
            &&& streamed_text(all.take(i)) is None
            &&& ResponseItemView::Message { id, role, content, end_turn, phase }
                == assistant_message(seq![])
        },
        _ => true,
    } by {
        if i < out.len() {
            assert(all.take(i) =~= out.take(i));
            assert(all[i] == out[i]);
        } else {
            assert(all.take(i) =~= out);
        }
    }
}

/// A sending that announces or finishes a message.
pub open spec fn bounds_message(r: SentView) -> bool {
    match r {
        Ok(ResponseEventView::OutputItemAdded(item)) => item is Message,
        Ok(ResponseEventView::OutputItemDone(item)) => item is Message,
        _ => false,
    }
}

/// What was sent as text, piece by piece.
pub open spec fn output_texts(out: Seq<SentView>) -> Seq<ContentItemView>
    decreases out.len(),
{
    if out.len() == 0 {
        seq![]
    } else {
        let before = output_texts(out.drop_last());
        match out.last() {
            Ok(ResponseEventView::OutputTextDelta(t)) => before.push(
                ContentItemView::OutputText { text: t },
            ),
            _ => before,
        }
    }
}

/// The sending at `k` announces a message, empty as yet, and up to `i` no message is announced
/// or finished.
pub open spec fn open_since(out: Seq<SentView>, k: int, i: int) -> bool {
    &&& 0 <= k < i <= out.len()
    &&& out[k] == Ok::<ResponseEventView, CodexErrView>(
        ResponseEventView::OutputItemAdded(assistant_message(seq![])),
    )
    &&& forall|j: int| k < j < i ==> !bounds_message(#[trigger] out[j])
}

/// The sending at `i` finishes a message that was announced before, with the pieces of text that
/// were sent in between, each as it was sent.
pub open spec fn finishes_what_was_streamed(out: Seq<SentView>, i: int) -> bool {
    exists|k: int| #[trigger]
        open_since(out, k, i) && out[i] == Ok::<ResponseEventView, CodexErrView>(
            ResponseEventView::OutputItemDone(
                assistant_message(output_texts(out.subrange(k + 1, i))),
            ),
        )
}

/// Every finished message was announced before, and holds what was sent as text in between.
pub open spec fn messages_are_what_was_streamed(out: Seq<SentView>) -> bool {
    forall|i: int|
        0 <= i < out.len() && (#[trigger] out[i] matches Ok(
            ResponseEventView::OutputItemDone(item),
        ) && item is Message) ==> finishes_what_was_streamed(out, i)
}

/// A message that is open after `i` sendings was announced by one of them.
proof fn lemma_open_since(out: Seq<SentView>, i: int) -> (k: int)
    requires
        messages_hold_streamed_text(out),
        0 <= i <= out.len(),
        streamed_text(out.take(i)) is Some,
    ensures
        open_since(out, k, i),
        streamed_text(out.take(i)) == Some(output_texts(out.subrange(k + 1, i))),
    decreases i,
{
    let r = out[i - 1];
    assert(out.take(i).drop_last() =~= out.take(i - 1));
    assert(out.take(i).last() == r);
    if bounds_message(r) {
        assert(out.subrange(i, i) =~= seq![]);
        i - 1
    } else {
        let k = lemma_open_since(out, i - 1);
        assert(out.subrange(k + 1, i).drop_last() =~= out.subrange(k + 1, i - 1));
        assert(out.subrange(k + 1, i).last() == r);
        k
    }
}

pub proof fn lemma_messages_are_what_was_streamed(out: Seq<SentView>)
    requires
        messages_hold_streamed_text(out),
    ensures
        messages_are_what_was_streamed(out),
{
    assert forall|i: int|
        0 <= i < out.len() && (#[trigger] out[i] matches Ok(
            ResponseEventView::OutputItemDone(item),
        ) && item is Message) implies finishes_what_was_streamed(out, i) by {
        let k = lemma_open_since(out, i);
        assert(open_since(out, k, i));
    }
}

} // verus!
