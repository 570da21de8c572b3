//! What is said of the sendings holds of what is sent.

use crate::error::{CodexErr, CodexErrView};
use crate::models::{
    ContentItem, ContentItemView, ResponseEvent, ResponseEventView, ResponseItem, ResponseItemView,
};
use crate::sent;
use vstd::prelude::*;

verus! {

/// A piece of content is told as it is.
pub open spec fn told_content(c: ContentItem, view: ContentItemView) -> bool {
    match c {
        ContentItem::InputText { text } => view == (ContentItemView::InputText { text: text@ }),
        ContentItem::InputImage { image_url } => view == (ContentItemView::InputImage {
            image_url: image_url@,
        }),
        ContentItem::OutputText { text } => view == (ContentItemView::OutputText { text: text@ }),
    }
}

/// A message or a function call is told as it is.
pub open spec fn told_item(item: ResponseItem, view: ResponseItemView) -> bool {
    match item {
        ResponseItem::Message { id, role, content, end_turn, phase } => {
            &&& view is Message
            &&& view->Message_role == role@
            &&& view->Message_content.len() == content@.len()
            &&& forall|i: int|
                0 <= i < content@.len() ==> told_content(
                    content@[i],
                    #[trigger] view->Message_content[i],
                )
        },
        ResponseItem::FunctionCall { id, name, namespace, arguments, call_id } => {
            &&& view is FunctionCall
            &&& view->FunctionCall_name == name@
            &&& view->FunctionCall_arguments == arguments@
            &&& view->FunctionCall_call_id == call_id@
        },
        _ => !(view is Message) && !(view is FunctionCall),
    }
}

/// A sending is told as it is.
pub open spec fn told_sending(r: Result<ResponseEvent, CodexErr>, view: sent::SentView) -> bool {
    match r {
        Ok(ResponseEvent::Created) => view == Ok::<ResponseEventView, CodexErrView>(
            ResponseEventView::Created,
        ),
        Ok(ResponseEvent::OutputItemAdded(item)) => {
            view matches Ok(ResponseEventView::OutputItemAdded(v)) && told_item(item, v)
        },
        Ok(ResponseEvent::OutputItemDone(item)) => {
            view matches Ok(ResponseEventView::OutputItemDone(v)) && told_item(item, v)
        },
        Ok(ResponseEvent::OutputTextDelta(t)) => view == Ok::<ResponseEventView, CodexErrView>(
            ResponseEventView::OutputTextDelta(t@),
        ),
        Ok(ResponseEvent::ReasoningContentDelta { delta, content_index }) => view == Ok::<
            ResponseEventView,
            CodexErrView,
        >(ResponseEventView::ReasoningContentDelta { delta: delta@, content_index }),
        Ok(ResponseEvent::Completed { response_id, token_usage }) => view == Ok::<
            ResponseEventView,
            CodexErrView,
        >(ResponseEventView::Completed { response_id: response_id@, token_usage }),
        Ok(ResponseEvent::ServerModel(m)) => view == Ok::<ResponseEventView, CodexErrView>(
            ResponseEventView::ServerModel(m@),
        ),
        Err(CodexErr::UnsupportedOperation(m)) => view == Err::<ResponseEventView, CodexErrView>(
            CodexErrView::UnsupportedOperation(m@),
        ),
        Err(CodexErr::Stream(m)) => view == Err::<ResponseEventView, CodexErrView>(
            CodexErrView::Stream(m@),
        ),
        Err(CodexErr::Json(m)) => view == Err::<ResponseEventView, CodexErrView>(
            CodexErrView::Json(m@),
        ),
    }
}

/// What is told of the sendings is told of each of them, one for one and in order, as it is.
pub proof fn law_sendings_are_told_as_they_are(out: Seq<Result<ResponseEvent, CodexErr>>)
    ensures
        sent::sent(out).len() == out.len(),
        forall|i: int|
            0 <= i < out.len() ==> told_sending(out[i], #[trigger] sent::sent(out)[i]),
{
    assert forall|i: int| 0 <= i < out.len() implies told_sending(
        out[i],
        #[trigger] sent::sent(out)[i],
    ) by {
        match out[i] {
            Ok(ResponseEvent::OutputItemAdded(item)) => {
                lemma_told_item(item);
            },
            Ok(ResponseEvent::OutputItemDone(item)) => {
                lemma_told_item(item);
            },
            _ => {},
        }
    }
}

proof fn lemma_told_item(item: ResponseItem)
    ensures
        told_item(item, item.deep_view()),
{
    if let ResponseItem::Message { content, .. } = item {
        assert forall|i: int| 0 <= i < content@.len() implies told_content(
            content@[i],
            #[trigger] item.deep_view()->Message_content[i],
        ) by {
            assert(content.deep_view()[i] == content@[i].deep_view());
        }
    }
}

} // verus!
