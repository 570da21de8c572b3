//! What both providers make of the pieces of a conversation.

use crate::models::{FunctionCallOutputContentItem, FunctionCallOutputPayload, ResponseItem};
use crate::text;
use vstd::prelude::*;

verus! {

/// The role that a message goes out under. Instructions do not go out here: the
/// instructions of the prompt are sent separately.
pub open spec fn wire_role(role: Seq<char>) -> Option<Seq<char>> {
    if role == "assistant"@ {
        Some("assistant"@)
    } else if role == "system"@ {
        None
    } else {
        Some("user"@)
    }
}

/// What stands for an image in a text.
pub open spec fn image_note(url: Seq<char>) -> Seq<char> {
    "[Image: "@ + url + "]"@
}

/// The text of a piece of tool output.
pub open spec fn output_item_text(item: FunctionCallOutputContentItem) -> Seq<char> {
    match item {
        FunctionCallOutputContentItem::InputText { text } => text@,
        FunctionCallOutputContentItem::InputImage { image_url } => image_note(image_url@),
    }
}

/// An optional text, with the empty text for none.
pub open spec fn or_empty(s: Option<String>) -> Seq<char> {
    match s {
        Some(s) => s@,
        None => seq![],
    }
}

/// The id of a shell call: that of the call, or else that of the item, or else none.
pub open spec fn shell_call_id(call_id: Option<String>, id: Option<String>) -> Seq<char> {
    match call_id {
        Some(c) => c@,
        None => or_empty(id),
    }
}

/// The id of a tool call. The result of the tool carries it again.
pub open spec fn call_id_of(item: ResponseItem) -> Option<Seq<char>> {
    match item {
        ResponseItem::FunctionCall { call_id, .. } => Some(call_id@),
        ResponseItem::LocalShellCall { id, call_id, .. } => Some(shell_call_id(call_id, id)),
        ResponseItem::CustomToolCall { call_id, .. } => Some(call_id@),
        _ => None,
    }
}

/// The result of a tool as it goes out: the id of the call, and the text.
pub struct SentResult {
    pub call_id: Seq<char>,
    pub text: Seq<char>,
}

/// The result of a tool that an item is, as it goes out.
pub open spec fn sent_result(item: ResponseItem) -> Option<SentResult> {
    match item {
        ResponseItem::FunctionCallOutput { call_id, output } => Some(
            SentResult { call_id: call_id@, text: output_text(output) },
        ),
        ResponseItem::CustomToolCallOutput { call_id, output } => Some(
            SentResult { call_id: call_id@, text: or_empty(output.text_content) },
        ),
        _ => None,
    }
}

/// An item is the result of a call: it names the id of the call.
pub open spec fn result_of(result: ResponseItem, call: ResponseItem) -> bool {
    &&& call_id_of(call) is Some
    &&& sent_result(result) is Some
    &&& sent_result(result)->0.call_id == call_id_of(call)->0
}

/// The text of a tool output: its pieces, one to a line, or else its text.
pub open spec fn output_text(output: FunctionCallOutputPayload) -> Seq<char> {
    match output.content_items {
        Some(items) => text::joined(
            items@.map_values(|item: FunctionCallOutputContentItem| output_item_text(item)),
            "\n"@,
        ),
        None => or_empty(output.text_content),
    }
}

/// What stands for an image in a text.
pub fn note_image(url: &str) -> (note: String)
    ensures
        note@ == image_note(url@),
{
    text::concat3("[Image: ", url, "]")
}

/// A copy of an optional text, with the empty text for none.
pub fn text_or_empty(s: &Option<String>) -> (res: String)
    ensures
        res@ == or_empty(*s),
{
    match s {
        Some(s) => s.clone(),
        None => String::new(),
    }
}

/// The id of a shell call: that of the call, or else that of the item, or else none.
pub fn shell_call_id_of(call_id: &Option<String>, id: &Option<String>) -> (res: String)
    ensures
        res@ == shell_call_id(*call_id, *id),
{
    match call_id {
        Some(c) => c.clone(),
        None => text_or_empty(id),
    }
}

/// The text of a tool output: its pieces, one to a line, or else its text.
pub fn function_output_text(output: &FunctionCallOutputPayload) -> (res: String)
    ensures
        res@ == output_text(*output),
{
    match &output.content_items {
        Some(items) => {
            let ghost parts = items@.map_values(
                |item: FunctionCallOutputContentItem| output_item_text(item),
            );
            let mut res = String::new();
            let mut i: usize = 0;
            assert(res@ =~= text::joined(parts.take(0), "\n"@));
            while i < items.len()
                invariant
                    parts == items@.map_values(
                        |item: FunctionCallOutputContentItem| output_item_text(item),
                    ),
                    i <= items@.len(),
                    res@ == text::joined(parts.take(i as int), "\n"@),
                decreases items.len() - i,
            {
                let part = match &items[i] {
                    FunctionCallOutputContentItem::InputText { text } => text.clone(),
                    FunctionCallOutputContentItem::InputImage { image_url } => note_image(
                        image_url.as_str(),
                    ),
                };
                assert(part@ == parts[i as int]);
                assert(parts.take(i + 1).drop_last() =~= parts.take(i as int));
                if i > 0 {
                    res.append("\n");
                    res.append(part.as_str());
                    assert(res@ =~= text::joined(parts.take(i + 1), "\n"@));
                } else {
                    res.append(part.as_str());
                    assert(res@ =~= text::joined(parts.take(i + 1), "\n"@));
                }
                i += 1;
            }
            assert(parts.take(i as int) =~= parts);
            res
        },
        None => text_or_empty(&output.text_content),
    }
}

} // verus!
