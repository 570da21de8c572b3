//! What the pieces of a conversation say, stated on the pieces themselves.

use crate::conversation;
use crate::models::{ContentItem, FunctionCallOutputContentItem, FunctionCallOutputPayload};
use crate::text;
use vstd::prelude::*;

verus! {

/// Every character is white space; there may be none.
pub open spec fn nothing_to_read(s: Seq<char>) -> bool {
    forall|i: int| 0 <= i < s.len() ==> text::white_space(#[trigger] s[i])
}

/// An optional text, with the empty text for none.
pub open spec fn text_if_any(s: Option<String>) -> Seq<char> {
    if s is Some {
        s->0@
    } else {
        seq![]
    }
}

/// A piece of tool output as a text; an image is named by its address in brackets.
pub open spec fn piece_of_output(item: FunctionCallOutputContentItem) -> Seq<char> {
    match item {
        FunctionCallOutputContentItem::InputText { text } => text@,
        FunctionCallOutputContentItem::InputImage { image_url } => "[Image: "@ + image_url@ + "]"@,
    }
}

/// Pieces of tool output, each on a line of its own.
pub open spec fn lines(items: Seq<FunctionCallOutputContentItem>) -> Seq<char>
    decreases items.len(),
{
    if items.len() == 0 {
        seq![]
    } else if items.len() == 1 {
        piece_of_output(items[0])
    } else {
        lines(items.drop_last()) + "\n"@ + piece_of_output(items.last())
    }
}

/// What a tool said: its pieces, each on a line of its own, or else its text, if any.
pub open spec fn said_by_tool(output: FunctionCallOutputPayload) -> Seq<char> {
    if output.content_items is Some {
        lines(output.content_items->0@)
    } else {
        text_if_any(output.text_content)
    }
}

proof fn lemma_lines(items: Seq<FunctionCallOutputContentItem>)
    ensures
        text::joined(
            items.map_values(
                |item: FunctionCallOutputContentItem| conversation::output_item_text(item),
            ),
            "\n"@,
        ) == lines(items),
    decreases items.len(),
{
    let parts = items.map_values(
        |item: FunctionCallOutputContentItem| conversation::output_item_text(item),
    );
    if items.len() > 1 {
        assert(parts.drop_last() =~= items.drop_last().map_values(
            |item: FunctionCallOutputContentItem| conversation::output_item_text(item),
        ));
        lemma_lines(items.drop_last());
    }
}

/// The text of a tool output is every piece of it, in order, each on a line of its own.
pub proof fn law_a_tool_output_is_all_that_the_tool_said(output: FunctionCallOutputPayload)
    ensures
        conversation::output_text(output) == said_by_tool(output),
{
    if output.content_items is Some {
        lemma_lines(output.content_items->0@);
    }
}

/// An optional text is the text, or nothing.
pub proof fn law_an_optional_text_is_itself_or_nothing(s: Option<String>)
    ensures
        conversation::or_empty(s) == text_if_any(s),
{
}

/// A message of the assistant goes out as one, instructions do not go out, and every other
/// message is one of the user.
pub proof fn law_who_is_speaking(role: Seq<char>)
    ensures
        role == "assistant"@ ==> conversation::wire_role(role) == Some("assistant"@),
        role == "system"@ ==> conversation::wire_role(role) is None,
        role != "assistant"@ && role != "system"@ ==> conversation::wire_role(role) == Some(
            "user"@,
        ),
{
    reveal_strlit("assistant");
    reveal_strlit("system");
    assert("assistant"@.len() != "system"@.len());
}

/// A shell call has the id of the call, or where there is none that of the item, if any.
pub proof fn law_the_id_of_a_shell_call(call_id: Option<String>, id: Option<String>)
    ensures
        call_id is Some ==> conversation::shell_call_id(call_id, id) == call_id->0@,
        call_id is None ==> conversation::shell_call_id(call_id, id) == text_if_any(id),
{
}

/// The texts of a content, one behind the other; `image` says what stands for an image.
pub open spec fn all_text(content: Seq<ContentItem>, image: spec_fn(Seq<char>) -> Seq<char>) -> Seq<
    char,
>
    decreases content.len(),
{
    if content.len() == 0 {
        seq![]
    } else {
        all_text(content.drop_last(), image) + (match content.last() {
            ContentItem::InputText { text } => text@,
            ContentItem::OutputText { text } => text@,
            ContentItem::InputImage { image_url } => image(image_url@),
        })
    }
}

} // verus!
