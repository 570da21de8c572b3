//! What a request to the Anthropic Messages API holds, stated on the conversation.

use crate::anthropic;
use crate::anthropic_laws;
use crate::anthropic_types::{
    AnthropicToolView, ContentBlockParam, ContentBlockParamView, MessageContent,
    MessageContentView, MessageParamView, MessagesRequest, MessagesRequestView,
};
use crate::conversation_laws;
use crate::error::CodexErrView;
use crate::json;
use crate::json::JsonTree;
use crate::models::{ContentItem, Prompt, ResponseItem};
use crate::tools::anthropic_tools;
use crate::tools::laws as tools_laws;
use vstd::prelude::*;

verus! {

/// A piece of content that stands for itself; an image is named by its address in brackets.
pub open spec fn piece_text(c: ContentItem) -> Seq<char> {
    match c {
        ContentItem::InputText { text } => text@,
        ContentItem::OutputText { text } => text@,
        ContentItem::InputImage { image_url } => "[Image: "@ + image_url@ + "]"@,
    }
}

/// The message that a message of the conversation becomes: its pieces one by one where an image
/// is among them, or else its text as a whole; none where there is nothing to read.
pub open spec fn own_text_message(role: Seq<char>, content: Seq<ContentItem>) -> Option<
    MessageParamView,
> {
    let text = conversation_laws::all_text(content, |url: Seq<char>| Seq::<char>::empty());
    let pictured = exists|i: int| 0 <= i < content.len() && (#[trigger] content[i]) is InputImage;
    let wire_role = if role == "assistant"@ {
        "assistant"@
    } else {
        "user"@
    };
    if role == "system"@ {
        None
    } else if pictured {
        Some(
            MessageParamView {
                role: wire_role,
                content: MessageContentView::Blocks(
                    Seq::new(
                        content.len(),
                        |i: int| ContentBlockParamView::Text { text: piece_text(content[i]) },
                    ),
                ),
            },
        )
    } else if conversation_laws::nothing_to_read(text) {
        None
    } else {
        Some(MessageParamView { role: wire_role, content: MessageContentView::Text(text) })
    }
}

/// A message of the assistant that is one use of a tool.
pub open spec fn use_of_tool(id: Seq<char>, name: Seq<char>, input: JsonTree) -> MessageParamView {
    MessageParamView {
        role: "assistant"@,
        content: MessageContentView::Blocks(
            seq![ContentBlockParamView::ToolUse { id, name, input }],
        ),
    }
}

/// A message of the user that is one result of a tool.
pub open spec fn result_of_tool(id: Seq<char>, content: Seq<char>) -> MessageParamView {
    MessageParamView {
        role: "user"@,
        content: MessageContentView::Blocks(
            seq![
                ContentBlockParamView::ToolResult {
                    tool_use_id: id,
                    content: Some(content),
                    is_error: None,
                },
            ],
        ),
    }
}

/// The message that an item becomes, if any, stated on the item.
pub open spec fn own_message(item: ResponseItem) -> Result<Option<MessageParamView>, CodexErrView> {
    match item {
        ResponseItem::Message { role, content, .. } => Ok(own_text_message(role@, content@)),
        ResponseItem::FunctionCall { name, arguments, call_id, .. } => match json::json_text(
            arguments@,
        ) {
            Ok(tree) => Ok(Some(use_of_tool(call_id@, name@, tree))),
            Err(message) => Err(
                CodexErrView::UnsupportedOperation(
                    "Invalid JSON in tool arguments for `"@ + name@ + "`: "@ + message,
                ),
            ),
        },
        ResponseItem::CustomToolCall { call_id, name, input, .. } => Ok(
            Some(
                use_of_tool(
                    call_id@,
                    name@,
                    match json::json_text(input@) {
                        Ok(tree) => tree,
                        Err(_) => JsonTree::Object(seq![]),
                    },
                ),
            ),
        ),
        ResponseItem::LocalShellCall { id, call_id, action } => Ok(
            Some(
                use_of_tool(
                    if call_id is Some {
                        call_id->0@
                    } else {
                        conversation_laws::text_if_any(id)
                    },
                    "shell"@,
                    if action.value is Some {
                        action.value->0.tree()
                    } else {
                        JsonTree::Null
                    },
                ),
            ),
        ),
        ResponseItem::FunctionCallOutput { call_id, output } => Ok(
            Some(result_of_tool(call_id@, conversation_laws::said_by_tool(output))),
        ),
        ResponseItem::CustomToolCallOutput { call_id, output } => Ok(
            Some(
                result_of_tool(
                    call_id@,
                    conversation_laws::text_if_any(output.text_content),
                ),
            ),
        ),
        _ => Ok(None),
    }
}

proof fn lemma_message_text(content: Seq<ContentItem>)
    ensures
        anthropic::message_text(content) == conversation_laws::all_text(
            content,
            |url: Seq<char>| Seq::<char>::empty(),
        ),
    decreases content.len(),
{
    if content.len() > 0 {
        lemma_message_text(content.drop_last());
    }
}

/// An item becomes the message that says what the item says, under the role of who said it.
pub proof fn law_an_item_says_the_same_in_its_message(item: ResponseItem)
    ensures
        anthropic::item_message(item) == own_message(item),
{
    reveal_strlit("assistant");
    reveal_strlit("system");
    assert("assistant"@.len() != "system"@.len());
    match item {
        ResponseItem::Message { role, content, .. } => {
            lemma_message_text(content@);
            let blocks = content@.map_values(|c: ContentItem| anthropic::content_block(c));
            assert(blocks =~= Seq::new(
                content@.len(),
                |i: int| ContentBlockParamView::Text { text: piece_text(content@[i]) },
            ));
        },
        ResponseItem::FunctionCallOutput { call_id, output } => {
            conversation_laws::law_a_tool_output_is_all_that_the_tool_said(output);
        },
        _ => {},
    }
}

/// The blocks of an item, each with the role that it goes out under.
pub open spec fn own_blocks(item: ResponseItem) -> Seq<(Seq<char>, ContentBlockParamView)> {
    if own_message(item) is Ok && own_message(item)->Ok_0 is Some {
        anthropic_laws::tagged(own_message(item)->Ok_0->0)
    } else {
        seq![]
    }
}

/// The blocks of the items, item by item, each with the role that it goes out under.
pub open spec fn conversation_blocks(items: Seq<ResponseItem>) -> Seq<
    (Seq<char>, ContentBlockParamView),
>
    decreases items.len(),
{
    if items.len() == 0 {
        seq![]
    } else {
        own_blocks(items[0]) + conversation_blocks(items.skip(1))
    }
}

proof fn lemma_conversation_blocks_concat(a: Seq<ResponseItem>, b: Seq<ResponseItem>)
    ensures
        conversation_blocks(a + b) == conversation_blocks(a) + conversation_blocks(b),
    decreases a.len(),
{
    if a.len() == 0 {
        assert(a + b =~= b);
        assert(conversation_blocks(a) + conversation_blocks(b) =~= conversation_blocks(b));
    } else {
        assert((a + b).skip(1) =~= a.skip(1) + b);
        lemma_conversation_blocks_concat(a.skip(1), b);
        assert(conversation_blocks(a + b) =~= conversation_blocks(a) + conversation_blocks(b));
    }
}

proof fn lemma_item_messages(items: Seq<ResponseItem>)
    requires
        anthropic::item_messages(items) is Ok,
    ensures
        anthropic_laws::tagged_blocks(anthropic::item_messages(items)->Ok_0)
            == conversation_blocks(items),
    decreases items.len(),
{
    if items.len() > 0 {
        let front = items.drop_last();
        let last = items.last();
        lemma_item_messages(front);
        law_an_item_says_the_same_in_its_message(last);
        assert(items =~= front + seq![last]);
        lemma_conversation_blocks_concat(front, seq![last]);
        reveal_with_fuel(conversation_blocks, 2);
        assert(seq![last].skip(1) =~= seq![]);
        assert(conversation_blocks(seq![last]) =~= own_blocks(last));
        let done = anthropic::item_messages(front)->Ok_0;
        let all = anthropic::item_messages(items)->Ok_0;
        if own_message(last)->Ok_0 is Some {
            assert(all.drop_last() =~= done);
        } else {
            assert(conversation_blocks(front) + own_blocks(last) =~= conversation_blocks(front));
        }
    }
}

/// The conversation goes out in its own order: the blocks of a request, each with its role, are
/// those of the items, one item after the other, but for blank text.
pub proof fn law_the_conversation_goes_out_in_its_own_order(items: Seq<ResponseItem>)
    requires
        anthropic::request_messages(items) is Ok,
    ensures
        anthropic_laws::tagged_blocks(anthropic::request_messages(items)->Ok_0)
            == anthropic_laws::readable(conversation_blocks(items)),
{
    anthropic_laws::law_request_keeps_the_conversation(items);
    lemma_item_messages(items);
}

/// What comes earlier in the conversation comes earlier in the request: wherever the conversation
/// is cut in two, the blocks of a request for the whole are those of a request for the first part
/// and behind them those of a request for the second.
pub proof fn law_what_comes_earlier_goes_out_earlier(
    first: Seq<ResponseItem>,
    second: Seq<ResponseItem>,
)
    requires
        anthropic::request_messages(first + second) is Ok,
    ensures
        anthropic::request_messages(first) is Ok,
        anthropic::request_messages(second) is Ok,
        anthropic_laws::tagged_blocks(anthropic::request_messages(first + second)->Ok_0)
            == anthropic_laws::tagged_blocks(anthropic::request_messages(first)->Ok_0)
            + anthropic_laws::tagged_blocks(anthropic::request_messages(second)->Ok_0),
{
    let all = first + second;
    anthropic_laws::law_only_unreadable_arguments_fail(all);
    anthropic_laws::law_only_unreadable_arguments_fail(first);
    anthropic_laws::law_only_unreadable_arguments_fail(second);
    assert forall|i: int| 0 <= i < first.len() implies !anthropic_laws::unreadable_call(
        #[trigger] first[i],
    ) by {
        assert(all[i] == first[i]);
        assert(!anthropic_laws::unreadable_call(all[i]));
    }
    assert forall|i: int| 0 <= i < second.len() implies !anthropic_laws::unreadable_call(
        #[trigger] second[i],
    ) by {
        assert(all[first.len() + i] == second[i]);
        assert(!anthropic_laws::unreadable_call(all[first.len() + i]));
    }
    law_the_conversation_goes_out_in_its_own_order(all);
    law_the_conversation_goes_out_in_its_own_order(first);
    law_the_conversation_goes_out_in_its_own_order(second);
    lemma_conversation_blocks_concat(first, second);
    anthropic_laws::lemma_readable_concat(
        conversation_blocks(first),
        conversation_blocks(second),
    );
}

/// The messages of the items that have one, in the order of the items.
pub open spec fn own_messages(items: Seq<ResponseItem>) -> Seq<MessageParamView>
    decreases items.len(),
{
    if items.len() == 0 {
        seq![]
    } else if own_message(items.last()) is Ok && own_message(items.last())->Ok_0 is Some {
        own_messages(items.drop_last()).push(own_message(items.last())->Ok_0->0)
    } else {
        own_messages(items.drop_last())
    }
}

proof fn lemma_own_messages(items: Seq<ResponseItem>)
    requires
        anthropic::item_messages(items) is Ok,
    ensures
        anthropic::item_messages(items)->Ok_0 == own_messages(items),
    decreases items.len(),
{
    if items.len() > 0 {
        lemma_own_messages(items.drop_last());
        law_an_item_says_the_same_in_its_message(items.last());
    }
}

/// The messages of a request are those of the items, coalesced and then stripped of blank text.
pub proof fn law_request_messages_are_those_of_the_items(items: Seq<ResponseItem>)
    requires
        anthropic::request_messages(items) is Ok,
    ensures
        anthropic::request_messages(items)->Ok_0 == anthropic::stripped(
            anthropic::coalesced(own_messages(items)),
        ),
{
    lemma_own_messages(items);
}

/// A request fails with the complaint about the first function call whose arguments are not JSON,
/// by its name and with the reason.
pub proof fn law_the_first_unreadable_call_is_complained_about(items: Seq<ResponseItem>, i: int)
    requires
        0 <= i < items.len(),
        anthropic_laws::unreadable_call(items[i]),
        forall|j: int| 0 <= j < i ==> !anthropic_laws::unreadable_call(#[trigger] items[j]),
    ensures
        anthropic::request_messages(items) == Err::<Seq<MessageParamView>, CodexErrView>(
            CodexErrView::UnsupportedOperation(
                "Invalid JSON in tool arguments for `"@ + items[i]->FunctionCall_name@ + "`: "@
                    + json::json_text(items[i]->FunctionCall_arguments@)->Err_0,
            ),
        ),
{
    anthropic_laws::law_only_unreadable_arguments_fail(items);
    let e = anthropic::request_messages(items)->Err_0;
    let k = choose|k: int|
        0 <= k < items.len() && anthropic_laws::unreadable_call(#[trigger] items[k])
            && anthropic::item_message(items[k]) == Err::<Option<MessageParamView>, _>(e)
            && forall|j: int| 0 <= j < k ==> !anthropic_laws::unreadable_call(#[trigger] items[j]);
    assert(k == i) by {
        if k < i {
            assert(!anthropic_laws::unreadable_call(items[k]));
        } else if i < k {
            assert(!anthropic_laws::unreadable_call(items[i]));
        }
    }
    law_an_item_says_the_same_in_its_message(items[i]);
}

/// One more message changes coalesced messages like this: a message of another role goes behind
/// them as it is; one of the role of the last gives its blocks to the last, behind those that
/// the last has. All before the last stay.
pub proof fn law_one_more_message_is_coalesced(
    messages: Seq<MessageParamView>,
    next: MessageParamView,
)
    ensures
        ({
            let before = anthropic::coalesced(messages);
            let after = anthropic::coalesced(messages.push(next));
            let joins = before.len() > 0 && before.last().role == next.role;
            &&& !joins ==> after == before.push(next)
            &&& joins ==> {
                &&& after.len() == before.len()
                &&& after.drop_last() == before.drop_last()
                &&& after.last().role == next.role
                &&& after.last().content == MessageContentView::Blocks(
                    anthropic_laws::parts_of(before.last().content) + anthropic_laws::parts_of(
                        next.content,
                    ),
                )
            }
        }),
{
    assert(messages.push(next).drop_last() =~= messages);
    let before = anthropic::coalesced(messages);
    let after = anthropic::coalesced(messages.push(next));
    if before.len() > 0 && before.last().role == next.role {
        assert(after.drop_last() =~= before.drop_last());
    }
}

/// Nothing comes of no messages.
pub proof fn law_no_messages_stay_none()
    ensures
        anthropic::coalesced(seq![]).len() == 0,
        anthropic::stripped(seq![]).len() == 0,
        anthropic::request_messages(seq![]) == Ok::<Seq<MessageParamView>, CodexErrView>(seq![]),
{
    reveal(Seq::filter);
    let none = Seq::<MessageParamView>::empty();
    assert(none.map_values(|m: MessageParamView| anthropic::stripped_message(m)) =~= none);
    assert(anthropic::stripped(none) =~= none);
}

/// Stripping takes one message after the other. A message with something to read keeps its role
/// and its place: a plain text stays as it is, and a list of blocks keeps those that are not
/// blank text. A message with nothing to read goes.
pub proof fn law_one_more_message_is_stripped(
    messages: Seq<MessageParamView>,
    next: MessageParamView,
)
    ensures
        ({
            let before = anthropic::stripped(messages);
            let after = anthropic::stripped(messages.push(next));
            &&& !anthropic_laws::substantial(next) ==> after == before
            &&& anthropic_laws::substantial(next) ==> {
                &&& after.len() == before.len() + 1
                &&& after.drop_last() == before
                &&& after.last().role == next.role
                &&& match next.content {
                    MessageContentView::Text(t) => after.last() == next,
                    MessageContentView::Blocks(b) => after.last().content
                        == MessageContentView::Blocks(
                        b.filter(|p: ContentBlockParamView| !anthropic_laws::says_nothing(p)),
                    ),
                }
            }
        }),
{
    let all = messages.push(next);
    assert(all.drop_last() =~= messages);
    anthropic_laws::lemma_stripped_last(all);
    anthropic_laws::lemma_stripped_message(next);
    let before = anthropic::stripped(messages);
    let after = anthropic::stripped(all);
    if anthropic_laws::substantial(next) {
        assert(after.drop_last() =~= before);
        match next.content {
            MessageContentView::Text(t) => {},
            MessageContentView::Blocks(b) => {
                lemma_same_filter(b);
            },
        }
    }
}

proof fn lemma_same_filter(b: Seq<ContentBlockParamView>)
    ensures
        anthropic::readable_blocks(b) == b.filter(
            |p: ContentBlockParamView| !anthropic_laws::says_nothing(p),
        ),
    decreases b.len(),
{
    reveal(Seq::filter);
    if b.len() > 0 {
        lemma_same_filter(b.drop_last());
    }
}

/// A request names the model, allows an answer of 8192 tokens, holds the conversation and the
/// instructions, offers the function tools where there is one, leaves the choice of a tool to the
/// model, and asks for a stream. A prompt that asks for a schema of the answer is refused, then
/// one with arguments that are not JSON, then one with a tool that has no schema.
pub proof fn law_a_request_holds_the_prompt(prompt: Prompt, model: Seq<char>)
    ensures
        ({
            let request = anthropic::messages_request(prompt, model);
            let messages = anthropic::request_messages(prompt.input@);
            let tools = anthropic_tools::anthropic_tools(prompt.tools@);
            let offered = tools_laws::function_tools(prompt.tools@);
            &&& prompt.output_schema is Some ==> request == Err::<
                MessagesRequestView,
                CodexErrView,
            >(
                CodexErrView::UnsupportedOperation(
                    "output_schema is not supported for Anthropic Messages API"@,
                ),
            )
            &&& prompt.output_schema is None && messages is Err ==> request == Err::<
                MessagesRequestView,
                CodexErrView,
            >(messages->Err_0)
            &&& prompt.output_schema is None && messages is Ok && tools is Err ==> request
                == Err::<MessagesRequestView, CodexErrView>(tools->Err_0)
            &&& prompt.output_schema is None && messages is Ok && tools is Ok ==> request is Ok
            &&& request matches Ok(r) ==> {
                &&& r.model == model
                &&& r.max_tokens == 8192
                &&& r.messages == messages->Ok_0
                &&& r.system == Some(prompt.base_instructions.text@)
                &&& r.tools is None <==> offered.len() == 0
                &&& r.tools matches Some(defs) ==> {
                    &&& defs.len() == offered.len()
                    &&& forall|i: int|
                        0 <= i < defs.len() ==> #[trigger] defs[i] == (AnthropicToolView {
                            name: offered[i].name@,
                            description: offered[i].description@,
                            input_schema: offered[i].parameters->Ok_0.tree(),
                        })
                }
                &&& r.tool_choice is None
                &&& r.stream
            }
        }),
{
    tools_laws::law_anthropic_offers_the_function_tools(prompt.tools@);
}

/// What is told of a request is what it holds.
pub proof fn law_a_request_is_told_as_it_is<'a>(request: MessagesRequest<'a>)
    ensures
        ({
            let view = request.deep_view();
            &&& view.model == request.model@
            &&& view.max_tokens == request.max_tokens
            &&& view.stream == request.stream
            &&& view.system is Some <==> request.system is Some
            &&& request.system is Some ==> view.system->0 == request.system->0@
            &&& view.tool_choice is Some <==> request.tool_choice is Some
            &&& view.tools is Some <==> request.tools is Some
            &&& request.tools is Some ==> view.tools->0.len() == request.tools->0@.len()
            &&& view.messages.len() == request.messages@.len()
            &&& forall|i: int|
                0 <= i < request.messages@.len() ==> {
                    let m = request.messages@[i];
                    &&& (#[trigger] view.messages[i]).role == m.role@
                    &&& match m.content {
                        MessageContent::Text(t) => view.messages[i].content
                            == MessageContentView::Text(t@),
                        MessageContent::Blocks(b) => {
                            &&& view.messages[i].content is Blocks
                            &&& view.messages[i].content->Blocks_0.len() == b@.len()
                        },
                    }
                }
        }),
{
}

/// What is told of a block is what it holds.
pub proof fn law_a_block_is_told_as_it_is(block: ContentBlockParam)
    ensures
        match block {
            ContentBlockParam::Text { text } => block.deep_view() == (ContentBlockParamView::Text {
                text: text@,
            }),
            ContentBlockParam::ToolUse { id, name, input } => block.deep_view() == (
            ContentBlockParamView::ToolUse { id: id@, name: name@, input: input.tree() }),
            ContentBlockParam::ToolResult { tool_use_id, content, is_error } => {
                &&& block.deep_view() is ToolResult
                &&& block.deep_view()->tool_use_id == tool_use_id@
                &&& block.deep_view()->content is Some <==> content is Some
                &&& content is Some ==> block.deep_view()->content->0 == content->0@
                &&& block.deep_view()->is_error == is_error
            },
            ContentBlockParam::Image { .. } => block.deep_view() is Image,
        },
{
}

} // verus!
