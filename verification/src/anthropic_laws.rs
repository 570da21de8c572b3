//! What holds of every request to the Anthropic Messages API.

use crate::anthropic;
use crate::anthropic_types::{ContentBlockParamView, MessageContentView, MessageParamView};
use crate::conversation;
use crate::conversation_laws;
use crate::json;
use crate::json::JsonTree;
use crate::models::{ContentItem, ResponseItem};
use crate::text;
use vstd::prelude::*;

verus! {

/// No two neighbours have the same role.
pub open spec fn alternating(messages: Seq<MessageParamView>) -> bool {
    forall|i: int, j: int|
        0 <= i && j == i + 1 && j < messages.len() ==> (#[trigger] messages[i]).role != (
        #[trigger] messages[j]).role
}

/// The blocks of a content; a plain text counts as one text block.
pub open spec fn parts_of(content: MessageContentView) -> Seq<ContentBlockParamView> {
    match content {
        MessageContentView::Text(t) => seq![ContentBlockParamView::Text { text: t }],
        MessageContentView::Blocks(b) => b,
    }
}

/// The block is a text without anything to read in it.
pub open spec fn says_nothing(b: ContentBlockParamView) -> bool {
    b matches ContentBlockParamView::Text { text } && conversation_laws::nothing_to_read(text)
}

/// The blocks of a message, each with the role of the message.
pub open spec fn tagged(m: MessageParamView) -> Seq<(Seq<char>, ContentBlockParamView)> {
    parts_of(m.content).map_values(|b: ContentBlockParamView| (m.role, b))
}

/// The blocks of all messages, each with the role of its message.
pub open spec fn tagged_blocks(messages: Seq<MessageParamView>) -> Seq<
    (Seq<char>, ContentBlockParamView),
>
    decreases messages.len(),
{
    if messages.len() == 0 {
        seq![]
    } else {
        tagged_blocks(messages.drop_last()) + tagged(messages.last())
    }
}

/// The blocks that are not blank text, each with its role.
pub open spec fn readable(blocks: Seq<(Seq<char>, ContentBlockParamView)>) -> Seq<
    (Seq<char>, ContentBlockParamView),
> {
    blocks.filter(|b: (Seq<char>, ContentBlockParamView)| !says_nothing(b.1))
}

/// There is something to read in the message.
pub open spec fn substantial(m: MessageParamView) -> bool {
    let blocks = parts_of(m.content);
    exists|i: int| 0 <= i < blocks.len() && !says_nothing(#[trigger] blocks[i])
}

/// Nothing in the message is blank, and there is something in it.
pub open spec fn clean(m: MessageParamView) -> bool {
    let blocks = parts_of(m.content);
    &&& blocks.len() > 0
    &&& forall|i: int| 0 <= i < blocks.len() ==> !says_nothing(#[trigger] blocks[i])
}

/// Coalesced messages alternate.
pub proof fn law_coalesced_messages_alternate(messages: Seq<MessageParamView>)
    ensures
        alternating(anthropic::coalesced(messages)),
    decreases messages.len(),
{
    if messages.len() > 0 {
        law_coalesced_messages_alternate(messages.drop_last());
    }
}

/// Coalescing neither loses nor adds nor reorders a block, and no block changes its role.
pub proof fn law_coalescing_keeps_blocks(messages: Seq<MessageParamView>)
    ensures
        tagged_blocks(anthropic::coalesced(messages)) == tagged_blocks(messages),
    decreases messages.len(),
{
    if messages.len() > 0 {
        let done = anthropic::coalesced(messages.drop_last());
        let next = messages.last();
        let result = anthropic::coalesced(messages);
        law_coalescing_keeps_blocks(messages.drop_last());
        assert(result.drop_last() =~= if done.len() > 0 && done.last().role == next.role {
            done.drop_last()
        } else {
            done
        });
        if done.len() > 0 && done.last().role == next.role {
            assert(tagged(anthropic::merged(done.last(), next)) =~= tagged(done.last()) + tagged(
                next,
            ));
            assert(tagged_blocks(result) =~= tagged_blocks(done) + tagged(next));
        }
    }
}

/// Messages that alternate are left as they are.
pub proof fn law_alternating_messages_unchanged(messages: Seq<MessageParamView>)
    requires
        alternating(messages),
    ensures
        anthropic::coalesced(messages) == messages,
    decreases messages.len(),
{
    if messages.len() > 0 {
        let front = messages.drop_last();
        assert forall|i: int, j: int| 0 <= i && j == i + 1 && j < front.len() implies (
        #[trigger] front[i]).role != (#[trigger] front[j]).role by {
            assert(messages[i].role != messages[j].role);
        }
        law_alternating_messages_unchanged(front);
        if front.len() > 0 {
            assert(messages[messages.len() - 2].role != messages[messages.len() - 1].role);
        }
        assert(anthropic::coalesced(messages) =~= messages);
    } else {
        assert(anthropic::coalesced(messages) =~= messages);
    }
}

/// Coalescing twice is coalescing once.
pub proof fn law_coalescing_is_idempotent(messages: Seq<MessageParamView>)
    ensures
        anthropic::coalesced(anthropic::coalesced(messages)) == anthropic::coalesced(messages),
{
    law_coalesced_messages_alternate(messages);
    law_alternating_messages_unchanged(anthropic::coalesced(messages));
}

pub proof fn lemma_readable_concat(
    a: Seq<(Seq<char>, ContentBlockParamView)>,
    b: Seq<(Seq<char>, ContentBlockParamView)>,
)
    ensures
        readable(a + b) == readable(a) + readable(b),
{
    broadcast use Seq::filter_distributes_over_add;

}

/// Stripping a message is filtering its blocks.
pub proof fn lemma_stripped_message(m: MessageParamView)
    ensures
        tagged(anthropic::stripped_message(m)) == readable(tagged(m)),
        substantial(m) <==> !anthropic::empty_message(anthropic::stripped_message(m)),
        !anthropic::empty_message(anthropic::stripped_message(m)) ==> clean(
            anthropic::stripped_message(m),
        ),
        anthropic::stripped_message(m).role == m.role,
{
    match m.content {
        MessageContentView::Text(t) => {
            reveal_with_fuel(Seq::filter, 2);
            let one = tagged(m);
            assert(one.len() == 1 && one[0] == (m.role, ContentBlockParamView::Text { text: t }));
            assert(one.drop_last() =~= seq![]);
            assert(parts_of(m.content)[0] == ContentBlockParamView::Text { text: t });
            if text::blank(t) {
                assert(tagged(anthropic::stripped_message(m)) =~= seq![]);
                assert(readable(one) =~= seq![]);
            } else {
                assert(readable(one) =~= one);
            }
        },
        MessageContentView::Blocks(b) => {
            lemma_tagged_filter(m.role, b);
            let kept = anthropic::readable_blocks(b);
            assert(tagged(anthropic::stripped_message(m)) =~= readable(tagged(m)));
            assert forall|i: int| 0 <= i < kept.len() implies !says_nothing(
                #[trigger] kept[i],
            ) by {
                b.lemma_filter_pred(|b: ContentBlockParamView| !anthropic::blank_block(b), i);
                assert(!anthropic::blank_block(kept[i]));
            }
            if substantial(m) {
                let i = choose|i: int|
                    0 <= i < b.len() && !says_nothing(#[trigger] b[i]);
                assert(!anthropic::blank_block(b[i]));
                b.lemma_filter_contains(|b: ContentBlockParamView| !anthropic::blank_block(b), i);
                assert(kept.contains(b[i]));
                assert(kept.len() > 0);
            } else {
                lemma_filter_nothing(b);
            }
        },
    }
}

proof fn lemma_filter_nothing(b: Seq<ContentBlockParamView>)
    requires
        forall|i: int| 0 <= i < b.len() ==> says_nothing(#[trigger] b[i]),
    ensures
        anthropic::readable_blocks(b) == Seq::<ContentBlockParamView>::empty(),
    decreases b.len(),
{
    reveal(Seq::filter);
    if b.len() > 0 {
        assert(says_nothing(b[b.len() - 1]));
        lemma_filter_nothing(b.drop_last());
    }
}

proof fn lemma_tagged_filter(role: Seq<char>, b: Seq<ContentBlockParamView>)
    ensures
        readable(b.map_values(|x: ContentBlockParamView| (role, x))) == anthropic::readable_blocks(
            b,
        ).map_values(|x: ContentBlockParamView| (role, x)),
    decreases b.len(),
{
    reveal(Seq::filter);
    let tags = b.map_values(|x: ContentBlockParamView| (role, x));
    if b.len() > 0 {
        let front = b.drop_last();
        lemma_tagged_filter(role, front);
        assert(tags.drop_last() =~= front.map_values(|x: ContentBlockParamView| (role, x)));
        assert(tags.last() == (role, b.last()));
        assert(readable(tags) =~= anthropic::readable_blocks(b).map_values(
            |x: ContentBlockParamView| (role, x),
        ));
    } else {
        assert(readable(tags) =~= anthropic::readable_blocks(b).map_values(
            |x: ContentBlockParamView| (role, x),
        ));
    }
}

/// The last message is stripped on its own.
pub proof fn lemma_stripped_last(messages: Seq<MessageParamView>)
    requires
        messages.len() > 0,
    ensures
        anthropic::stripped(messages) == if anthropic::empty_message(
            anthropic::stripped_message(messages.last()),
        ) {
            anthropic::stripped(messages.drop_last())
        } else {
            anthropic::stripped(messages.drop_last()).push(
                anthropic::stripped_message(messages.last()),
            )
        },
{
    reveal(Seq::filter);
    let mapped = messages.map_values(|m: MessageParamView| anthropic::stripped_message(m));
    assert(mapped.drop_last() =~= messages.drop_last().map_values(
        |m: MessageParamView| anthropic::stripped_message(m),
    ));
    assert(mapped.last() == anthropic::stripped_message(messages.last()));
}

/// Stripping removes the blank text and nothing else.
pub proof fn law_stripping_removes_blank_text_only(messages: Seq<MessageParamView>)
    ensures
        tagged_blocks(anthropic::stripped(messages)) == readable(tagged_blocks(messages)),
    decreases messages.len(),
{
    reveal(Seq::filter);
    let result = anthropic::stripped(messages);
    if messages.len() == 0 {
        assert(result =~= seq![]);
        assert(tagged_blocks(result) =~= readable(tagged_blocks(messages)));
    } else {
        let last = messages.last();
        law_stripping_removes_blank_text_only(messages.drop_last());
        lemma_stripped_last(messages);
        lemma_stripped_message(last);
        lemma_readable_concat(tagged_blocks(messages.drop_last()), tagged(last));
        let front = anthropic::stripped(messages.drop_last());
        if anthropic::empty_message(anthropic::stripped_message(last)) {
            assert(tagged(anthropic::stripped_message(last)) =~= seq![]);
            assert(tagged_blocks(front) =~= tagged_blocks(front) + readable(tagged(last)));
        } else {
            assert(result.drop_last() =~= front);
        }
    }
}

/// After stripping, no message is empty and no block is blank text.
pub proof fn law_stripped_messages_are_clean(messages: Seq<MessageParamView>)
    ensures
        forall|i: int|
            0 <= i < anthropic::stripped(messages).len() ==> clean(
                #[trigger] anthropic::stripped(messages)[i],
            ),
    decreases messages.len(),
{
    let result = anthropic::stripped(messages);
    if messages.len() == 0 {
        reveal(Seq::filter);
        assert(result =~= seq![]);
    } else {
        law_stripped_messages_are_clean(messages.drop_last());
        lemma_stripped_last(messages);
        lemma_stripped_message(messages.last());
        assert forall|i: int| 0 <= i < result.len() implies clean(#[trigger] result[i]) by {
            let front = anthropic::stripped(messages.drop_last());
            if i < front.len() {
                assert(result[i] == front[i]);
            }
        }
    }
}

/// Clean messages are left as they are.
pub proof fn law_clean_messages_unchanged(messages: Seq<MessageParamView>)
    requires
        forall|i: int| 0 <= i < messages.len() ==> clean(#[trigger] messages[i]),
    ensures
        anthropic::stripped(messages) == messages,
    decreases messages.len(),
{
    if messages.len() == 0 {
        reveal(Seq::filter);
        assert(anthropic::stripped(messages) =~= messages);
    } else {
        let front = messages.drop_last();
        let last = messages.last();
        assert forall|i: int| 0 <= i < front.len() implies clean(#[trigger] front[i]) by {
            assert(front[i] == messages[i]);
        }
        law_clean_messages_unchanged(front);
        lemma_stripped_last(messages);
        assert(clean(messages[messages.len() - 1]));
        lemma_clean_message_unchanged(last);
        assert(anthropic::stripped(messages) =~= messages);
    }
}

proof fn lemma_clean_message_unchanged(m: MessageParamView)
    requires
        clean(m),
    ensures
        anthropic::stripped_message(m) == m,
        !anthropic::empty_message(m),
{
    match m.content {
        MessageContentView::Text(t) => {
            assert(!says_nothing(parts_of(m.content)[0]));
        },
        MessageContentView::Blocks(b) => {
            lemma_filter_everything(b);
        },
    }
}

proof fn lemma_filter_everything(b: Seq<ContentBlockParamView>)
    requires
        forall|i: int| 0 <= i < b.len() ==> !says_nothing(#[trigger] b[i]),
    ensures
        anthropic::readable_blocks(b) == b,
    decreases b.len(),
{
    reveal(Seq::filter);
    if b.len() > 0 {
        assert(!says_nothing(b[b.len() - 1]));
        lemma_filter_everything(b.drop_last());
        assert(anthropic::readable_blocks(b) =~= b);
    } else {
        assert(anthropic::readable_blocks(b) =~= b);
    }
}

/// Stripping twice is stripping once.
pub proof fn law_stripping_is_idempotent(messages: Seq<MessageParamView>)
    ensures
        anthropic::stripped(anthropic::stripped(messages)) == anthropic::stripped(messages),
{
    law_stripped_messages_are_clean(messages);
    law_clean_messages_unchanged(anthropic::stripped(messages));
}

/// The role is one that the API knows.
pub open spec fn known_role(role: Seq<char>) -> bool {
    role == "user"@ || role == "assistant"@
}

/// Every message that an item becomes has something to read, and a role that the API knows.
proof fn lemma_item_message_substantial(item: ResponseItem)
    ensures
        anthropic::item_message(item) matches Ok(Some(m)) ==> substantial(m) && known_role(m.role),
{
    if let Ok(Some(m)) = anthropic::item_message(item) {
        let blocks = parts_of(m.content);
        match item {
            ResponseItem::Message { role, content, .. } => {
                if anthropic::has_image(content@) {
                    let i = choose|i: int|
                        0 <= i < content@.len() && (#[trigger] content@[i]) is InputImage;
                    if let ContentItem::InputImage { image_url } = content@[i] {
                        let note = conversation::image_note(image_url@);
                        reveal_strlit("[Image: ");
                        assert(note[0] == '[');
                        assert(!text::white_space(note[0]));
                        assert(blocks[i] == ContentBlockParamView::Text { text: note });
                        assert(!says_nothing(blocks[i]));
                    }
                } else {
                    assert(!says_nothing(blocks[0]));
                }
            },
            _ => {
                assert(!says_nothing(blocks[0]));
            },
        }
    }
}

proof fn lemma_item_messages_substantial(items: Seq<ResponseItem>)
    ensures
        anthropic::item_messages(items) matches Ok(ms) ==> forall|i: int|
            0 <= i < ms.len() ==> substantial(#[trigger] ms[i]) && known_role(ms[i].role),
    decreases items.len(),
{
    if items.len() > 0 {
        lemma_item_messages_substantial(items.drop_last());
        lemma_item_message_substantial(items.last());
    }
}

proof fn lemma_coalesced_substantial(messages: Seq<MessageParamView>)
    requires
        forall|i: int|
            0 <= i < messages.len() ==> substantial(#[trigger] messages[i]) && known_role(
                messages[i].role,
            ),
    ensures
        forall|i: int|
            0 <= i < anthropic::coalesced(messages).len() ==> substantial(
                #[trigger] anthropic::coalesced(messages)[i],
            ) && known_role(anthropic::coalesced(messages)[i].role),
    decreases messages.len(),
{
    if messages.len() > 0 {
        let front = messages.drop_last();
        let next = messages.last();
        assert forall|i: int| 0 <= i < front.len() implies substantial(#[trigger] front[i])
            && known_role(front[i].role) by {
            assert(front[i] == messages[i]);
        }
        assert(messages[messages.len() - 1] == next);
        lemma_coalesced_substantial(front);
        let done = anthropic::coalesced(front);
        if done.len() > 0 && done.last().role == next.role {
            let m = anthropic::merged(done.last(), next);
            let old_blocks = parts_of(done.last().content);
            let blocks = parts_of(m.content);
            assert(substantial(done[done.len() - 1]));
            let i = choose|i: int|
                0 <= i < old_blocks.len() && !says_nothing(#[trigger] old_blocks[i]);
            assert(blocks[i] == old_blocks[i]);
            assert(substantial(m));
        }
    }
}

proof fn lemma_stripped_keeps_substantial(messages: Seq<MessageParamView>)
    requires
        forall|i: int| 0 <= i < messages.len() ==> substantial(#[trigger] messages[i]),
    ensures
        anthropic::stripped(messages).len() == messages.len(),
        forall|i: int|
            0 <= i < messages.len() ==> (#[trigger] anthropic::stripped(messages)[i]).role
                == messages[i].role,
    decreases messages.len(),
{
    if messages.len() == 0 {
        reveal(Seq::filter);
    } else {
        let front = messages.drop_last();
        assert forall|i: int| 0 <= i < front.len() implies substantial(#[trigger] front[i]) by {
            assert(front[i] == messages[i]);
        }
        lemma_stripped_keeps_substantial(front);
        lemma_stripped_last(messages);
        assert(substantial(messages[messages.len() - 1]));
        lemma_stripped_message(messages.last());
    }
}

/// The messages of a request are what the API asks for: the roles are `user` and `assistant` and
/// alternate strictly, no message is empty, and no block is blank text.
pub proof fn law_request_messages_are_acceptable(items: Seq<ResponseItem>)
    requires
        anthropic::request_messages(items) is Ok,
    ensures
        alternating(anthropic::request_messages(items)->Ok_0),
        forall|i: int|
            0 <= i < anthropic::request_messages(items)->Ok_0.len() ==> clean(
                #[trigger] anthropic::request_messages(items)->Ok_0[i],
            ) && known_role(anthropic::request_messages(items)->Ok_0[i].role),
{
    let ms = anthropic::item_messages(items)->Ok_0;
    let merged = anthropic::coalesced(ms);
    let result = anthropic::stripped(merged);
    lemma_item_messages_substantial(items);
    lemma_coalesced_substantial(ms);
    law_coalesced_messages_alternate(ms);
    lemma_stripped_keeps_substantial(merged);
    law_stripped_messages_are_clean(merged);
    assert forall|i: int, j: int| 0 <= i && j == i + 1 && j < result.len() implies (
    #[trigger] result[i]).role != (#[trigger] result[j]).role by {
        assert(merged[i].role != merged[j].role);
    }
}

/// A request says what the conversation says: its blocks are those of the items, in order and
/// under their roles, but for blank text.
pub proof fn law_request_keeps_the_conversation(items: Seq<ResponseItem>)
    requires
        anthropic::request_messages(items) is Ok,
    ensures
        tagged_blocks(anthropic::request_messages(items)->Ok_0) == readable(
            tagged_blocks(anthropic::item_messages(items)->Ok_0),
        ),
{
    let ms = anthropic::item_messages(items)->Ok_0;
    law_coalescing_keeps_blocks(ms);
    law_stripping_removes_blank_text_only(anthropic::coalesced(ms));
}

/// Whether an item is a function call whose arguments are not JSON.
pub open spec fn unreadable_call(item: ResponseItem) -> bool {
    match item {
        ResponseItem::FunctionCall { arguments, .. } => json::json_text(arguments@) is Err,
        _ => false,
    }
}

/// The conversion of a conversation fails exactly where a function call has arguments that are
/// not JSON, and the first such call is the one complained about.
pub proof fn law_only_unreadable_arguments_fail(items: Seq<ResponseItem>)
    ensures
        anthropic::request_messages(items) is Err <==> exists|i: int|
            0 <= i < items.len() && unreadable_call(#[trigger] items[i]),
        anthropic::request_messages(items) matches Err(e) ==> exists|i: int|
            0 <= i < items.len() && unreadable_call(#[trigger] items[i])
                && anthropic::item_message(items[i]) == Err::<Option<MessageParamView>, _>(e)
                && forall|j: int| 0 <= j < i ==> !unreadable_call(#[trigger] items[j]),
    decreases items.len(),
{
    if items.len() > 0 {
        let front = items.drop_last();
        law_only_unreadable_arguments_fail(front);
        if anthropic::item_messages(front) is Err {
            let e = anthropic::item_messages(front)->Err_0;
            let i = choose|i: int|
                0 <= i < front.len() && unreadable_call(#[trigger] front[i])
                    && anthropic::item_message(front[i]) == Err::<Option<MessageParamView>, _>(e)
                    && forall|j: int| 0 <= j < i ==> !unreadable_call(#[trigger] front[j]);
            assert(items[i] == front[i]);
            assert forall|j: int| 0 <= j < i implies !unreadable_call(#[trigger] items[j]) by {
                assert(items[j] == front[j]);
            }
        } else {
            assert forall|j: int| 0 <= j < front.len() implies !unreadable_call(
                #[trigger] items[j],
            ) by {
                assert(items[j] == front[j]);
            }
            if unreadable_call(items.last()) {
                assert(items[items.len() - 1] == items.last());
            }
        }
    }
}

/// The block that a tool call becomes: it goes out under the id of the call, with its name and
/// what its arguments were read as.
pub open spec fn call_block(item: ResponseItem) -> ContentBlockParamView {
    match item {
        ResponseItem::FunctionCall { name, arguments, call_id, .. } =>
            ContentBlockParamView::ToolUse {
            id: call_id@,
            name: name@,
            input: json::json_text(arguments@)->Ok_0,
        },
        ResponseItem::CustomToolCall { call_id, name, input, .. } =>
            ContentBlockParamView::ToolUse {
            id: call_id@,
            name: name@,
            input: match json::json_text(input@) {
                Ok(tree) => tree,
                Err(_) => JsonTree::Object(seq![]),
            },
        },
        ResponseItem::LocalShellCall { id, call_id, action } => ContentBlockParamView::ToolUse {
            id: conversation::shell_call_id(call_id, id),
            name: "shell"@,
            input: match action.value {
                Some(json) => json.tree(),
                None => JsonTree::Null,
            },
        },
        _ => ContentBlockParamView::Text { text: seq![] },
    }
}

/// A block of an item that is not blank text reaches the model, under its role.
proof fn lemma_item_block_reaches_the_model(
    items: Seq<ResponseItem>,
    i: int,
    b: (Seq<char>, ContentBlockParamView),
)
    requires
        anthropic::request_messages(items) is Ok,
        0 <= i < items.len(),
        anthropic::item_message(items[i]) is Ok,
        anthropic::item_message(items[i])->Ok_0 is Some,
        tagged(anthropic::item_message(items[i])->Ok_0->Some_0).contains(b),
        !says_nothing(b.1),
    ensures
        tagged_blocks(anthropic::request_messages(items)->Ok_0).contains(b),
{
    lemma_item_block_present(items, i, b);
    law_request_keeps_the_conversation(items);
    let all = tagged_blocks(anthropic::item_messages(items)->Ok_0);
    let k = choose|k: int| 0 <= k < all.len() && all[k] == b;
    all.lemma_filter_contains(
        |b: (Seq<char>, ContentBlockParamView)| !says_nothing(b.1),
        k,
    );
}

/// The result of a tool reaches the model, be it a function or a custom tool: the request holds a
/// tool result with the id of the call and the text of the output.
pub proof fn law_tool_results_reach_the_model(items: Seq<ResponseItem>, i: int)
    requires
        anthropic::request_messages(items) is Ok,
        0 <= i < items.len(),
        conversation::sent_result(items[i]) is Some,
    ensures
        tagged_blocks(anthropic::request_messages(items)->Ok_0).contains(
            (
                "user"@,
                ContentBlockParamView::ToolResult {
                    tool_use_id: conversation::sent_result(items[i])->0.call_id,
                    content: Some(conversation::sent_result(items[i])->0.text),
                    is_error: None,
                },
            ),
        ),
{
    let b = (
        "user"@,
        ContentBlockParamView::ToolResult {
            tool_use_id: conversation::sent_result(items[i])->0.call_id,
            content: Some(conversation::sent_result(items[i])->0.text),
            is_error: None,
        },
    );
    let own = tagged(anthropic::item_message(items[i])->Ok_0->Some_0);
    assert(own[0] == b);
    lemma_item_block_reaches_the_model(items, i, b);
}

/// A tool call stays in the conversation, be it of a function, a custom tool or the shell: the
/// request holds a tool use with its id, its name and what its arguments were read as.
pub proof fn law_tool_calls_reach_the_model(items: Seq<ResponseItem>, i: int)
    requires
        anthropic::request_messages(items) is Ok,
        0 <= i < items.len(),
        conversation::call_id_of(items[i]) is Some,
    ensures
        !unreadable_call(items[i]),
        call_block(items[i]) is ToolUse,
        Some(call_block(items[i])->ToolUse_id) == conversation::call_id_of(items[i]),
        tagged_blocks(anthropic::request_messages(items)->Ok_0).contains(
            ("assistant"@, call_block(items[i])),
        ),
{
    law_only_unreadable_arguments_fail(items);
    assert(!unreadable_call(items[i]));
    let b = ("assistant"@, call_block(items[i]));
    let own = tagged(anthropic::item_message(items[i])->Ok_0->Some_0);
    assert(own[0] == b);
    lemma_item_block_reaches_the_model(items, i, b);
}

/// The result of a call carries the id of its tool use: where an item is the result of a call,
/// the request holds a tool use and a tool result with one id.
pub proof fn law_results_match_their_calls(items: Seq<ResponseItem>, i: int, j: int)
    requires
        anthropic::request_messages(items) is Ok,
        0 <= i < items.len(),
        0 <= j < items.len(),
        conversation::result_of(items[j], items[i]),
    ensures
        ({
            let blocks = tagged_blocks(anthropic::request_messages(items)->Ok_0);
            let call = call_block(items[i]);
            let result = ContentBlockParamView::ToolResult {
                tool_use_id: call->ToolUse_id,
                content: Some(conversation::sent_result(items[j])->0.text),
                is_error: None,
            };
            &&& call is ToolUse
            &&& blocks.contains(("assistant"@, call))
            &&& blocks.contains(("user"@, result))
        }),
{
    law_tool_calls_reach_the_model(items, i);
    law_tool_results_reach_the_model(items, j);
}

proof fn lemma_item_block_present(
    items: Seq<ResponseItem>,
    i: int,
    b: (Seq<char>, ContentBlockParamView),
)
    requires
        anthropic::item_messages(items) is Ok,
        0 <= i < items.len(),
        anthropic::item_message(items[i]) is Ok,
        anthropic::item_message(items[i])->Ok_0 is Some,
        tagged(anthropic::item_message(items[i])->Ok_0->Some_0).contains(b),
    ensures
        tagged_blocks(anthropic::item_messages(items)->Ok_0).contains(b),
    decreases items.len(),
{
    let front = items.drop_last();
    let ms = anthropic::item_messages(items)->Ok_0;
    let done = anthropic::item_messages(front)->Ok_0;
    if i < front.len() {
        lemma_item_block_present(front, i, b);
        let k = choose|k: int| 0 <= k < tagged_blocks(done).len() && tagged_blocks(done)[k] == b;
        if anthropic::item_message(items.last())->Ok_0 is Some {
            assert(ms.drop_last() =~= done);
        }
        assert(tagged_blocks(ms)[k] == b);
    } else {
        assert(ms.drop_last() =~= done);
        let t = tagged(ms.last());
        let k = choose|k: int| 0 <= k < t.len() && t[k] == b;
        assert(tagged_blocks(ms)[tagged_blocks(done).len() + k] == b);
    }
}

} // verus!
