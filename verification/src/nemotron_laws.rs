//! What holds of every request to Nemotron, and of the model that it goes to.

use crate::conversation;
use crate::conversation_laws;
use crate::error::CodexErrView;
use crate::models::{ContentItem, Prompt, ResponseItem};
use crate::nemotron;
use crate::nemotron::{ChatPlanView, ModelsReply};
use crate::nemotron_types::{
    ChatCompletionRequest, ChatMessageView, FunctionCallView, ModelListResponse,
    ToolCallMessageView,
};
use crate::text;
use crate::text_laws;
use crate::tools::laws as tools_laws;
use crate::tools::nemotron_tools;
use vstd::prelude::*;
use vstd::utf8::*;

verus! {

/// Where an id matches, there is a best one.
proof fn lemma_best_exists(slug: Seq<char>, ids: Seq<Seq<char>>, n: int)
    requires
        0 <= n <= ids.len(),
        exists|i: int| 0 <= i < n && nemotron::matches_slug(slug, #[trigger] ids[i]),
    ensures
        exists|i: int| nemotron::best_at(slug, ids.take(n), i),
    decreases n,
{
    let seen = ids.take(n);
    let before = ids.take(n - 1);
    let last = n - 1;
    assert forall|j: int| 0 <= j < n implies #[trigger] seen[j] == ids[j] by {}
    assert forall|j: int| 0 <= j < n - 1 implies #[trigger] before[j] == ids[j] by {}
    if exists|i: int| 0 <= i < n - 1 && nemotron::matches_slug(slug, #[trigger] ids[i]) {
        lemma_best_exists(slug, ids, n - 1);
        let b = choose|b: int| nemotron::best_at(slug, before, b);
        let winner = if nemotron::matches_slug(slug, ids[last]) && nemotron::byte_len(ids[last])
            < nemotron::byte_len(ids[b]) {
            last
        } else {
            b
        };
        assert(before[b] == ids[b]);
        assert forall|j: int|
            0 <= j < seen.len() && nemotron::matches_slug(
                slug,
                #[trigger] seen[j],
            ) implies nemotron::byte_len(seen[winner]) <= nemotron::byte_len(seen[j]) && (j
            < winner ==> nemotron::byte_len(seen[winner]) < nemotron::byte_len(seen[j])) by {
            if j < n - 1 {
                assert(nemotron::matches_slug(slug, before[j]));
            }
        }
        assert(nemotron::best_at(slug, seen, winner));
    } else {
        let i = choose|i: int| 0 <= i < n && nemotron::matches_slug(slug, #[trigger] ids[i]);
        assert(i == last);
        assert(nemotron::best_at(slug, seen, last));
    }
}

/// A text is part of itself.
proof fn lemma_matches_itself(slug: Seq<char>)
    ensures
        nemotron::matches_slug(slug, slug),
{
    let s = text::ascii_lowered(slug);
    assert(s.subrange(0, s.len() as int) =~= s);
    assert(text::occurs_at(s, s, 0));
}

/// A model is found if and only if the slug is part of an id, whatever the case of ASCII letters;
/// and what is found is one of the ids.
pub proof fn law_a_match_is_found(slug: Seq<char>, ids: Seq<Seq<char>>)
    ensures
        nemotron::best_model(slug, ids) is Some <==> exists|i: int|
            0 <= i < ids.len() && nemotron::matches_slug(slug, #[trigger] ids[i]),
        nemotron::best_model(slug, ids) matches Some(id) ==> ids.contains(id)
            && nemotron::matches_slug(slug, id),
{
    if ids.contains(slug) {
        let i = choose|i: int| 0 <= i < ids.len() && ids[i] == slug;
        lemma_matches_itself(slug);
        assert(nemotron::matches_slug(slug, ids[i]));
    } else {
        if exists|i: int| 0 <= i < ids.len() && nemotron::matches_slug(slug, #[trigger] ids[i]) {
            lemma_best_exists(slug, ids, ids.len() as int);
            assert(ids.take(ids.len() as int) =~= ids);
        }
        if exists|i: int| nemotron::best_at(slug, ids, i) {
            let b = choose|i: int| nemotron::best_at(slug, ids, i);
            assert(nemotron::best_at(slug, ids, b));
            assert(ids.contains(ids[b]));
        }
    }
}

/// An id that is the slug goes before every other match.
pub proof fn law_exact_match_goes_first(slug: Seq<char>, ids: Seq<Seq<char>>)
    requires
        ids.contains(slug),
    ensures
        nemotron::best_model(slug, ids) == Some(slug),
{
}

/// Without an exact match, no other match is shorter than the one that is found.
pub proof fn law_shortest_match_is_found(slug: Seq<char>, ids: Seq<Seq<char>>, j: int)
    requires
        !ids.contains(slug),
        0 <= j < ids.len(),
        nemotron::matches_slug(slug, ids[j]),
    ensures
        nemotron::best_model(slug, ids) is Some,
        nemotron::byte_len(nemotron::best_model(slug, ids)->0) <= nemotron::byte_len(ids[j]),
{
    lemma_best_exists(slug, ids, ids.len() as int);
    assert(ids.take(ids.len() as int) =~= ids);
    let b = choose|i: int| nemotron::best_at(slug, ids, i);
    assert(nemotron::best_at(slug, ids, b));
}

/// A slug is used as it is only where the endpoint lists it or its list cannot be had.
pub proof fn law_slug_as_it_is_only_if_listed_or_no_list(slug: Seq<char>, reply: ModelsReply)
    requires
        nemotron::resolved_model(slug, reply) == Ok::<Seq<char>, CodexErrView>(slug),
    ensures
        reply matches ModelsReply::List(list) ==> nemotron::ids_of(list).contains(slug),
{
    if let ModelsReply::List(list) = reply {
        law_resolved_model_is_listed(slug, list);
    }
}

/// Where the endpoint lists its models, the model that is used is one of them; and there is one
/// unless the list is empty or the slug matches none of them.
pub proof fn law_resolved_model_is_listed(slug: Seq<char>, list: ModelListResponse)
    ensures
        ({
            let ids = nemotron::ids_of(list);
            let model = nemotron::resolved_model(slug, ModelsReply::List(list));
            &&& model matches Ok(id) ==> ids.contains(id)
            &&& model is Err <==> ids.len() == 0 || (!nemotron::auto_slug(slug) && forall|i: int|
                0 <= i < ids.len() ==> !nemotron::matches_slug(slug, #[trigger] ids[i]))
            &&& nemotron::auto_slug(slug) && ids.len() > 0 ==> model == Ok::<
                Seq<char>,
                CodexErrView,
            >(ids[0])
        }),
{
    let ids = nemotron::ids_of(list);
    law_a_match_is_found(slug, ids);
    if ids.len() > 0 {
        assert(ids.contains(ids[0]));
    }
}

/// The instructions stand first, and nothing else is sent as instructions.
pub proof fn law_instructions_stand_first(instructions: Seq<char>, items: Seq<ResponseItem>)
    ensures
        ({
            let messages = nemotron::chat_messages(instructions, items);
            &&& messages.len() > 0
            &&& messages[0] == nemotron::text_message("system"@, instructions)
            &&& forall|i: int| 0 < i < messages.len() ==> (#[trigger] messages[i]).role != "system"@
        }),
    decreases items.len(),
{
    reveal_strlit("system");
    reveal_strlit("assistant");
    reveal_strlit("user");
    reveal_strlit("tool");
    assert("system"@[0] == 's');
    assert("assistant"@[0] == 'a');
    assert("user"@[0] == 'u');
    assert("tool"@[0] == 't');
    if items.len() > 0 {
        law_instructions_stand_first(instructions, items.drop_last());
    }
}

/// Every item that has a message is sent: its message is among those of the chat.
pub proof fn law_every_item_is_sent(instructions: Seq<char>, items: Seq<ResponseItem>, i: int)
    requires
        0 <= i < items.len(),
        nemotron::chat_message(items[i]) is Some,
    ensures
        nemotron::chat_messages(instructions, items).contains(
            nemotron::chat_message(items[i])->0,
        ),
    decreases items.len(),
{
    let m = nemotron::chat_message(items[i])->0;
    let front = items.drop_last();
    let done = nemotron::chat_messages(instructions, front);
    let all = nemotron::chat_messages(instructions, items);
    if i < front.len() {
        law_every_item_is_sent(instructions, front, i);
        let k = choose|k: int| 0 <= k < done.len() && done[k] == m;
        assert(all[k] == m);
    } else {
        assert(all[done.len() as int] == m);
    }
}

/// The id under which a tool call goes out: that of the call for a function, that of the item for
/// a custom tool and the shell.
pub open spec fn chat_call_id(item: ResponseItem) -> Option<Seq<char>> {
    match item {
        ResponseItem::FunctionCall { call_id, .. } => Some(call_id@),
        ResponseItem::CustomToolCall { id, .. } => Some(conversation::or_empty(id)),
        ResponseItem::LocalShellCall { id, .. } => Some(conversation::or_empty(id)),
        _ => None,
    }
}

/// The message that a tool call becomes: it has the name of the tool and the text of the
/// arguments.
pub open spec fn call_sent(item: ResponseItem) -> ChatMessageView {
    match item {
        ResponseItem::FunctionCall { name, arguments, .. } => nemotron::call_message(
            chat_call_id(item)->0,
            name@,
            arguments@,
        ),
        ResponseItem::CustomToolCall { name, input, .. } => nemotron::call_message(
            chat_call_id(item)->0,
            name@,
            input@,
        ),
        ResponseItem::LocalShellCall { action, .. } => nemotron::call_message(
            chat_call_id(item)->0,
            "shell"@,
            match action.text {
                Some(t) => t@,
                None => "{}"@,
            },
        ),
        _ => nemotron::text_message(seq![], seq![]),
    }
}

/// A tool call reaches the model, be it of a function, a custom tool or the shell.
pub proof fn law_tool_calls_reach_the_model(
    instructions: Seq<char>,
    items: Seq<ResponseItem>,
    i: int,
)
    requires
        0 <= i < items.len(),
        chat_call_id(items[i]) is Some,
    ensures
        nemotron::chat_messages(instructions, items).contains(call_sent(items[i])),
        call_sent(items[i]).tool_calls is Some,
        call_sent(items[i]).tool_calls->0.len() == 1,
        call_sent(items[i]).tool_calls->0[0].id == chat_call_id(items[i])->0,
{
    law_every_item_is_sent(instructions, items, i);
}

/// The result of a tool reaches the model under the id of its call, be it a function or a custom
/// tool.
pub proof fn law_tool_results_reach_the_model(
    instructions: Seq<char>,
    items: Seq<ResponseItem>,
    i: int,
)
    requires
        0 <= i < items.len(),
        conversation::sent_result(items[i]) is Some,
    ensures
        nemotron::chat_messages(instructions, items).contains(
            nemotron::result_message(
                conversation::sent_result(items[i])->0.call_id,
                conversation::sent_result(items[i])->0.text,
            ),
        ),
{
    law_every_item_is_sent(instructions, items, i);
}

/// The result of a call carries the id of the call: where an item is the result of a call, both
/// are sent, with one id. This is so of every function call, and of a call of a custom tool or of
/// the shell whose item has the id of the call.
pub proof fn law_results_match_their_calls(
    instructions: Seq<char>,
    items: Seq<ResponseItem>,
    i: int,
    j: int,
)
    requires
        0 <= i < items.len(),
        0 <= j < items.len(),
        conversation::result_of(items[j], items[i]),
        chat_call_id(items[i]) == conversation::call_id_of(items[i]),
    ensures
        ({
            let messages = nemotron::chat_messages(instructions, items);
            let call = call_sent(items[i]);
            let result = nemotron::result_message(
                call.tool_calls->0[0].id,
                conversation::sent_result(items[j])->0.text,
            );
            &&& call.tool_calls is Some
            &&& call.tool_calls->0.len() == 1
            &&& messages.contains(call)
            &&& messages.contains(result)
        }),
{
    law_tool_calls_reach_the_model(instructions, items, i);
    law_tool_results_reach_the_model(instructions, items, j);
}

/// The slug stands somewhere in the id, the case of ASCII letters aside.
pub open spec fn has_in_it(id: Seq<char>, slug: Seq<char>) -> bool {
    exists|p: int|
        0 <= p <= id.len() - slug.len() && text_laws::same_but_for_case(
            #[trigger] id.subrange(p, p + slug.len()),
            slug,
        )
}

/// The slug is `*`, or `auto` in any case.
pub open spec fn asks_for_any(slug: Seq<char>) -> bool {
    slug == seq!['*'] || text_laws::same_but_for_case(slug, seq!['a', 'u', 't', 'o'])
}

/// The id at `i` has the slug in it; no id that has it is shorter, and none before it is as short.
pub open spec fn first_of_the_shortest(ids: Seq<Seq<char>>, slug: Seq<char>, i: int) -> bool {
    &&& 0 <= i < ids.len()
    &&& has_in_it(ids[i], slug)
    &&& forall|j: int|
        0 <= j < ids.len() && has_in_it(#[trigger] ids[j], slug) ==> {
            &&& encode_utf8(ids[i]).len() <= encode_utf8(ids[j]).len()
            &&& j < i ==> encode_utf8(ids[i]).len() < encode_utf8(ids[j]).len()
        }
}

proof fn lemma_has_in_it(id: Seq<char>, slug: Seq<char>)
    ensures
        nemotron::matches_slug(slug, id) <==> has_in_it(id, slug),
{
    let a = text::ascii_lowered(id);
    let b = text::ascii_lowered(slug);
    assert forall|p: int| 0 <= p <= id.len() - slug.len() implies (#[trigger] text::occurs_at(
        a,
        b,
        p,
    ) <==> text_laws::same_but_for_case(id.subrange(p, p + slug.len()), slug)) by {
        let part = id.subrange(p, p + slug.len());
        assert(a.subrange(p, p + b.len()) =~= text::ascii_lowered(part));
        text_laws::law_lower_case_forgets_the_case_of_ascii_letters(part, slug);
    }
    if nemotron::matches_slug(slug, id) {
        let p = choose|p: int| text::occurs_at(a, b, p);
        assert(text_laws::same_but_for_case(id.subrange(p, p + slug.len()), slug));
    }
    if has_in_it(id, slug) {
        let p = choose|p: int|
            0 <= p <= id.len() - slug.len() && text_laws::same_but_for_case(
                #[trigger] id.subrange(p, p + slug.len()),
                slug,
            );
        assert(text::occurs_at(a, b, p));
    }
}

/// A slug asks for any model exactly if it is `*`, or `auto` in any case.
pub proof fn law_which_slugs_ask_for_any_model(slug: Seq<char>)
    ensures
        nemotron::auto_slug(slug) <==> asks_for_any(slug),
{
    reveal_strlit("auto");
    reveal_strlit("*");
    assert("*"@ =~= seq!['*']);
    assert("auto"@ =~= seq!['a', 'u', 't', 'o']);
    let auto = "auto"@;
    text_laws::law_lower_case_forgets_the_case_of_ascii_letters(slug, auto);
    assert(text::ascii_lowered(auto) =~= auto);
}

/// The best match is the slug itself where it is an id, or else the first of the shortest ids
/// that have it in them; and there is one exactly if an id has it in it.
pub proof fn law_the_best_match(slug: Seq<char>, ids: Seq<Seq<char>>)
    ensures
        ids.contains(slug) ==> nemotron::best_model(slug, ids) == Some(slug),
        !ids.contains(slug) ==> match nemotron::best_model(slug, ids) {
            Some(id) => exists|i: int| #[trigger]
                first_of_the_shortest(ids, slug, i) && ids[i] == id,
            None => forall|i: int| 0 <= i < ids.len() ==> !has_in_it(#[trigger] ids[i], slug),
        },
{
    assert forall|i: int| 0 <= i < ids.len() implies nemotron::matches_slug(slug, ids[i])
        == has_in_it(#[trigger] ids[i], slug) by {
        lemma_has_in_it(ids[i], slug);
    }
    law_a_match_is_found(slug, ids);
    if !ids.contains(slug) {
        if nemotron::best_model(slug, ids) is Some {
            let b = choose|i: int| nemotron::best_at(slug, ids, i);
            assert(nemotron::best_at(slug, ids, b));
            assert forall|j: int| 0 <= j < ids.len() && has_in_it(#[trigger] ids[j], slug) implies {
                &&& encode_utf8(ids[b]).len() <= encode_utf8(ids[j]).len()
                &&& j < b ==> encode_utf8(ids[b]).len() < encode_utf8(ids[j]).len()
            } by {
                assert(nemotron::matches_slug(slug, ids[j]));
                assert(nemotron::byte_len(ids[b]) <= nemotron::byte_len(ids[j]));
            }
            assert(first_of_the_shortest(ids, slug, b));
        } else {
            assert forall|i: int| 0 <= i < ids.len() implies !has_in_it(
                #[trigger] ids[i],
                slug,
            ) by {
                assert(!nemotron::matches_slug(slug, ids[i]));
            }
        }
    }
}

/// Which model is used where the endpoint lists its models. A slug that asks for any model takes
/// the first. Any other slug takes the id that it is, where it is one; or else an id that has it
/// in it, the first of the shortest; and where there is none, nothing is used and all are named.
pub proof fn law_which_listed_model_is_used(slug: Seq<char>, list: ModelListResponse)
    ensures
        ({
            let ids = Seq::new(list.data@.len(), |i: int| list.data@[i].id@);
            let model = nemotron::resolved_model(slug, ModelsReply::List(list));
            &&& ids.len() == 0 ==> model == Err::<Seq<char>, CodexErrView>(
                CodexErrView::UnsupportedOperation("No models available on the vLLM endpoint"@),
            )
            &&& ids.len() > 0 && asks_for_any(slug) ==> model == Ok::<Seq<char>, CodexErrView>(
                ids[0],
            )
            &&& ids.len() > 0 && !asks_for_any(slug) && ids.contains(slug) ==> model == Ok::<
                Seq<char>,
                CodexErrView,
            >(slug)
            &&& ids.len() > 0 && !asks_for_any(slug) && !ids.contains(slug) ==> match model {
                Ok(id) => exists|i: int| #[trigger]
                    first_of_the_shortest(ids, slug, i) && ids[i] == id,
                Err(e) => {
                    &&& forall|i: int| 0 <= i < ids.len() ==> !has_in_it(#[trigger] ids[i], slug)
                    &&& e == CodexErrView::UnsupportedOperation(
                        "Model '"@ + slug + "' not found. Available models: "@ + text::joined(
                            ids,
                            ", "@,
                        ),
                    )
                },
            }
        }),
{
    let ids = Seq::new(list.data@.len(), |i: int| list.data@[i].id@);
    assert(nemotron::ids_of(list) =~= ids);
    law_which_slugs_ask_for_any_model(slug);
    law_the_best_match(slug, ids);
}

/// The slug passes for a full id: it does not ask for any model, and behind its last slash stand
/// more than twenty bytes.
pub open spec fn looks_like_a_full_id(slug: Seq<char>) -> bool {
    !asks_for_any(slug) && exists|i: int|
        0 <= i < slug.len() && slug[i] == '/' && !slug.skip(i + 1).contains('/') && encode_utf8(
            #[trigger] slug.skip(i + 1),
        ).len() > 20
}

/// A slug passes for a full id exactly if it asks for no other model and more than twenty bytes
/// stand behind its last slash.
pub proof fn law_which_slugs_pass_for_a_full_id(slug: Seq<char>)
    ensures
        nemotron::full_id(slug) <==> looks_like_a_full_id(slug),
{
    law_which_slugs_ask_for_any_model(slug);
    text_laws::law_rfind_gives_the_last_place(slug, '/');
    match text::rfind_char(slug, '/') {
        Some(i) => {
            let rest = slug.skip(i + 1);
            assert(slug.contains('/')) by {
                assert(slug[i] == '/');
            }
            assert(!rest.contains('/')) by {
                if rest.contains('/') {
                    let k = choose|k: int| 0 <= k < rest.len() && rest[k] == '/';
                    assert(slug[i + 1 + k] == '/');
                }
            }
            if looks_like_a_full_id(slug) {
                let j = choose|j: int|
                    0 <= j < slug.len() && slug[j] == '/' && !slug.skip(j + 1).contains('/')
                        && encode_utf8(#[trigger] slug.skip(j + 1)).len() > 20;
                if j < i {
                    let tail = slug.skip(j + 1);
                    assert(tail[i - j - 1] == '/');
                }
                assert(j == i);
            }
        },
        None => {},
    }
}

/// Which model is used where the list of the endpoint cannot be had. A refused list leaves a slug
/// as it is, unless it asks for any model; an answer that does not come or is not understood does
/// so only for a slug that passes for a full id. All else fails, and says why.
pub proof fn law_which_model_is_used_without_a_list(slug: Seq<char>, reply: ModelsReply)
    ensures
        nemotron::resolved_model(slug, reply) == (match reply {
            ModelsReply::List(_) => nemotron::resolved_model(slug, reply),
            ModelsReply::Refused { status_text } => if asks_for_any(slug) {
                Err(
                    CodexErrView::UnsupportedOperation(
                        "Cannot auto-detect model: /v1/models returned "@ + status_text@,
                    ),
                )
            } else {
                Ok(slug)
            },
            ModelsReply::Failed { url, message } => if looks_like_a_full_id(slug) {
                Ok(slug)
            } else {
                Err(
                    CodexErrView::UnsupportedOperation(
                        "Failed to query "@ + url@ + ": "@ + message@,
                    ),
                )
            },
            ModelsReply::Unreadable { message } => if looks_like_a_full_id(slug) {
                Ok(slug)
            } else {
                Err(
                    CodexErrView::UnsupportedOperation(
                        "Failed to parse /v1/models response: "@ + message@,
                    ),
                )
            },
        }),
{
    law_which_slugs_ask_for_any_model(slug);
    law_which_slugs_pass_for_a_full_id(slug);
}

/// The message that an item becomes, if any, stated on the item.
pub open spec fn own_message(item: ResponseItem) -> Option<ChatMessageView> {
    match item {
        ResponseItem::Message { role, content, .. } => {
            let text = conversation_laws::all_text(content@, |url: Seq<char>| url);
            if role@ == "system"@ || conversation_laws::nothing_to_read(text) {
                None
            } else {
                Some(
                    ChatMessageView {
                        role: if role@ == "assistant"@ {
                            "assistant"@
                        } else {
                            "user"@
                        },
                        content: Some(text),
                        tool_calls: None,
                        tool_call_id: None,
                    },
                )
            }
        },
        ResponseItem::FunctionCall { name, arguments, call_id, .. } => Some(
            call_of(call_id@, name@, arguments@),
        ),
        ResponseItem::CustomToolCall { id, name, input, .. } => Some(
            call_of(conversation_laws::text_if_any(id), name@, input@),
        ),
        ResponseItem::LocalShellCall { id, action, .. } => Some(
            call_of(
                conversation_laws::text_if_any(id),
                "shell"@,
                if action.text is Some {
                    action.text->0@
                } else {
                    "{}"@
                },
            ),
        ),
        ResponseItem::FunctionCallOutput { call_id, output } => Some(
            ChatMessageView {
                role: "tool"@,
                content: Some(conversation_laws::said_by_tool(output)),
                tool_calls: None,
                tool_call_id: Some(call_id@),
            },
        ),
        ResponseItem::CustomToolCallOutput { call_id, output } => Some(
            ChatMessageView {
                role: "tool"@,
                content: Some(conversation_laws::text_if_any(output.text_content)),
                tool_calls: None,
                tool_call_id: Some(call_id@),
            },
        ),
        _ => None,
    }
}

/// A message of the assistant that is one call of a function.
pub open spec fn call_of(id: Seq<char>, name: Seq<char>, arguments: Seq<char>) -> ChatMessageView {
    ChatMessageView {
        role: "assistant"@,
        content: None,
        tool_calls: Some(
            seq![
                ToolCallMessageView {
                    id,
                    kind: "function"@,
                    function: FunctionCallView { name, arguments },
                },
            ],
        ),
        tool_call_id: None,
    }
}

/// The messages of the items, in the order of the items.
pub open spec fn own_messages(items: Seq<ResponseItem>) -> Seq<ChatMessageView>
    decreases items.len(),
{
    if items.len() == 0 {
        seq![]
    } else if own_message(items[0]) is Some {
        seq![own_message(items[0])->0] + own_messages(items.skip(1))
    } else {
        own_messages(items.skip(1))
    }
}

proof fn lemma_chat_text(content: Seq<ContentItem>)
    ensures
        nemotron::chat_text(content) == conversation_laws::all_text(
            content,
            |url: Seq<char>| url,
        ),
    decreases content.len(),
{
    if content.len() > 0 {
        lemma_chat_text(content.drop_last());
    }
}

/// An item becomes the message that says what the item says.
pub proof fn law_an_item_says_the_same_in_its_message(item: ResponseItem)
    ensures
        nemotron::chat_message(item) == own_message(item),
{
    reveal_strlit("assistant");
    reveal_strlit("system");
    assert("assistant"@.len() != "system"@.len());
    match item {
        ResponseItem::Message { role, content, .. } => {
            lemma_chat_text(content@);
        },
        ResponseItem::FunctionCallOutput { call_id, output } => {
            conversation_laws::law_a_tool_output_is_all_that_the_tool_said(output);
        },
        _ => {},
    }
}

proof fn lemma_own_messages_last(items: Seq<ResponseItem>)
    requires
        items.len() > 0,
    ensures
        own_messages(items) == own_messages(items.drop_last()) + (if own_message(
            items.last(),
        ) is Some {
            seq![own_message(items.last())->0]
        } else {
            seq![]
        }),
    decreases items.len(),
{
    reveal_with_fuel(own_messages, 2);
    if items.len() == 1 {
        assert(items.skip(1) =~= seq![]);
        assert(items.drop_last() =~= seq![]);
        assert(own_messages(items) =~= own_messages(items.drop_last()) + (if own_message(
            items.last(),
        ) is Some {
            seq![own_message(items.last())->0]
        } else {
            seq![]
        }));
    } else {
        lemma_own_messages_last(items.skip(1));
        assert(items.skip(1).drop_last() =~= items.drop_last().skip(1));
        assert(own_messages(items) =~= own_messages(items.drop_last()) + (if own_message(
            items.last(),
        ) is Some {
            seq![own_message(items.last())->0]
        } else {
            seq![]
        }));
    }
}

/// A chat is the instructions, and then the message of every item that has one, in the order of
/// the conversation. Nothing else is in it.
pub proof fn law_a_chat_is_the_conversation_in_order(
    instructions: Seq<char>,
    items: Seq<ResponseItem>,
)
    ensures
        nemotron::chat_messages(instructions, items) == seq![
            ChatMessageView {
                role: "system"@,
                content: Some(instructions),
                tool_calls: None,
                tool_call_id: None,
            },
        ] + own_messages(items),
    decreases items.len(),
{
    if items.len() > 0 {
        law_a_chat_is_the_conversation_in_order(instructions, items.drop_last());
        law_an_item_says_the_same_in_its_message(items.last());
        lemma_own_messages_last(items);
    }
    assert(nemotron::chat_messages(instructions, items) =~= seq![
        ChatMessageView {
            role: "system"@,
            content: Some(instructions),
            tool_calls: None,
            tool_call_id: None,
        },
    ] + own_messages(items));
}

/// A plan holds the conversation behind its instructions, and the function tools of the prompt
/// where there is one. It fails exactly where a function tool has no schema, with the complaint
/// about the first of them.
pub proof fn law_a_plan_holds_the_prompt(prompt: Prompt)
    ensures
        nemotron::chat_plan(prompt) is Err <==> exists|i: int|
            0 <= i < prompt.tools@.len() && tools_laws::unusable(#[trigger] prompt.tools@[i]),
        nemotron::chat_plan(prompt) matches Err(e) ==> exists|i: int|
            0 <= i < prompt.tools@.len() && tools_laws::unusable(#[trigger] prompt.tools@[i]) && e
                == CodexErrView::Json(prompt.tools@[i]->Function_0.parameters->Err_0@)
                && forall|j: int| 0 <= j < i ==> !tools_laws::unusable(#[trigger] prompt.tools@[j]),
        nemotron::chat_plan(prompt) matches Ok(plan) ==> {
            &&& plan.messages == seq![
                ChatMessageView {
                    role: "system"@,
                    content: Some(prompt.base_instructions.text@),
                    tool_calls: None,
                    tool_call_id: None,
                },
            ] + own_messages(prompt.input@)
            &&& plan.tools is None <==> tools_laws::function_tools(prompt.tools@).len() == 0
            &&& plan.tools matches Some(defs) ==> {
                &&& defs.len() == tools_laws::function_tools(prompt.tools@).len()
                &&& forall|i: int|
                    0 <= i < defs.len() ==> {
                        let f = tools_laws::function_tools(prompt.tools@)[i];
                        &&& (#[trigger] defs[i]).kind == "function"@
                        &&& defs[i].function.name == f.name@
                        &&& defs[i].function.description == f.description@
                        &&& defs[i].function.parameters == nemotron_tools::flattened(
                            f.parameters->Ok_0.tree(),
                        )
                    }
            }
        },
{
    law_a_chat_is_the_conversation_in_order(prompt.base_instructions.text@, prompt.input@);
    tools_laws::law_nemotron_offers_the_function_tools(prompt.tools@);
    tools_laws::law_nemotron_fails_on_the_first_unusable_tool(prompt.tools@);
}

/// A request names the model, holds the plan, allows an answer of 32768 tokens, passes on the
/// thinking budget, and asks for a stream with token counts. The model may choose a tool exactly
/// if there is one.
pub proof fn law_a_request_holds_the_plan(
    model: Seq<char>,
    plan: ChatPlanView,
    thinking_budget: u32,
)
    ensures
        ({
            let request = nemotron::chat_completion_request(model, plan, thinking_budget);
            &&& request.model == model
            &&& request.messages == plan.messages
            &&& request.max_tokens == Some(32768u32)
            &&& request.tools == plan.tools
            &&& request.tool_choice == (if plan.tools is Some {
                Some("auto"@)
            } else {
                None
            })
            &&& request.chat_template_kwargs is Some
            &&& request.chat_template_kwargs->0.thinking_budget == thinking_budget
            &&& request.stream
            &&& request.stream_options is Some
            &&& request.stream_options->0.include_usage
        }),
{
}

/// The first thinking budget is the number that is set, or 4096 where none is; but no less than
/// 1024.
pub proof fn law_the_first_budget(setting: Option<Seq<char>>)
    ensures
        ({
            let wanted: nat = if setting is Some && text::unsigned_number(
                setting->0,
                0xffff_ffff,
            ) is Some {
                text::unsigned_number(setting->0, 0xffff_ffff)->0
            } else {
                4096
            };
            nemotron::first_budget(setting) == (if wanted < 1024 {
                1024
            } else {
                wanted
            })
        }),
{
}

/// The texts of a list of ids are those of its entries, one for one.
pub proof fn law_ids_are_told_one_by_one<'a>(models: Seq<&'a str>)
    ensures
        nemotron::texts(models).len() == models.len(),
        forall|i: int|
            0 <= i < models.len() ==> #[trigger] nemotron::texts(models)[i] == models[i]@,
{
}

/// What is told of a request is what it holds.
pub proof fn law_a_request_is_told_as_it_is<'a>(request: ChatCompletionRequest<'a>)
    ensures
        ({
            let view = request.deep_view();
            &&& view.model == request.model@
            &&& view.max_tokens == request.max_tokens
            &&& view.chat_template_kwargs == request.chat_template_kwargs
            &&& view.stream == request.stream
            &&& view.stream_options == request.stream_options
            &&& view.messages.len() == request.messages@.len()
            &&& forall|i: int|
                0 <= i < request.messages@.len() ==> {
                    let m = request.messages@[i];
                    &&& (#[trigger] view.messages[i]).role == m.role@
                    &&& view.messages[i].content is Some <==> m.content is Some
                    &&& m.content is Some ==> view.messages[i].content->0 == m.content->0@
                    &&& view.messages[i].tool_call_id is Some <==> m.tool_call_id is Some
                    &&& m.tool_call_id is Some ==> view.messages[i].tool_call_id->0
                        == m.tool_call_id->0@
                    &&& view.messages[i].tool_calls is Some <==> m.tool_calls is Some
                }
            &&& view.tool_choice is Some <==> request.tool_choice is Some
            &&& request.tool_choice is Some ==> view.tool_choice->0 == request.tool_choice->0@
            &&& view.tools is Some <==> request.tools is Some
            &&& request.tools is Some ==> view.tools->0.len() == request.tools->0@.len()
        }),
{
}

/// A request may take as many seconds as are set, or 120 where no number is.
pub proof fn law_the_request_timeout(setting: Option<Seq<char>>)
    ensures
        ({
            let number = if setting is Some {
                text::unsigned_number(setting->0, 0xffff_ffff_ffff_ffff)
            } else {
                None
            };
            &&& number is Some ==> nemotron::request_timeout(setting) == number->0
            &&& number is None ==> nemotron::request_timeout(setting) == 120
        }),
{
}

/// A prompt is refused exactly if it asks for a schema of the answer.
pub proof fn law_which_prompts_are_refused(prompt: Prompt)
    ensures
        prompt.output_schema is None ==> nemotron::refusal(prompt) is None,
        prompt.output_schema is Some ==> nemotron::refusal(prompt) == Some(
            CodexErrView::UnsupportedOperation(
                "output_schema is not supported for Nemotron Chat Completions API"@,
            ),
        ),
{
}

} // verus!
