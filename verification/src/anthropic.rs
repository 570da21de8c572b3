//! Requests to the Anthropic Messages API.

use crate::anthropic_types::{
    ContentBlockParam, ContentBlockParamView, MessageContent, MessageContentView, MessageParam,
    MessageParamView, MessagesRequest, MessagesRequestView,
};
use crate::conversation;
use crate::error::{CodexErr, CodexErrView};
use crate::json;
use crate::json::{Json, JsonTree};
use crate::models::{ContentItem, Prompt, ResponseItem};
use crate::text;
use crate::tools::anthropic_tools;
use vstd::prelude::*;

verus! {

/// The limit on the tokens of an answer. A model with a lower limit of its own stops there.
pub const DEFAULT_MAX_TOKENS: u32 = 8192;

/// The blocks of a content; a plain text is one text block.
pub open spec fn blocks_of(content: MessageContentView) -> Seq<ContentBlockParamView> {
    match content {
        MessageContentView::Text(t) => seq![ContentBlockParamView::Text { text: t }],
        MessageContentView::Blocks(b) => b,
    }
}

/// Two messages of one role as one: the blocks of both.
pub open spec fn merged(a: MessageParamView, b: MessageParamView) -> MessageParamView {
    MessageParamView {
        role: a.role,
        content: MessageContentView::Blocks(blocks_of(a.content) + blocks_of(b.content)),
    }
}

/// The messages with each run of messages of one role merged into one.
pub open spec fn coalesced(messages: Seq<MessageParamView>) -> Seq<MessageParamView>
    decreases messages.len(),
{
    if messages.len() == 0 {
        seq![]
    } else {
        let done = coalesced(messages.drop_last());
        let next = messages.last();
        if done.len() > 0 && done.last().role == next.role {
            done.drop_last().push(merged(done.last(), next))
        } else {
            done.push(next)
        }
    }
}

/// Turns a content into blocks, and hands out the blocks for appending.
pub fn content_to_blocks(content: &mut MessageContent) -> (blocks: &mut Vec<ContentBlockParam>)
    ensures
        blocks.deep_view() == blocks_of(old(content).deep_view()),
        *final(content) == MessageContent::Blocks(*final(blocks)),
{
    if let MessageContent::Text(_) = content {
        let mut old_content = MessageContent::Blocks(Vec::new());
        std::mem::swap(content, &mut old_content);
        if let MessageContent::Text(t) = old_content {
            let mut blocks: Vec<ContentBlockParam> = Vec::new();
            blocks.push(ContentBlockParam::Text { text: t });
            *content = MessageContent::Blocks(blocks);
        }
    }
    match content {
        MessageContent::Blocks(blocks) => blocks,
        MessageContent::Text(_) => vstd::pervasive::unreached(),
    }
}

/// Merges adjacent messages of one role.
///
/// The API wants the roles of a conversation to alternate. Where several messages of one role
/// follow each other, such as the results of several tools, they become one message with the
/// blocks of all.
pub fn coalesce_messages(messages: Vec<MessageParam>) -> (result: Vec<MessageParam>)
    ensures
        result.deep_view() == coalesced(messages.deep_view()),
{
    let mut result: Vec<MessageParam> = Vec::with_capacity(messages.len());
    let ghost all = messages@;
    let ghost views = messages.deep_view();
    assert(result.deep_view() =~= coalesced(views.take(0)));
    for msg in it: messages
        invariant
            it.seq() == all,
            views.len() == all.len(),
            forall|i: int| 0 <= i < all.len() ==> (#[trigger] views[i]) == all[i].deep_view(),
            result.deep_view() == coalesced(views.take(it.index() as int)),
    {
        let ghost k = it.index() as int;
        let ghost before = result.deep_view();
        assert(views[k] == msg.deep_view());
        assert(views.take(k + 1).drop_last() =~= views.take(k));
        assert(views.take(k + 1).last() == msg.deep_view());
        let n = result.len();
        if n > 0 && text::same_text(result[n - 1].role.as_str(), msg.role.as_str()) {
            assert(before.last() == result@.last().deep_view());
            let ghost last_view = before.last();
            match result.pop() {
                Some(last) => {
                    let mut last = last;
                    let mut new_blocks = match msg.content {
                        MessageContent::Text(t) => {
                            let mut b: Vec<ContentBlockParam> = Vec::new();
                            b.push(ContentBlockParam::Text { text: t });
                            b
                        },
                        MessageContent::Blocks(b) => b,
                    };
                    assert(new_blocks.deep_view() =~= blocks_of(msg.content.deep_view()));
                    let ghost added = new_blocks.deep_view();
                    let blocks = content_to_blocks(&mut last.content);
                    let ghost old_blocks = blocks.deep_view();
                    blocks.append(&mut new_blocks);
                    assert(blocks.deep_view() =~= old_blocks + added);
                    assert(last.deep_view() == merged(last_view, views[k]));
                    result.push(last);
                    assert(result.deep_view() =~= before.drop_last().push(
                        merged(last_view, views[k]),
                    ));
                },
                None => {},
            }
        } else {
            if n > 0 {
                assert(before.last() == result@.last().deep_view());
            }
            result.push(msg);
            assert(result.deep_view() =~= before.push(views[k]));
        }
    }
    assert(views.take(all.len() as int) =~= views);
    result
}

/// Whether a block is a text block without any text to read.
pub open spec fn blank_block(b: ContentBlockParamView) -> bool {
    match b {
        ContentBlockParamView::Text { text } => text::blank(text),
        _ => false,
    }
}

/// The blocks that are not blank text.
pub open spec fn readable_blocks(blocks: Seq<ContentBlockParamView>) -> Seq<
    ContentBlockParamView,
> {
    blocks.filter(|b: ContentBlockParamView| !blank_block(b))
}

/// A message without its blank text; where nothing else was in it, without any blocks.
pub open spec fn stripped_message(m: MessageParamView) -> MessageParamView {
    match m.content {
        MessageContentView::Text(t) => if text::blank(t) {
            MessageParamView { role: m.role, content: MessageContentView::Blocks(seq![]) }
        } else {
            m
        },
        MessageContentView::Blocks(b) => MessageParamView {
            role: m.role,
            content: MessageContentView::Blocks(readable_blocks(b)),
        },
    }
}

/// Whether a message has an empty list of blocks.
pub open spec fn empty_message(m: MessageParamView) -> bool {
    m.content == MessageContentView::Blocks(seq![])
}

/// The messages without blank text, and without those that had nothing else.
pub open spec fn stripped(messages: Seq<MessageParamView>) -> Seq<MessageParamView> {
    messages.map_values(|m: MessageParamView| stripped_message(m)).filter(
        |m: MessageParamView| !empty_message(m),
    )
}

proof fn lemma_filter_take<A>(s: Seq<A>, k: int, f: spec_fn(A) -> bool)
    requires
        0 <= k < s.len(),
    ensures
        s.take(k + 1).filter(f) == (if f(s[k]) {
            s.take(k).filter(f).push(s[k])
        } else {
            s.take(k).filter(f)
        }),
{
    reveal(Seq::filter);
    assert(s.take(k + 1).drop_last() =~= s.take(k));
    assert(s.take(k + 1).last() == s[k]);
}

/// The blocks that are not blank text.
fn keep_readable(blocks: Vec<ContentBlockParam>) -> (kept: Vec<ContentBlockParam>)
    ensures
        kept.deep_view() == readable_blocks(blocks.deep_view()),
{
    let mut kept: Vec<ContentBlockParam> = Vec::new();
    let ghost all = blocks@;
    let ghost views = blocks.deep_view();
    let ghost f = |b: ContentBlockParamView| !blank_block(b);
    proof {
        reveal(Seq::filter);
        assert(kept.deep_view() =~= views.take(0).filter(f));
    }
    for b in it: blocks
        invariant
            it.seq() == all,
            views.len() == all.len(),
            f == (|b: ContentBlockParamView| !blank_block(b)),
            forall|i: int| 0 <= i < all.len() ==> (#[trigger] views[i]) == all[i].deep_view(),
            kept.deep_view() == views.take(it.index() as int).filter(f),
    {
        let ghost k = it.index() as int;
        let ghost before = kept.deep_view();
        proof {
            assert(views[k] == b.deep_view());
            lemma_filter_take(views, k, f);
        }
        let keep = match &b {
            ContentBlockParam::Text { text } => !text::is_blank(text.as_str()),
            _ => true,
        };
        if keep {
            kept.push(b);
            assert(kept.deep_view() =~= before.push(views[k]));
        }
    }
    assert(views.take(all.len() as int) =~= views);
    kept
}

/// Removes text blocks that are empty or hold white space only, and every message that is left
/// without a block.
pub fn strip_empty_text_blocks(messages: &mut Vec<MessageParam>)
    ensures
        final(messages).deep_view() == stripped(old(messages).deep_view()),
{
    let mut taken: Vec<MessageParam> = Vec::new();
    std::mem::swap(messages, &mut taken);
    let ghost all = taken@;
    let ghost views = taken.deep_view().map_values(|m: MessageParamView| stripped_message(m));
    let ghost f = |m: MessageParamView| !empty_message(m);
    let mut kept: Vec<MessageParam> = Vec::new();
    proof {
        reveal(Seq::filter);
        assert(kept.deep_view() =~= views.take(0).filter(f));
    }
    for m in it: taken
        invariant
            it.seq() == all,
            views.len() == all.len(),
            f == (|m: MessageParamView| !empty_message(m)),
            forall|i: int|
                0 <= i < all.len() ==> (#[trigger] views[i]) == stripped_message(
                    all[i].deep_view(),
                ),
            kept.deep_view() == views.take(it.index() as int).filter(f),
    {
        let ghost k = it.index() as int;
        let ghost before = kept.deep_view();
        proof {
            assert(views[k] == stripped_message(m.deep_view()));
            lemma_filter_take(views, k, f);
        }
        let content = match m.content {
            MessageContent::Text(t) => if text::is_blank(t.as_str()) {
                MessageContent::Blocks(Vec::new())
            } else {
                MessageContent::Text(t)
            },
            MessageContent::Blocks(blocks) => MessageContent::Blocks(keep_readable(blocks)),
        };
        let msg = MessageParam { role: m.role, content };
        let empty = match &msg.content {
            MessageContent::Blocks(b) => {
                assert(b.deep_view().len() == b@.len());
                assert(b@.len() == 0 ==> b.deep_view() =~= seq![]);
                b.len() == 0
            },
            MessageContent::Text(_) => false,
        };
        assert(msg.deep_view() == views[k]);
        if !empty {
            kept.push(msg);
            assert(kept.deep_view() =~= before.push(views[k]));
        }
    }
    assert(views.take(all.len() as int) =~= views);
    *messages = kept;
}

/// The text of a piece of content; an image has none.
pub open spec fn content_text(c: ContentItem) -> Seq<char> {
    match c {
        ContentItem::InputText { text } => text@,
        ContentItem::OutputText { text } => text@,
        ContentItem::InputImage { image_url } => seq![],
    }
}

/// The text of a content, put together.
pub open spec fn message_text(content: Seq<ContentItem>) -> Seq<char>
    decreases content.len(),
{
    if content.len() == 0 {
        seq![]
    } else {
        message_text(content.drop_last()) + content_text(content.last())
    }
}

/// The block that a piece of content becomes.
pub open spec fn content_block(c: ContentItem) -> ContentBlockParamView {
    match c {
        ContentItem::InputText { text } => ContentBlockParamView::Text { text: text@ },
        ContentItem::OutputText { text } => ContentBlockParamView::Text { text: text@ },
        ContentItem::InputImage { image_url } => ContentBlockParamView::Text {
            text: conversation::image_note(image_url@),
        },
    }
}

/// Whether there is an image in a content.
pub open spec fn has_image(content: Seq<ContentItem>) -> bool {
    exists|i: int| 0 <= i < content.len() && (#[trigger] content[i]) is InputImage
}

/// The message that a message of the conversation becomes. With an image in it, it goes out as
/// blocks, otherwise as one text; without an image and without a text to read it is left out.
pub open spec fn plain_message(role: Seq<char>, content: Seq<ContentItem>) -> Option<
    MessageParamView,
> {
    match conversation::wire_role(role) {
        None => None,
        Some(r) => if has_image(content) {
            Some(
                MessageParamView {
                    role: r,
                    content: MessageContentView::Blocks(
                        content.map_values(|c: ContentItem| content_block(c)),
                    ),
                },
            )
        } else if text::blank(message_text(content)) {
            None
        } else {
            Some(
                MessageParamView {
                    role: r,
                    content: MessageContentView::Text(message_text(content)),
                },
            )
        },
    }
}

/// The message that a tool call becomes.
pub open spec fn tool_use(id: Seq<char>, name: Seq<char>, input: JsonTree) -> MessageParamView {
    MessageParamView {
        role: "assistant"@,
        content: MessageContentView::Blocks(
            seq![ContentBlockParamView::ToolUse { id, name, input }],
        ),
    }
}

/// The message that the result of a tool becomes.
pub open spec fn tool_result(call_id: Seq<char>, content: Seq<char>) -> MessageParamView {
    MessageParamView {
        role: "user"@,
        content: MessageContentView::Blocks(
            seq![
                ContentBlockParamView::ToolResult {
                    tool_use_id: call_id,
                    content: Some(content),
                    is_error: None,
                },
            ],
        ),
    }
}

/// The complaint about tool arguments that are not JSON.
pub open spec fn bad_arguments(name: Seq<char>, message: Seq<char>) -> CodexErrView {
    CodexErrView::UnsupportedOperation(
        "Invalid JSON in tool arguments for `"@ + name + "`: "@ + message,
    )
}

/// The message that a function call becomes, given what its arguments were read as.
pub open spec fn function_call(
    name: Seq<char>,
    call_id: Seq<char>,
    arguments: Result<JsonTree, Seq<char>>,
) -> Result<MessageParamView, CodexErrView> {
    match arguments {
        Ok(input) => Ok(tool_use(call_id, name, input)),
        Err(message) => Err(bad_arguments(name, message)),
    }
}

/// The message that a custom tool call becomes, given what its input was read as. An input that
/// is not JSON goes out as an empty object.
pub open spec fn custom_tool_call(
    call_id: Seq<char>,
    name: Seq<char>,
    input: Result<JsonTree, Seq<char>>,
) -> MessageParamView {
    tool_use(
        call_id,
        name,
        match input {
            Ok(tree) => tree,
            Err(_) => JsonTree::Object(seq![]),
        },
    )
}

/// The message that an item of the conversation becomes, if any.
pub open spec fn item_message(item: ResponseItem) -> Result<
    Option<MessageParamView>,
    CodexErrView,
> {
    match item {
        ResponseItem::Message { role, content, .. } => Ok(plain_message(role@, content@)),
        ResponseItem::FunctionCall { name, arguments, call_id, .. } => match function_call(
            name@,
            call_id@,
            json::json_text(arguments@),
        ) {
            Ok(m) => Ok(Some(m)),
            Err(e) => Err(e),
        },
        ResponseItem::FunctionCallOutput { call_id, output } => Ok(
            Some(tool_result(call_id@, conversation::output_text(output))),
        ),
        ResponseItem::LocalShellCall { id, call_id, action } => Ok(
            Some(
                tool_use(
                    conversation::shell_call_id(call_id, id),
                    "shell"@,
                    match action.value {
                        Some(json) => json.tree(),
                        None => JsonTree::Null,
                    },
                ),
            ),
        ),
        ResponseItem::CustomToolCall { call_id, name, input, .. } => Ok(
            Some(custom_tool_call(call_id@, name@, json::json_text(input@))),
        ),
        ResponseItem::CustomToolCallOutput { call_id, output } => Ok(
            Some(tool_result(call_id@, conversation::or_empty(output.text_content))),
        ),
        _ => Ok(None),
    }
}

/// The messages that the items of a conversation become, in order. The first item that cannot
/// be converted makes the whole conversion fail.
pub open spec fn item_messages(items: Seq<ResponseItem>) -> Result<
    Seq<MessageParamView>,
    CodexErrView,
>
    decreases items.len(),
{
    if items.len() == 0 {
        Ok(seq![])
    } else {
        match item_messages(items.drop_last()) {
            Err(e) => Err(e),
            Ok(done) => match item_message(items.last()) {
                Err(e) => Err(e),
                Ok(None) => Ok(done),
                Ok(Some(m)) => Ok(done.push(m)),
            },
        }
    }
}

/// The messages of a request: those of the items, coalesced and stripped.
pub open spec fn request_messages(items: Seq<ResponseItem>) -> Result<
    Seq<MessageParamView>,
    CodexErrView,
> {
    match item_messages(items) {
        Ok(messages) => Ok(stripped(coalesced(messages))),
        Err(e) => Err(e),
    }
}

/// The request for a prompt.
pub open spec fn messages_request(prompt: Prompt, model: Seq<char>) -> Result<
    MessagesRequestView,
    CodexErrView,
> {
    if prompt.output_schema is Some {
        Err(
            CodexErrView::UnsupportedOperation(
                "output_schema is not supported for Anthropic Messages API"@,
            ),
        )
    } else {
        match request_messages(prompt.input@) {
            Err(e) => Err(e),
            Ok(messages) => match anthropic_tools::anthropic_tools(prompt.tools@) {
                Err(e) => Err(e),
                Ok(tools) => Ok(
                    MessagesRequestView {
                        model,
                        max_tokens: DEFAULT_MAX_TOKENS,
                        messages,
                        system: Some(prompt.base_instructions.text@),
                        tools: if tools.len() == 0 {
                            None
                        } else {
                            Some(tools)
                        },
                        tool_choice: None,
                        stream: true,
                    },
                ),
            },
        }
    }
}

/// A message with one block.
fn one_block(role: &str, block: ContentBlockParam) -> (m: MessageParam)
    ensures
        m.deep_view() == (MessageParamView {
            role: role@,
            content: MessageContentView::Blocks(seq![block.deep_view()]),
        }),
{
    let mut blocks: Vec<ContentBlockParam> = Vec::new();
    blocks.push(block);
    assert(blocks.deep_view() =~= seq![block.deep_view()]);
    MessageParam { role: role.to_string(), content: MessageContent::Blocks(blocks) }
}

/// The message that a message of the conversation becomes, if any.
pub fn convert_message(role: &str, content: &Vec<ContentItem>) -> (res: Option<MessageParam>)
    ensures
        res.deep_view() == plain_message(role@, content@),
{
    let anthropic_role = if text::same_text(role, "assistant") {
        "assistant"
    } else if text::same_text(role, "system") {
        return None;
    } else {
        "user"
    };
    let mut text = String::new();
    let mut blocks: Vec<ContentBlockParam> = Vec::new();
    let mut saw_image = false;
    let mut i: usize = 0;
    let ghost views = content@.map_values(|c: ContentItem| content_block(c));
    assert(blocks.deep_view() =~= views.take(0));
    while i < content.len()
        invariant
            i <= content@.len(),
            views == content@.map_values(|c: ContentItem| content_block(c)),
            text@ == message_text(content@.take(i as int)),
            blocks.deep_view() == views.take(i as int),
            saw_image == exists|j: int| 0 <= j < i && (#[trigger] content@[j]) is InputImage,
        decreases content.len() - i,
    {
        let ghost before = blocks.deep_view();
        assert(content@.take(i + 1).drop_last() =~= content@.take(i as int));
        let ghost old_text = text@;
        match &content[i] {
            ContentItem::InputText { text: t } => {
                text.append(t.as_str());
                blocks.push(ContentBlockParam::Text { text: t.clone() });
            },
            ContentItem::OutputText { text: t } => {
                text.append(t.as_str());
                blocks.push(ContentBlockParam::Text { text: t.clone() });
            },
            ContentItem::InputImage { image_url } => {
                saw_image = true;
                blocks.push(
                    ContentBlockParam::Text {
                        text: conversation::note_image(image_url.as_str()),
                    },
                );
                assert(content@[i as int] is InputImage);
            },
        }
        assert(text@ =~= old_text + content_text(content@[i as int]));
        assert(blocks.deep_view() =~= before.push(views[i as int]));
        assert(views.take(i + 1) =~= before.push(views[i as int]));
        i += 1;
    }
    assert(content@.take(i as int) =~= content@);
    assert(views.take(i as int) =~= views);
    if !saw_image && text::is_blank(text.as_str()) {
        return None;
    }
    let msg_content = if saw_image {
        MessageContent::Blocks(blocks)
    } else {
        MessageContent::Text(text)
    };
    Some(MessageParam { role: anthropic_role.to_string(), content: msg_content })
}

/// The message that a function call becomes, given what its arguments were read as. Arguments
/// that are not JSON are an error: an empty object in their place could make a tool run with
/// wrong inputs.
pub fn convert_function_call(
    name: &str,
    call_id: &str,
    arguments: Result<Json, String>,
) -> (res: Result<MessageParam, CodexErr>)
    ensures
        match res {
            Ok(m) => arguments matches Ok(input) && m.deep_view() == tool_use(
                call_id@,
                name@,
                input.tree(),
            ),
            Err(e) => arguments matches Err(message) && e.deep_view() == bad_arguments(
                name@,
                message@,
            ),
        },
{
    match arguments {
        Ok(input) => Ok(
            one_block(
                "assistant",
                ContentBlockParam::ToolUse {
                    id: call_id.to_string(),
                    name: name.to_string(),
                    input,
                },
            ),
        ),
        Err(message) => {
            let mut complaint = text::concat3("Invalid JSON in tool arguments for `", name, "`: ");
            complaint.append(message.as_str());
            Err(CodexErr::UnsupportedOperation(complaint))
        },
    }
}

/// The message that a custom tool call becomes, given what its input was read as.
pub fn convert_custom_tool_call(
    name: &str,
    call_id: &str,
    input: Result<Json, String>,
) -> (m: MessageParam)
    ensures
        m.deep_view() == custom_tool_call(
            call_id@,
            name@,
            match input {
                Ok(json) => Ok(json.tree()),
                Err(message) => Err(message@),
            },
        ),
{
    let input = match input {
        Ok(json) => json,
        Err(_) => {
            let empty = Json::Object(Vec::new());
            assert(empty.tree()->Object_0 =~= seq![]);
            empty
        },
    };
    one_block(
        "assistant",
        ContentBlockParam::ToolUse {
            id: call_id.to_string(),
            name: name.to_string(),
            input,
        },
    )
}

/// The message that the result of a tool becomes.
fn convert_tool_result(call_id: &str, content: String) -> (m: MessageParam)
    ensures
        m.deep_view() == tool_result(call_id@, content@),
{
    one_block(
        "user",
        ContentBlockParam::ToolResult {
            tool_use_id: call_id.to_string(),
            content: Some(content),
            is_error: None,
        },
    )
}

/// The message that an item of the conversation becomes, if any.
pub fn convert_item(item: &ResponseItem) -> (res: Result<Option<MessageParam>, CodexErr>)
    ensures
        match res {
            Ok(m) => item_message(*item) == Ok::<Option<MessageParamView>, CodexErrView>(
                m.deep_view(),
            ),
            Err(e) => item_message(*item) == Err::<Option<MessageParamView>, CodexErrView>(
                e.deep_view(),
            ),
        },
{
    match item {
        ResponseItem::Message { role, content, .. } => Ok(convert_message(role.as_str(), content)),
        ResponseItem::FunctionCall { name, arguments, call_id, .. } => {
            match convert_function_call(
                name.as_str(),
                call_id.as_str(),
                json::parse_json(arguments.as_str()),
            ) {
                Ok(m) => Ok(Some(m)),
                Err(e) => Err(e),
            }
        },
        ResponseItem::FunctionCallOutput { call_id, output } => Ok(
            Some(convert_tool_result(call_id.as_str(), conversation::function_output_text(output))),
        ),
        ResponseItem::LocalShellCall { id, call_id, action } => {
            let input = match &action.value {
                Some(json) => json.duplicate(),
                None => Json::Null,
            };
            Ok(
                Some(
                    one_block(
                        "assistant",
                        ContentBlockParam::ToolUse {
                            id: conversation::shell_call_id_of(call_id, id),
                            name: "shell".to_string(),
                            input,
                        },
                    ),
                ),
            )
        },
        ResponseItem::CustomToolCall { call_id, name, input, .. } => Ok(
            Some(
                convert_custom_tool_call(
                    name.as_str(),
                    call_id.as_str(),
                    json::parse_json(input.as_str()),
                ),
            ),
        ),
        ResponseItem::CustomToolCallOutput { call_id, output } => Ok(
            Some(
                convert_tool_result(
                    call_id.as_str(),
                    conversation::text_or_empty(&output.text_content),
                ),
            ),
        ),
        ResponseItem::GhostSnapshot
        | ResponseItem::Reasoning { .. }
        | ResponseItem::WebSearchCall
        | ResponseItem::ToolSearchCall
        | ResponseItem::ToolSearchOutput
        | ResponseItem::ImageGenerationCall
        | ResponseItem::Compaction
        | ResponseItem::Other => Ok(None),
    }
}

proof fn lemma_failure_stays(items: Seq<ResponseItem>, k: int)
    requires
        0 <= k <= items.len(),
        item_messages(items.take(k)) is Err,
    ensures
        item_messages(items) == item_messages(items.take(k)),
    decreases items.len(),
{
    if k == items.len() {
        assert(items.take(k) =~= items);
    } else {
        assert(items.drop_last().take(k) =~= items.take(k));
        lemma_failure_stays(items.drop_last(), k);
    }
}

/// The messages of a request: those of the items, coalesced and stripped.
pub fn build_messages(items: &Vec<ResponseItem>) -> (res: Result<Vec<MessageParam>, CodexErr>)
    ensures
        match res {
            Ok(m) => request_messages(items@) == Ok::<Seq<MessageParamView>, CodexErrView>(
                m.deep_view(),
            ),
            Err(e) => request_messages(items@) == Err::<Seq<MessageParamView>, CodexErrView>(
                e.deep_view(),
            ),
        },
{
    let mut messages: Vec<MessageParam> = Vec::new();
    let mut i: usize = 0;
    assert(messages.deep_view() =~= seq![]);
    while i < items.len()
        invariant
            i <= items@.len(),
            item_messages(items@.take(i as int)) == Ok::<Seq<MessageParamView>, CodexErrView>(
                messages.deep_view(),
            ),
        decreases items.len() - i,
    {
        let ghost before = messages.deep_view();
        assert(items@.take(i + 1).drop_last() =~= items@.take(i as int));
        match convert_item(&items[i]) {
            Ok(Some(m)) => {
                messages.push(m);
                assert(messages.deep_view() =~= before.push(m.deep_view()));
            },
            Ok(None) => {},
            Err(e) => {
                proof {
                    lemma_failure_stays(items@, i + 1);
                }
                return Err(e);
            },
        }
        i += 1;
    }
    assert(items@.take(i as int) =~= items@);
    let mut messages = coalesce_messages(messages);
    strip_empty_text_blocks(&mut messages);
    Ok(messages)
}

/// The request for a prompt.
pub fn build_messages_request<'a>(prompt: &'a Prompt, model: &'a str) -> (res: Result<
    MessagesRequest<'a>,
    CodexErr,
>)
    ensures
        match res {
            Ok(request) => messages_request(*prompt, model@) == Ok::<
                MessagesRequestView,
                CodexErrView,
            >(request.deep_view()),
            Err(e) => messages_request(*prompt, model@) == Err::<MessagesRequestView, CodexErrView>(
                e.deep_view(),
            ),
        },
{
    if prompt.output_schema.is_some() {
        return Err(
            CodexErr::UnsupportedOperation(
                "output_schema is not supported for Anthropic Messages API".to_string(),
            ),
        );
    }
    let messages = match build_messages(&prompt.input) {
        Ok(messages) => messages,
        Err(e) => return Err(e),
    };
    let tools = match anthropic_tools::create_tools_json_for_anthropic_api(
        prompt.tools.as_slice(),
    ) {
        Ok(tools) => tools,
        Err(e) => return Err(e),
    };
    assert(tools.deep_view().len() == tools@.len());
    let tools_param = if tools.len() == 0 {
        None
    } else {
        Some(tools)
    };
    Ok(
        MessagesRequest {
            model,
            max_tokens: DEFAULT_MAX_TOKENS,
            messages,
            system: Some(prompt.base_instructions.text.as_str()),
            tools: tools_param,
            tool_choice: None,
            stream: true,
        },
    )
}

} // verus!
