//! Requests to Nemotron on vLLM's Chat Completions API.

use crate::conversation;
use crate::error::{CodexErr, CodexErrView};
use crate::models::{ContentItem, Prompt, ResponseItem};
use crate::nemotron_types::{
    ChatCompletionRequest, ChatCompletionRequestView, ChatMessage, ChatMessageView,
    ChatTemplateKwargs, ChatTool, ChatToolView, FunctionCall, FunctionCallView, ModelEntry,
    ModelListResponse, StreamOptions, ToolCallMessage, ToolCallMessageView,
};
use crate::retry::MIN_THINKING_BUDGET;
use crate::text;
use crate::tools::nemotron_tools;
use vstd::prelude::*;
use vstd::utf8::*;

verus! {

/// The limit on the tokens of an answer.
pub const DEFAULT_MAX_TOKENS: u32 = 32768;

/// The thinking budget, unless another is set.
pub const DEFAULT_THINKING_BUDGET: u32 = 4096;

/// How many seconds a request may take until its first byte, unless another limit is set.
pub const DEFAULT_REQUEST_TIMEOUT_SECS: u64 = 120;

/// How long the last segment of a slug has to be for the slug to pass for a full model id.
pub const FULL_ID_SEGMENT_BYTES: usize = 20;

/// The number of bytes of a text.
pub open spec fn byte_len(s: Seq<char>) -> nat {
    encode_utf8(s).len()
}

/// The slug is part of the id, whatever the case of ASCII letters.
pub open spec fn matches_slug(slug: Seq<char>, id: Seq<char>) -> bool {
    text::has_infix(text::ascii_lowered(id), text::ascii_lowered(slug))
}

/// The id at `i` matches the slug, is no longer than any other that does, and comes before all
/// others of its length that do.
pub open spec fn best_at(slug: Seq<char>, ids: Seq<Seq<char>>, i: int) -> bool {
    &&& 0 <= i < ids.len()
    &&& matches_slug(slug, ids[i])
    &&& forall|j: int|
        0 <= j < ids.len() && matches_slug(slug, #[trigger] ids[j]) ==> byte_len(ids[i])
            <= byte_len(ids[j]) && (j < i ==> byte_len(ids[i]) < byte_len(ids[j]))
}

/// The best match for a slug: the slug itself if it is an id, or else the first of the shortest
/// ids that it is part of.
pub open spec fn best_model(slug: Seq<char>, ids: Seq<Seq<char>>) -> Option<Seq<char>> {
    if ids.contains(slug) {
        Some(slug)
    } else if exists|i: int| best_at(slug, ids, i) {
        Some(ids[choose|i: int| best_at(slug, ids, i)])
    } else {
        None
    }
}

/// The texts of a list of string slices.
pub open spec fn texts<'a>(models: Seq<&'a str>) -> Seq<Seq<char>> {
    models.map_values(|m: &'a str| m@)
}

proof fn lemma_best_at_unique(slug: Seq<char>, ids: Seq<Seq<char>>, i: int)
    requires
        best_at(slug, ids, i),
        !ids.contains(slug),
    ensures
        best_model(slug, ids) == Some(ids[i]),
{
    let k = choose|k: int| best_at(slug, ids, k);
    assert(best_at(slug, ids, k));
    if i < k {
        assert(byte_len(ids[k]) < byte_len(ids[i]));
        assert(byte_len(ids[i]) <= byte_len(ids[k]));
    } else if k < i {
        assert(byte_len(ids[i]) < byte_len(ids[k]));
        assert(byte_len(ids[k]) <= byte_len(ids[i]));
    }
}

/// Picks the best match for a slug among the available model ids.
///
/// An id that is the slug goes first; otherwise it is the shortest id that has the slug in it,
/// whatever the case of ASCII letters.
pub fn pick_best_model<'a>(slug: &str, models: &[&'a str]) -> (best: Option<&'a str>)
    ensures
        best.deep_view() == best_model(slug@, texts(models@)),
{
    let ghost ids = texts(models@);
    let mut i: usize = 0;
    while i < models.len()
        invariant
            i <= models@.len(),
            ids == texts(models@),
            forall|j: int| 0 <= j < i ==> (#[trigger] ids[j]) != slug@,
        decreases models.len() - i,
    {
        assert(ids[i as int] == models@[i as int]@);
        if text::same_text(models[i], slug) {
            assert(ids.contains(slug@));
            return Some(models[i]);
        }
        i += 1;
    }
    assert(!ids.contains(slug@));
    let slug_lower = text::lower_chars(slug);
    let mut best: Option<usize> = None;
    let mut i: usize = 0;
    while i < models.len()
        invariant
            i <= models@.len(),
            ids == texts(models@),
            slug_lower@ == text::ascii_lowered(slug@),
            match best {
                Some(b) => b < i && best_at(slug@, ids.take(i as int), b as int),
                None => forall|j: int| 0 <= j < i ==> !matches_slug(slug@, #[trigger] ids[j]),
            },
        decreases models.len() - i,
    {
        let m = models[i];
        assert(ids[i as int] == m@);
        let ghost seen = ids.take(i + 1);
        let lower = text::lower_chars(m);
        proof {
            text::lemma_find(lower@, slug_lower@);
            assert forall|j: int| 0 <= j < i implies seen[j] == #[trigger] ids.take(
                i as int,
            )[j] by {}
            assert forall|j: int| 0 <= j < seen.len() implies #[trigger] seen[j] == ids[j] by {}
        }
        let ghost hit = matches_slug(slug@, ids[i as int]);
        if text::find_text(&lower, &slug_lower).is_some() {
            assert(hit);
            match best {
                None => {
                    best = Some(i);
                    assert(best_at(slug@, seen, i as int));
                },
                Some(b) => {
                    assert(ids.take(i as int)[b as int] == models@[b as int]@);
                    if m.as_bytes().len() < models[b].as_bytes().len() {
                        best = Some(i);
                        assert forall|j: int|
                            0 <= j < seen.len() && matches_slug(
                                slug@,
                                #[trigger] seen[j],
                            ) implies byte_len(seen[i as int]) <= byte_len(seen[j]) && (j < i
                            ==> byte_len(seen[i as int]) < byte_len(seen[j])) by {
                            if j < i {
                                assert(matches_slug(slug@, ids.take(i as int)[j]));
                            }
                        }
                        assert(best_at(slug@, seen, i as int));
                    } else {
                        assert forall|j: int|
                            0 <= j < seen.len() && matches_slug(
                                slug@,
                                #[trigger] seen[j],
                            ) implies byte_len(seen[b as int]) <= byte_len(seen[j]) && (j < b
                            ==> byte_len(seen[b as int]) < byte_len(seen[j])) by {
                            if j < i {
                                assert(matches_slug(slug@, ids.take(i as int)[j]));
                            }
                        }
                        assert(best_at(slug@, seen, b as int));
                    }
                },
            }
        } else {
            assert(!hit);
            if let Some(b) = best {
                assert forall|j: int|
                    0 <= j < seen.len() && matches_slug(slug@, #[trigger] seen[j]) implies byte_len(
                    seen[b as int],
                ) <= byte_len(seen[j]) && (j < b ==> byte_len(seen[b as int]) < byte_len(
                    seen[j],
                )) by {
                    if j < i {
                        assert(matches_slug(slug@, ids.take(i as int)[j]));
                    }
                }
                assert(best_at(slug@, seen, b as int));
            }
        }
        i += 1;
    }
    assert(ids.take(i as int) =~= ids);
    match best {
        Some(b) => {
            proof {
                lemma_best_at_unique(slug@, ids, b as int);
            }
            Some(models[b])
        },
        None => None,
    }
}

/// The slug asks for whatever model there is.
pub open spec fn auto_slug(slug: Seq<char>) -> bool {
    text::ascii_lowered(slug) == "auto"@ || slug == "*"@
}

/// What stands behind the last slash.
pub open spec fn last_segment(slug: Seq<char>) -> Seq<char> {
    match text::rfind_char(slug, '/') {
        Some(i) => slug.skip(i + 1),
        None => slug,
    }
}

/// The slug passes for a full model id: it has a slash, and a long segment behind the last one.
pub open spec fn full_id(slug: Seq<char>) -> bool {
    &&& !auto_slug(slug)
    &&& slug.contains('/')
    &&& byte_len(last_segment(slug)) > FULL_ID_SEGMENT_BYTES
}

/// Whether a slug asks for whatever model there is.
pub fn is_auto_slug(slug: &str) -> (auto: bool)
    ensures
        auto == auto_slug(slug@),
{
    let lower = text::lower_chars(slug);
    let word = text::chars_of("auto");
    assert("auto"@.len() == 4) by {
        reveal_strlit("auto");
    }
    if lower.len() == word.len() {
        proof {
            text::lemma_find(lower@, word@);
            if lower@ == word@ {
                assert(lower@.subrange(0, word@.len() as int) =~= word@);
                assert(text::occurs_at(lower@, word@, 0));
            }
            if let Some(i) = text::find(lower@, word@) {
                assert(i == 0);
                assert(lower@.subrange(0, word@.len() as int) =~= lower@);
            }
        }
        if text::find_text(&lower, &word).is_some() {
            return true;
        }
    }
    text::same_text(slug, "*")
}

/// Whether a slug passes for a full model id.
pub fn is_full_id(slug: &str) -> (full: bool)
    ensures
        full == full_id(slug@),
{
    if is_auto_slug(slug) {
        return false;
    }
    let chars = text::chars_of(slug);
    proof {
        text::lemma_rfind_char(slug@, '/');
    }
    match text::rfind_in(&chars, '/') {
        Some(i) => {
            assert(i < chars.len());
            let segment = slug.substring_char(i + 1, chars.len());
            assert(segment@ =~= last_segment(slug@));
            assert(slug@.contains('/')) by {
                assert(slug@[i as int] == '/');
            }
            segment.as_bytes().len() > FULL_ID_SEGMENT_BYTES
        },
        None => {
            assert(!slug@.contains('/'));
            false
        },
    }
}

/// What the endpoint answered when asked for its models.
#[derive(Debug, PartialEq, Eq)]
pub enum ModelsReply {
    /// Nothing: the request failed.
    Failed { url: String, message: String },
    /// A status other than success.
    Refused { status_text: String },
    /// A body that is not understood.
    Unreadable { message: String },
    /// Its models.
    List(ModelListResponse),
}

/// The ids of a list of models.
pub open spec fn ids_of(list: ModelListResponse) -> Seq<Seq<char>> {
    list.data@.map_values(|m: ModelEntry| m.id@)
}

/// The model to use, given what the endpoint answered. A slug that passes for a full model id is
/// used as it is where the models of the endpoint cannot be had.
pub open spec fn resolved_model(slug: Seq<char>, reply: ModelsReply) -> Result<
    Seq<char>,
    CodexErrView,
> {
    match reply {
        ModelsReply::Failed { url, message } => if full_id(slug) {
            Ok(slug)
        } else {
            Err(
                CodexErrView::UnsupportedOperation(
                    "Failed to query "@ + url@ + ": "@ + message@,
                ),
            )
        },
        ModelsReply::Refused { status_text } => if auto_slug(slug) {
            Err(
                CodexErrView::UnsupportedOperation(
                    "Cannot auto-detect model: /v1/models returned "@ + status_text@,
                ),
            )
        } else {
            Ok(slug)
        },
        ModelsReply::Unreadable { message } => if full_id(slug) {
            Ok(slug)
        } else {
            Err(
                CodexErrView::UnsupportedOperation(
                    "Failed to parse /v1/models response: "@ + message@,
                ),
            )
        },
        ModelsReply::List(list) => {
            let ids = ids_of(list);
            if ids.len() == 0 {
                Err(
                    CodexErrView::UnsupportedOperation(
                        "No models available on the vLLM endpoint"@,
                    ),
                )
            } else if auto_slug(slug) {
                Ok(ids[0])
            } else {
                match best_model(slug, ids) {
                    Some(id) => Ok(id),
                    None => Err(
                        CodexErrView::UnsupportedOperation(
                            "Model '"@ + slug + "' not found. Available models: "@ + text::joined(
                                ids,
                                ", "@,
                            ),
                        ),
                    ),
                }
            }
        },
    }
}

/// The ids, with a comma between neighbours.
fn join_ids(models: &Vec<&str>) -> (res: String)
    ensures
        res@ == text::joined(texts(models@), ", "@),
{
    let ghost ids = texts(models@);
    let mut res = String::new();
    let mut i: usize = 0;
    assert(res@ =~= text::joined(ids.take(0), ", "@));
    while i < models.len()
        invariant
            i <= models@.len(),
            ids == texts(models@),
            res@ == text::joined(ids.take(i as int), ", "@),
        decreases models.len() - i,
    {
        assert(ids.take(i + 1).drop_last() =~= ids.take(i as int));
        assert(ids[i as int] == models@[i as int]@);
        if i > 0 {
            res.append(", ");
            res.append(models[i]);
        } else {
            res.append(models[i]);
        }
        assert(res@ =~= text::joined(ids.take(i + 1), ", "@));
        i += 1;
    }
    assert(ids.take(i as int) =~= ids);
    res
}

/// Finds the model to use, given what the endpoint answered when asked for its models.
///
/// A slug of `auto` or `*` takes the first model. Any other slug takes its best match. Where the
/// endpoint refuses to list its models, a slug other than those two is used as it is; where its
/// answer does not come or is not understood, one that passes for a full model id is. If that is
/// wrong, the request will say so.
pub fn resolve_nemotron_model(slug: &str, reply: &ModelsReply) -> (res: Result<String, CodexErr>)
    ensures
        match res {
            Ok(model) => resolved_model(slug@, *reply) == Ok::<Seq<char>, CodexErrView>(model@),
            Err(e) => resolved_model(slug@, *reply) == Err::<Seq<char>, CodexErrView>(
                e.deep_view(),
            ),
        },
{
    match reply {
        ModelsReply::Failed { url, message } => {
            if is_full_id(slug) {
                return Ok(slug.to_string());
            }
            let mut complaint = text::concat3("Failed to query ", url.as_str(), ": ");
            complaint.append(message.as_str());
            Err(CodexErr::UnsupportedOperation(complaint))
        },
        ModelsReply::Refused { status_text } => if is_auto_slug(slug) {
            let mut complaint = "Cannot auto-detect model: /v1/models returned ".to_string();
            complaint.append(status_text.as_str());
            Err(CodexErr::UnsupportedOperation(complaint))
        } else {
            Ok(slug.to_string())
        },
        ModelsReply::Unreadable { message } => {
            if is_full_id(slug) {
                return Ok(slug.to_string());
            }
            let mut complaint = "Failed to parse /v1/models response: ".to_string();
            complaint.append(message.as_str());
            Err(CodexErr::UnsupportedOperation(complaint))
        },
        ModelsReply::List(list) => {
            let mut models: Vec<&str> = Vec::new();
            let ghost ids = ids_of(*list);
            let mut i: usize = 0;
            while i < list.data.len()
                invariant
                    ids == ids_of(*list),
                    i <= list.data@.len(),
                    models@.len() == i,
                    forall|j: int| 0 <= j < i ==> (#[trigger] models@[j])@ == ids[j],
                decreases list.data.len() - i,
            {
                models.push(list.data[i].id.as_str());
                i += 1;
            }
            assert(texts(models@) =~= ids);
            if models.len() == 0 {
                return Err(
                    CodexErr::UnsupportedOperation(
                        "No models available on the vLLM endpoint".to_string(),
                    ),
                );
            }
            if is_auto_slug(slug) {
                return Ok(models[0].to_string());
            }
            match pick_best_model(slug, models.as_slice()) {
                Some(model) => Ok(model.to_string()),
                None => {
                    let mut complaint = text::concat3(
                        "Model '",
                        slug,
                        "' not found. Available models: ",
                    );
                    complaint.append(join_ids(&models).as_str());
                    Err(CodexErr::UnsupportedOperation(complaint))
                },
            }
        },
    }
}

/// The text of a piece of content: of an image, its address.
pub open spec fn chat_content_text(c: ContentItem) -> Seq<char> {
    match c {
        ContentItem::InputText { text } => text@,
        ContentItem::OutputText { text } => text@,
        ContentItem::InputImage { image_url } => image_url@,
    }
}

/// The text of a content, put together.
pub open spec fn chat_text(content: Seq<ContentItem>) -> Seq<char>
    decreases content.len(),
{
    if content.len() == 0 {
        seq![]
    } else {
        chat_text(content.drop_last()) + chat_content_text(content.last())
    }
}

/// A message with a text.
pub open spec fn text_message(role: Seq<char>, content: Seq<char>) -> ChatMessageView {
    ChatMessageView { role, content: Some(content), tool_calls: None, tool_call_id: None }
}

/// The message that a tool call becomes.
pub open spec fn call_message(id: Seq<char>, name: Seq<char>, arguments: Seq<char>) ->
    ChatMessageView {
    ChatMessageView {
        role: "assistant"@,
        content: None,
        tool_calls: Some(
            seq![
                ToolCallMessageView {
                    id,
                    kind: "function"@,
                    function: FunctionCallView { name, arguments },
                },
            ],
        ),
        tool_call_id: None,
    }
}

/// The message that the result of a tool becomes.
pub open spec fn result_message(call_id: Seq<char>, content: Seq<char>) -> ChatMessageView {
    ChatMessageView {
        role: "tool"@,
        content: Some(content),
        tool_calls: None,
        tool_call_id: Some(call_id),
    }
}

/// The message that an item of the conversation becomes, if any. A message without a text to
/// read is left out. The call of a function goes out under the id of the call, that of a custom
/// tool or of the shell under the id of the item.
pub open spec fn chat_message(item: ResponseItem) -> Option<ChatMessageView> {
    match item {
        ResponseItem::Message { role, content, .. } => match conversation::wire_role(role@) {
            Some(r) => if text::blank(chat_text(content@)) {
                None
            } else {
                Some(text_message(r, chat_text(content@)))
            },
            None => None,
        },
        ResponseItem::FunctionCall { name, arguments, call_id, .. } => Some(
            call_message(call_id@, name@, arguments@),
        ),
        ResponseItem::FunctionCallOutput { call_id, output } => Some(
            result_message(call_id@, conversation::output_text(output)),
        ),
        ResponseItem::LocalShellCall { id, action, .. } => Some(
            call_message(
                conversation::or_empty(id),
                "shell"@,
                match action.text {
                    Some(t) => t@,
                    None => "{}"@,
                },
            ),
        ),
        ResponseItem::CustomToolCall { id, name, input, .. } => Some(
            call_message(conversation::or_empty(id), name@, input@),
        ),
        ResponseItem::CustomToolCallOutput { call_id, output } => Some(
            result_message(call_id@, conversation::or_empty(output.text_content)),
        ),
        _ => None,
    }
}

/// The messages of a chat: the instructions, then those of the items, in order.
pub open spec fn chat_messages(instructions: Seq<char>, items: Seq<ResponseItem>) -> Seq<
    ChatMessageView,
>
    decreases items.len(),
{
    if items.len() == 0 {
        seq![text_message("system"@, instructions)]
    } else {
        let done = chat_messages(instructions, items.drop_last());
        match chat_message(items.last()) {
            Some(m) => done.push(m),
            None => done,
        }
    }
}

/// A message with a text.
fn make_text_message(role: &str, content: String) -> (m: ChatMessage)
    ensures
        m.deep_view() == text_message(role@, content@),
{
    ChatMessage {
        role: role.to_string(),
        content: Some(content),
        tool_calls: None,
        tool_call_id: None,
    }
}

/// The message that a tool call becomes.
fn make_call_message(id: String, name: &str, arguments: String) -> (m: ChatMessage)
    ensures
        m.deep_view() == call_message(id@, name@, arguments@),
{
    let mut calls: Vec<ToolCallMessage> = Vec::new();
    calls.push(
        ToolCallMessage {
            id,
            kind: "function".to_string(),
            function: FunctionCall { name: name.to_string(), arguments },
        },
    );
    assert(calls.deep_view() =~= call_message(id@, name@, arguments@).tool_calls->0);
    ChatMessage {
        role: "assistant".to_string(),
        content: None,
        tool_calls: Some(calls),
        tool_call_id: None,
    }
}

/// The message that the result of a tool becomes.
fn make_result_message(call_id: &String, content: String) -> (m: ChatMessage)
    ensures
        m.deep_view() == result_message(call_id@, content@),
{
    ChatMessage {
        role: "tool".to_string(),
        content: Some(content),
        tool_calls: None,
        tool_call_id: Some(call_id.clone()),
    }
}

/// The text of a content, put together.
fn join_content(content: &Vec<ContentItem>) -> (text: String)
    ensures
        text@ == chat_text(content@),
{
    let mut text = String::new();
    let mut i: usize = 0;
    assert(text@ =~= chat_text(content@.take(0)));
    while i < content.len()
        invariant
            i <= content@.len(),
            text@ == chat_text(content@.take(i as int)),
        decreases content.len() - i,
    {
        assert(content@.take(i + 1).drop_last() =~= content@.take(i as int));
        match &content[i] {
            ContentItem::InputText { text: t } => text.append(t.as_str()),
            ContentItem::OutputText { text: t } => text.append(t.as_str()),
            ContentItem::InputImage { image_url } => text.append(image_url.as_str()),
        }
        i += 1;
    }
    assert(content@.take(i as int) =~= content@);
    text
}

/// The message that an item of the conversation becomes, if any.
pub fn convert_item(item: &ResponseItem) -> (m: Option<ChatMessage>)
    ensures
        m.deep_view() == chat_message(*item),
{
    match item {
        ResponseItem::Message { role, content, .. } => {
            let chat_role = if text::same_text(role.as_str(), "assistant") {
                "assistant"
            } else if text::same_text(role.as_str(), "system") {
                return None;
            } else {
                "user"
            };
            let text = join_content(content);
            if text::is_blank(text.as_str()) {
                return None;
            }
            Some(make_text_message(chat_role, text))
        },
        ResponseItem::FunctionCall { name, arguments, call_id, .. } => Some(
            make_call_message(call_id.clone(), name.as_str(), arguments.clone()),
        ),
        ResponseItem::FunctionCallOutput { call_id, output } => Some(
            make_result_message(call_id, conversation::function_output_text(output)),
        ),
        ResponseItem::LocalShellCall { id, action, .. } => {
            let arguments = match &action.text {
                Some(t) => t.clone(),
                None => "{}".to_string(),
            };
            Some(make_call_message(conversation::text_or_empty(id), "shell", arguments))
        },
        ResponseItem::CustomToolCall { id, name, input, .. } => Some(
            make_call_message(conversation::text_or_empty(id), name.as_str(), input.clone()),
        ),
        ResponseItem::CustomToolCallOutput { call_id, output } => Some(
            make_result_message(call_id, conversation::text_or_empty(&output.text_content)),
        ),
        ResponseItem::GhostSnapshot
        | ResponseItem::Reasoning { .. }
        | ResponseItem::WebSearchCall
        | ResponseItem::ToolSearchCall
        | ResponseItem::ToolSearchOutput
        | ResponseItem::ImageGenerationCall
        | ResponseItem::Compaction
        | ResponseItem::Other => None,
    }
}

/// The messages of a chat: the instructions, then those of the items, in order.
pub fn build_chat_messages(instructions: &String, items: &Vec<ResponseItem>) -> (messages: Vec<
    ChatMessage,
>)
    ensures
        messages.deep_view() == chat_messages(instructions@, items@),
{
    let mut messages: Vec<ChatMessage> = Vec::new();
    messages.push(make_text_message("system", instructions.clone()));
    let mut i: usize = 0;
    assert(messages.deep_view() =~= chat_messages(instructions@, items@.take(0)));
    while i < items.len()
        invariant
            i <= items@.len(),
            messages.deep_view() == chat_messages(instructions@, items@.take(i as int)),
        decreases items.len() - i,
    {
        let ghost before = messages.deep_view();
        assert(items@.take(i + 1).drop_last() =~= items@.take(i as int));
        match convert_item(&items[i]) {
            Some(m) => {
                messages.push(m);
                assert(messages.deep_view() =~= before.push(m.deep_view()));
            },
            None => {},
        }
        i += 1;
    }
    assert(items@.take(i as int) =~= items@);
    messages
}

/// What is sent with every attempt of a request.
#[derive(Debug, PartialEq, Eq)]
pub struct ChatPlan {
    pub messages: Vec<ChatMessage>,
    pub tools: Option<Vec<ChatTool>>,
}

/// What a [`ChatPlan`] holds.
pub struct ChatPlanView {
    pub messages: Seq<ChatMessageView>,
    pub tools: Option<Seq<ChatToolView>>,
}

impl DeepView for ChatPlan {
    type V = ChatPlanView;

    open spec fn deep_view(&self) -> ChatPlanView {
        ChatPlanView { messages: self.messages.deep_view(), tools: self.tools.deep_view() }
    }
}

/// What is sent with every attempt of the request for a prompt.
pub open spec fn chat_plan(prompt: Prompt) -> Result<ChatPlanView, CodexErrView> {
    match nemotron_tools::nemotron_tools(prompt.tools@) {
        Err(e) => Err(e),
        Ok(tools) => Ok(
            ChatPlanView {
                messages: chat_messages(prompt.base_instructions.text@, prompt.input@),
                tools: if tools.len() == 0 {
                    None
                } else {
                    Some(tools)
                },
            },
        ),
    }
}

/// Why a prompt is refused, if it is.
pub open spec fn refusal(prompt: Prompt) -> Option<CodexErrView> {
    match prompt.output_schema {
        Some(_) => Some(
            CodexErrView::UnsupportedOperation(
                "output_schema is not supported for Nemotron Chat Completions API"@,
            ),
        ),
        None => None,
    }
}

/// Refuses a prompt that asks for what the API does not support.
pub fn check_prompt(prompt: &Prompt) -> (res: Result<(), CodexErr>)
    ensures
        refusal(*prompt) == (match res {
            Ok(_) => None,
            Err(e) => Some(e.deep_view()),
        }),
        match res {
            Ok(_) => prompt.output_schema is None,
            Err(e) => prompt.output_schema is Some && e.deep_view()
                == CodexErrView::UnsupportedOperation(
                "output_schema is not supported for Nemotron Chat Completions API"@,
            ),
        },
{
    if prompt.output_schema.is_some() {
        Err(
            CodexErr::UnsupportedOperation(
                "output_schema is not supported for Nemotron Chat Completions API".to_string(),
            ),
        )
    } else {
        Ok(())
    }
}

/// Prepares what is sent with every attempt of the request for a prompt.
pub fn plan_chat(prompt: &Prompt) -> (res: Result<ChatPlan, CodexErr>)
    ensures
        match res {
            Ok(plan) => chat_plan(*prompt) == Ok::<ChatPlanView, CodexErrView>(plan.deep_view()),
            Err(e) => chat_plan(*prompt) == Err::<ChatPlanView, CodexErrView>(e.deep_view()),
        },
{
    let messages = build_chat_messages(&prompt.base_instructions.text, &prompt.input);
    match nemotron_tools::create_tools_for_nemotron(prompt.tools.as_slice()) {
        Ok(tools) => {
            assert(tools.deep_view().len() == tools@.len());
            let tools_param = if tools.len() == 0 {
                None
            } else {
                Some(tools)
            };
            Ok(ChatPlan { messages, tools: tools_param })
        },
        Err(e) => Err(e),
    }
}

/// The request of one attempt. The model may choose a tool if there is one.
pub open spec fn chat_completion_request(
    model: Seq<char>,
    plan: ChatPlanView,
    thinking_budget: u32,
) -> ChatCompletionRequestView {
    ChatCompletionRequestView {
        model,
        messages: plan.messages,
        max_tokens: Some(DEFAULT_MAX_TOKENS),
        tools: plan.tools,
        tool_choice: if plan.tools is Some {
            Some("auto"@)
        } else {
            None
        },
        chat_template_kwargs: Some(ChatTemplateKwargs { thinking_budget }),
        stream: true,
        stream_options: Some(StreamOptions { include_usage: true }),
    }
}

/// The request of one attempt.
pub fn build_chat_request<'a>(model: &'a str, plan: &'a ChatPlan, thinking_budget: u32) -> (request:
    ChatCompletionRequest<'a>)
    ensures
        request.deep_view() == chat_completion_request(model@, plan.deep_view(), thinking_budget),
{
    let tool_choice = if plan.tools.is_some() {
        Some("auto")
    } else {
        None
    };
    ChatCompletionRequest {
        model,
        messages: &plan.messages,
        max_tokens: Some(DEFAULT_MAX_TOKENS),
        tools: plan.tools.as_ref(),
        tool_choice,
        chat_template_kwargs: Some(ChatTemplateKwargs { thinking_budget }),
        stream: true,
        stream_options: Some(StreamOptions { include_usage: true }),
    }
}

/// The thinking budget of the first attempt: the one that is set, if it is a number, or else the
/// default, but no less than the least.
pub open spec fn first_budget(setting: Option<Seq<char>>) -> nat {
    let budget = match setting {
        Some(s) => match text::unsigned_number(s, u32::MAX as nat) {
            Some(n) => n,
            None => DEFAULT_THINKING_BUDGET as nat,
        },
        None => DEFAULT_THINKING_BUDGET as nat,
    };
    if budget >= MIN_THINKING_BUDGET {
        budget
    } else {
        MIN_THINKING_BUDGET as nat
    }
}

/// The thinking budget of the first attempt, given the setting of `NEMOTRON_THINKING_BUDGET`.
pub fn initial_thinking_budget(setting: Option<&str>) -> (budget: u32)
    ensures
        budget == first_budget(setting.deep_view()),
        budget >= MIN_THINKING_BUDGET,
{
    let budget = match setting {
        Some(s) => match text::parse_u32(s) {
            Some(n) => n,
            None => DEFAULT_THINKING_BUDGET,
        },
        None => DEFAULT_THINKING_BUDGET,
    };
    if budget >= MIN_THINKING_BUDGET {
        budget
    } else {
        MIN_THINKING_BUDGET
    }
}

/// How many seconds a request may take: as many as are set, if that is a number, or else the
/// default.
pub open spec fn request_timeout(setting: Option<Seq<char>>) -> nat {
    match setting {
        Some(s) => match text::unsigned_number(s, u64::MAX as nat) {
            Some(n) => n,
            None => DEFAULT_REQUEST_TIMEOUT_SECS as nat,
        },
        None => DEFAULT_REQUEST_TIMEOUT_SECS as nat,
    }
}

/// How many seconds a request may take, given the setting of `NEMOTRON_REQUEST_TIMEOUT`: the one
/// that is set, if it is a number, or else the default.
pub fn request_timeout_secs(setting: Option<&str>) -> (secs: u64)
    ensures
        secs == request_timeout(setting.deep_view()),
        secs == (match setting {
            Some(s) => match text::unsigned_number(s@, u64::MAX as nat) {
                Some(n) => n,
                None => DEFAULT_REQUEST_TIMEOUT_SECS as nat,
            },
            None => DEFAULT_REQUEST_TIMEOUT_SECS as nat,
        }),
{
    match setting {
        Some(s) => match text::parse_u64(s) {
            Some(n) => n,
            None => DEFAULT_REQUEST_TIMEOUT_SECS,
        },
        None => DEFAULT_REQUEST_TIMEOUT_SECS,
    }
}

} // verus!
