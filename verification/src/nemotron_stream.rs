//! The event stream of Nemotron, turned into events of the agent.

use crate::error::{CodexErr, CodexErrView};
use crate::models::{
    ContentItem, ContentItemView, ResponseEvent, ResponseEventView, ResponseItem, TokenUsage,
};
use crate::nemotron_types::{ChatCompletionChunk, ChunkChoice, ChunkToolCall};
use crate::sent;
use crate::text;
use crate::think;
use crate::think::{ParsedDelta, ParsedDeltaView, ThinkState, ThinkTagParser};
use vstd::prelude::*;

verus! {

/// A tool call that is still arriving.
#[derive(Debug, PartialEq, Eq)]
pub struct ToolCallState {
    pub id: String,
    pub name: String,
    pub arguments: String,
}

/// What a [`ToolCallState`] holds.
pub struct ToolCallView {
    pub id: Seq<char>,
    pub name: Seq<char>,
    pub arguments: Seq<char>,
}

impl DeepView for ToolCallState {
    type V = ToolCallView;

    open spec fn deep_view(&self) -> ToolCallView {
        ToolCallView { id: self.id@, name: self.name@, arguments: self.arguments@ }
    }
}

/// What happens on the stream.
#[derive(Debug, PartialEq, Eq)]
pub enum NemotronInput {
    /// A chunk of the response.
    Chunk(ChatCompletionChunk),
    /// An event that is not understood.
    Unreadable,
    /// The mark that the response is complete.
    Done,
    /// The end of the stream.
    Closed,
    /// A failure of the transport.
    Broken(String),
    /// Nothing, for too long.
    IdleTimeout,
}

/// The state of the processing of a stream.
pub struct NemotronStream {
    pub response_id: String,
    /// The content of the message that has been announced and not finished.
    pub open_message: Option<Vec<ContentItem>>,
    /// The tool calls that are still arriving, each with its index, in the order in which they
    /// were first heard of.
    pub tool_calls: Vec<(usize, ToolCallState)>,
    pub think_parser: ThinkTagParser,
    /// Whether the beginning of the response has been sent.
    pub created_sent: bool,
    pub input_tokens: i64,
    pub output_tokens: i64,
    /// Whether the last event has been sent.
    pub finished: bool,
}

/// What a [`NemotronStream`] knows.
pub struct NemotronState {
    pub response_id: Seq<char>,
    pub open_message: Option<Seq<ContentItemView>>,
    pub tool_calls: Seq<(usize, ToolCallView)>,
    pub think: ThinkState,
    pub created_sent: bool,
    pub input_tokens: i64,
    pub output_tokens: i64,
    pub finished: bool,
}

impl View for NemotronStream {
    type V = NemotronState;

    open spec fn view(&self) -> NemotronState {
        NemotronState {
            response_id: self.response_id@,
            open_message: self.open_message.deep_view(),
            tool_calls: self.tool_calls.deep_view(),
            think: self.think_parser@,
            created_sent: self.created_sent,
            input_tokens: self.input_tokens,
            output_tokens: self.output_tokens,
            finished: self.finished,
        }
    }
}

/// The state at the beginning of a stream.
pub open spec fn nemotron_start() -> NemotronState {
    NemotronState {
        response_id: seq![],
        open_message: None,
        tool_calls: seq![],
        think: think::think_start(),
        created_sent: false,
        input_tokens: 0,
        output_tokens: 0,
        finished: false,
    }
}

/// What the sorted text of a response does to the open message.
pub open spec fn after_deltas(
    open: Option<Seq<ContentItemView>>,
    deltas: Seq<ParsedDeltaView>,
) -> Option<Seq<ContentItemView>>
    decreases deltas.len(),
{
    if deltas.len() == 0 {
        open
    } else {
        let before = after_deltas(open, deltas.drop_last());
        match deltas.last() {
            ParsedDeltaView::Text(t) => sent::with_text(before, t),
            ParsedDeltaView::Thinking(_) => before,
        }
    }
}

/// The event for a run of sorted text.
pub open spec fn delta_sent(d: ParsedDeltaView) -> sent::SentView {
    match d {
        ParsedDeltaView::Text(t) => Ok(ResponseEventView::OutputTextDelta(t)),
        ParsedDeltaView::Thinking(t) => Ok(
            ResponseEventView::ReasoningContentDelta { delta: t, content_index: 0 },
        ),
    }
}

/// The events for the sorted text of a response.
pub open spec fn deltas_sent(deltas: Seq<ParsedDeltaView>) -> Seq<sent::SentView> {
    deltas.map_values(|d: ParsedDeltaView| delta_sent(d))
}

/// The position of the call with the given index.
pub open spec fn call_position(calls: Seq<(usize, ToolCallView)>, index: usize) -> Option<int>
    decreases calls.len(),
{
    if calls.len() == 0 {
        None
    } else if calls.last().0 == index {
        Some(calls.len() - 1)
    } else {
        call_position(calls.drop_last(), index)
    }
}

/// A call of which nothing is known.
pub open spec fn unknown_call() -> ToolCallView {
    ToolCallView { id: seq![], name: seq![], arguments: seq![] }
}

/// A call with more of it: a new id or name replaces the old one, arguments go behind.
pub open spec fn extended_call(call: ToolCallView, piece: ChunkToolCall) -> ToolCallView {
    let identified = match piece.id {
        Some(id) => ToolCallView { id: id@, ..call },
        None => call,
    };
    match piece.function {
        Some(function) => {
            let named = match function.name {
                Some(name) => ToolCallView { name: name@, ..identified },
                None => identified,
            };
            match function.arguments {
                Some(arguments) => ToolCallView {
                    arguments: named.arguments + arguments@,
                    ..named
                },
                None => named,
            }
        },
        None => identified,
    }
}

/// The calls with more of one of them.
pub open spec fn with_call_piece(calls: Seq<(usize, ToolCallView)>, piece: ChunkToolCall) -> Seq<
    (usize, ToolCallView),
> {
    match call_position(calls, piece.index) {
        Some(i) => calls.update(i, (piece.index, extended_call(calls[i].1, piece))),
        None => calls.push((piece.index, extended_call(unknown_call(), piece))),
    }
}

/// The calls with more of some of them.
pub open spec fn with_call_pieces(
    calls: Seq<(usize, ToolCallView)>,
    pieces: Seq<ChunkToolCall>,
) -> Seq<(usize, ToolCallView)>
    decreases pieces.len(),
{
    if pieces.len() == 0 {
        calls
    } else {
        with_call_piece(with_call_pieces(calls, pieces.drop_last()), pieces.last())
    }
}

/// The events for tool calls that are complete.
pub open spec fn calls_sent(calls: Seq<(usize, ToolCallView)>) -> Seq<sent::SentView> {
    calls.map_values(
        |c: (usize, ToolCallView)|
            Ok::<ResponseEventView, CodexErrView>(
                ResponseEventView::OutputItemDone(
                    sent::function_call_item(c.1.name, c.1.arguments, c.1.id),
                ),
            ),
    )
}

/// Sends the tool calls. The first of them ends the open message.
pub open spec fn calls_step(s: NemotronState) -> (NemotronState, Seq<sent::SentView>) {
    if s.tool_calls.len() == 0 {
        (s, seq![])
    } else {
        (
            NemotronState { open_message: None, tool_calls: seq![], ..s },
            sent::message_done(s.open_message) + calls_sent(s.tool_calls),
        )
    }
}

/// Sends what the parser holds back.
pub open spec fn flush_step(s: NemotronState) -> (NemotronState, Seq<sent::SentView>) {
    let deltas = think::flushed(s.think);
    (
        NemotronState {
            open_message: after_deltas(s.open_message, deltas),
            think: think::emptied(s.think),
            ..s
        },
        deltas_sent(deltas),
    )
}

/// Ends the open message.
pub open spec fn close_step(s: NemotronState) -> (NemotronState, Seq<sent::SentView>) {
    (NemotronState { open_message: None, ..s }, sent::message_done(s.open_message))
}

/// Takes in a piece of text. It opens a message, unless one is open.
pub open spec fn content_step(s: NemotronState, content: Seq<char>) -> (
    NemotronState,
    Seq<sent::SentView>,
) {
    let (open, added) = match s.open_message {
        Some(c) => (c, seq![]),
        None => (
            seq![],
            seq![
                Ok::<ResponseEventView, CodexErrView>(
                    ResponseEventView::OutputItemAdded(sent::assistant_message(seq![])),
                ),
            ],
        ),
    };
    let (deltas, think) = think::fed(s.think, content);
    (
        NemotronState { open_message: after_deltas(Some(open), deltas), think, ..s },
        added + deltas_sent(deltas),
    )
}

/// Two steps one after the other.
pub open spec fn both(
    first: (NemotronState, Seq<sent::SentView>),
    second: (NemotronState, Seq<sent::SentView>),
) -> (NemotronState, Seq<sent::SentView>) {
    (second.0, first.1 + second.1)
}

/// Takes in the reason why a choice is complete.
pub open spec fn finish_step(s: NemotronState, reason: Seq<char>) -> (
    NemotronState,
    Seq<sent::SentView>,
) {
    if reason == "tool_calls"@ {
        calls_step(s)
    } else if reason == "stop"@ || reason == "length"@ {
        let flushed = flush_step(s);
        both(flushed, close_step(flushed.0))
    } else {
        (s, seq![])
    }
}

/// Takes in the text of a choice, if it has one.
pub open spec fn worded_step(s: NemotronState, content: Option<String>) -> (
    NemotronState,
    Seq<sent::SentView>,
) {
    match content {
        Some(t) => content_step(s, t@),
        None => (s, seq![]),
    }
}

/// Takes in a choice of a chunk: its text, then its tool calls, then the reason why it is
/// complete.
pub open spec fn choice_step(s: NemotronState, choice: ChunkChoice) -> (
    NemotronState,
    Seq<sent::SentView>,
) {
    let worded = worded_step(s, choice.delta.content);
    let called = match choice.delta.tool_calls {
        Some(pieces) => NemotronState {
            tool_calls: with_call_pieces(worded.0.tool_calls, pieces@),
            ..worded.0
        },
        None => worded.0,
    };
    match choice.finish_reason {
        Some(reason) => both(worded, finish_step(called, reason@)),
        None => (called, worded.1),
    }
}

/// Takes in the choices of a chunk.
pub open spec fn choices_step(s: NemotronState, choices: Seq<ChunkChoice>) -> (
    NemotronState,
    Seq<sent::SentView>,
)
    decreases choices.len(),
{
    if choices.len() == 0 {
        (s, seq![])
    } else {
        let before = choices_step(s, choices.drop_last());
        both(before, choice_step(before.0, choices.last()))
    }
}

/// Takes in the head of a chunk: the first id, the beginning of the response, the token counts.
pub open spec fn head_step(s: NemotronState, chunk: ChatCompletionChunk) -> (
    NemotronState,
    Seq<sent::SentView>,
) {
    (
        NemotronState {
            response_id: if s.response_id.len() == 0 {
                chunk.id@
            } else {
                s.response_id
            },
            created_sent: true,
            input_tokens: match chunk.usage {
                Some(usage) => usage.prompt_tokens,
                None => s.input_tokens,
            },
            output_tokens: match chunk.usage {
                Some(usage) => usage.completion_tokens,
                None => s.output_tokens,
            },
            ..s
        },
        if s.created_sent {
            seq![]
        } else {
            seq![Ok(ResponseEventView::Created)]
        },
    )
}

/// Takes in a chunk.
pub open spec fn chunk_step(s: NemotronState, chunk: ChatCompletionChunk) -> (
    NemotronState,
    Seq<sent::SentView>,
) {
    let head = head_step(s, chunk);
    both(head, choices_step(head.0, chunk.choices@))
}

/// The end of the response, with the token counts.
pub open spec fn completed(s: NemotronState) -> sent::SentView {
    Ok(
        ResponseEventView::Completed {
            response_id: s.response_id,
            token_usage: Some(
                TokenUsage {
                    input_tokens: s.input_tokens,
                    cached_input_tokens: 0,
                    output_tokens: s.output_tokens,
                    reasoning_output_tokens: 0,
                    total_tokens: (s.input_tokens + s.output_tokens) as i64,
                },
            ),
        },
    )
}

/// Ends the response.
pub open spec fn complete_step(s: NemotronState) -> (NemotronState, Seq<sent::SentView>) {
    (NemotronState { finished: true, ..s }, seq![completed(s)])
}

/// Ends the response with an error.
pub open spec fn fail_step(s: NemotronState, message: Seq<char>) -> (
    NemotronState,
    Seq<sent::SentView>,
) {
    (NemotronState { finished: true, ..s }, seq![Err(CodexErrView::Stream(message))])
}

/// Takes in the end of the stream: what is held back goes out, the open message ends, and the
/// response ends.
pub open spec fn closed_step(s: NemotronState) -> (NemotronState, Seq<sent::SentView>) {
    let flushed = flush_step(s);
    let closed = both(flushed, close_step(flushed.0));
    both(closed, complete_step(closed.0))
}

/// Takes in the mark that the response is complete: what is held back goes out, then the tool
/// calls; the open message ends, and the response ends.
pub open spec fn done_step(s: NemotronState) -> (NemotronState, Seq<sent::SentView>) {
    let flushed = flush_step(s);
    let called = both(flushed, calls_step(flushed.0));
    let closed = both(called, close_step(called.0));
    both(closed, complete_step(closed.0))
}

/// What happens on the stream does this: the state after it, and what is sent. Once the last
/// event has been sent, nothing happens any more.
pub open spec fn step(s: NemotronState, input: NemotronInput) -> (
    NemotronState,
    Seq<sent::SentView>,
) {
    if s.finished {
        (s, seq![])
    } else {
        match input {
            NemotronInput::Chunk(chunk) => chunk_step(s, chunk),
            NemotronInput::Unreadable => (s, seq![]),
            NemotronInput::Done => done_step(s),
            NemotronInput::Closed => closed_step(s),
            NemotronInput::Broken(message) => fail_step(s, message@),
            NemotronInput::IdleTimeout => fail_step(s, "idle timeout waiting for Nemotron SSE"@),
        }
    }
}

/// The sum of the token counts can be written.
pub open spec fn total_fits(s: NemotronState) -> bool {
    i64::MIN <= s.input_tokens + s.output_tokens <= i64::MAX
}

/// Where the input ends the response, the sum of the token counts can be written.
pub open spec fn can_take_in(s: NemotronState, input: NemotronInput) -> bool {
    !s.finished && (input is Done || input is Closed) ==> total_fits(s)
}

/// The data of an event is the mark that the response is complete.
pub open spec fn done_mark(data: Seq<char>) -> bool {
    text::trimmed(data) == "[DONE]"@
}

/// Whether the data of an event is the mark that the response is complete.
pub fn is_done_mark(data: &str) -> (done: bool)
    ensures
        done == done_mark(data@),
        done == (text::trimmed(data@) == "[DONE]"@),
{
    text::trims_to(data, "[DONE]")
}

impl Default for NemotronStream {
    /// A processor at the beginning of a stream.
    fn default() -> (stream: NemotronStream)
        ensures
            stream@ == nemotron_start(),
    {
        let tool_calls: Vec<(usize, ToolCallState)> = Vec::new();
        assert(tool_calls.deep_view() =~= seq![]);
        NemotronStream {
            response_id: String::new(),
            open_message: None,
            tool_calls,
            think_parser: ThinkTagParser::default(),
            created_sent: false,
            input_tokens: 0,
            output_tokens: 0,
            finished: false,
        }
    }
}

/// The position of the call with the given index.
fn find_call(calls: &Vec<(usize, ToolCallState)>, index: usize) -> (found: Option<usize>)
    ensures
        match found {
            Some(f) => f < calls@.len() && call_position(calls.deep_view(), index) == Some(
                f as int,
            ),
            None => call_position(calls.deep_view(), index) is None,
        },
{
    let ghost views = calls.deep_view();
    let mut i: usize = calls.len();
    assert(views.take(views.len() as int) =~= views);
    while i > 0
        invariant
            views == calls.deep_view(),
            i <= calls@.len(),
            call_position(views, index) == call_position(views.take(i as int), index),
        decreases i,
    {
        i -= 1;
        assert(views.take(i + 1).drop_last() =~= views.take(i as int));
        assert(views[i as int] == calls@[i as int].deep_view());
        if calls[i].0 == index {
            return Some(i);
        }
    }
    None
}

/// A call with more of it.
fn with_piece(call: ToolCallState, piece: &ChunkToolCall) -> (extended: ToolCallState)
    ensures
        extended.deep_view() == extended_call(call.deep_view(), *piece),
{
    let mut call = call;
    if let Some(id) = &piece.id {
        call.id = id.clone();
    }
    if let Some(function) = &piece.function {
        if let Some(name) = &function.name {
            call.name = name.clone();
        }
        if let Some(arguments) = &function.arguments {
            call.arguments.append(arguments.as_str());
        }
    }
    call
}

/// The event that names the model.
pub open spec fn opening(model: Seq<char>) -> ResponseEventView {
    ResponseEventView::ServerModel(model)
}

/// What is sent before anything of the response: the name of the model that answers, so that the
/// agent sees it in place of `auto` or a part of a name.
pub fn opening_event(model: &str) -> (event: ResponseEvent)
    ensures
        event.deep_view() == opening(model@),
        event.deep_view() == ResponseEventView::ServerModel(model@),
{
    ResponseEvent::ServerModel(model.to_string())
}

impl NemotronStream {
    /// Sends sorted text, and adds the plain text to the open message.
    fn send_deltas(
        open: &mut Option<Vec<ContentItem>>,
        deltas: Vec<ParsedDelta>,
        out: &mut Vec<Result<ResponseEvent, CodexErr>>,
    )
        ensures
            final(open).deep_view() == after_deltas(old(open).deep_view(), deltas.deep_view()),
            sent::sent(final(out)@) == sent::sent(old(out)@) + deltas_sent(deltas.deep_view()),
    {
        let ghost all = deltas@;
        let ghost views = deltas.deep_view();
        let ghost open0 = open.deep_view();
        let ghost out0 = sent::sent(out@);
        assert(sent::sent(out@) =~= out0 + deltas_sent(views.take(0)));
        for d in it: deltas
            invariant
                it.seq() == all,
                views.len() == all.len(),
                forall|i: int| 0 <= i < all.len() ==> (#[trigger] views[i]) == all[i].deep_view(),
                open.deep_view() == after_deltas(open0, views.take(it.index() as int)),
                sent::sent(out@) == out0 + deltas_sent(views.take(it.index() as int)),
        {
            let ghost k = it.index() as int;
            let ghost before = sent::sent(out@);
            assert(views[k] == d.deep_view());
            assert(views.take(k + 1).drop_last() =~= views.take(k));
            match d {
                ParsedDelta::Text(t) => {
                    sent::send_text(out, open, t);
                },
                ParsedDelta::Thinking(t) => {
                    sent::send(
                        out,
                        ResponseEvent::ReasoningContentDelta { delta: t, content_index: 0 },
                    );
                },
            }
            assert(sent::sent(out@) =~= before.push(delta_sent(views[k])));
            assert(sent::sent(out@) =~= out0 + deltas_sent(views.take(k + 1)));
        }
        assert(views.take(all.len() as int) =~= views);
    }

    /// Sends what the parser holds back.
    fn flush(&mut self, out: &mut Vec<Result<ResponseEvent, CodexErr>>)
        ensures
            final(self)@ == flush_step(old(self)@).0,
            sent::sent(final(out)@) == sent::sent(old(out)@) + flush_step(old(self)@).1,
    {
        let deltas = self.think_parser.flush();
        Self::send_deltas(&mut self.open_message, deltas, out);
    }

    /// Sends the tool calls. The first of them ends the open message.
    fn send_calls(&mut self, out: &mut Vec<Result<ResponseEvent, CodexErr>>)
        ensures
            final(self)@ == calls_step(old(self)@).0,
            sent::sent(final(out)@) == sent::sent(old(out)@) + calls_step(old(self)@).1,
    {
        let ghost s = self@;
        let ghost out0 = sent::sent(out@);
        if self.tool_calls.len() == 0 {
            assert(sent::sent(out@) =~= out0 + calls_step(s).1);
            return;
        }
        sent::finish_message(out, &mut self.open_message);
        let mut calls: Vec<(usize, ToolCallState)> = Vec::new();
        std::mem::swap(&mut calls, &mut self.tool_calls);
        assert(self.tool_calls.deep_view() =~= seq![]);
        let ghost all = calls@;
        let ghost views = calls.deep_view();
        let ghost out1 = sent::sent(out@);
        assert(sent::sent(out@) =~= out1 + calls_sent(views.take(0)));
        for c in it: calls
            invariant
                it.seq() == all,
                views.len() == all.len(),
                forall|i: int| 0 <= i < all.len() ==> (#[trigger] views[i]) == all[i].deep_view(),
                sent::sent(out@) == out1 + calls_sent(views.take(it.index() as int)),
        {
            let ghost k = it.index() as int;
            let ghost before = sent::sent(out@);
            assert(views[k] == c.deep_view());
            let (_, call) = c;
            let item = ResponseItem::FunctionCall {
                id: None,
                name: call.name,
                namespace: None,
                arguments: call.arguments,
                call_id: call.id,
            };
            sent::send(out, ResponseEvent::OutputItemDone(item));
            assert(views.take(k + 1) =~= views.take(k).push(views[k]));
            assert(sent::sent(out@) =~= out1 + calls_sent(views.take(k + 1)));
        }
        assert(views.take(all.len() as int) =~= views);
        assert(sent::sent(out@) =~= out0 + calls_step(s).1);
    }

    /// Takes in more of a tool call.
    fn extend_call(&mut self, piece: &ChunkToolCall)
        ensures
            final(self)@ == (NemotronState {
                tool_calls: with_call_piece(old(self)@.tool_calls, *piece),
                ..old(self)@
            }),
    {
        let ghost views = self.tool_calls.deep_view();
        match find_call(&self.tool_calls, piece.index) {
            Some(f) => {
                let (_, call) = self.tool_calls.remove(f);
                assert(views[f as int].1 == call.deep_view());
                let extended = with_piece(call, piece);
                self.tool_calls.insert(f, (piece.index, extended));
            },
            None => {
                let call = ToolCallState {
                    id: String::new(),
                    name: String::new(),
                    arguments: String::new(),
                };
                let extended = with_piece(call, piece);
                self.tool_calls.push((piece.index, extended));
            },
        }
        assert(self.tool_calls.deep_view() =~= with_call_piece(views, *piece));
    }

    /// Takes in a choice of a chunk.
    fn take_choice(&mut self, choice: &ChunkChoice, out: &mut Vec<Result<ResponseEvent, CodexErr>>)
        ensures
            final(self)@ == choice_step(old(self)@, *choice).0,
            sent::sent(final(out)@) == sent::sent(old(out)@) + choice_step(old(self)@, *choice).1,
    {
        let ghost s = self@;
        let ghost out0 = sent::sent(out@);
        let ghost worded = worded_step(s, choice.delta.content);
        if let Some(content) = &choice.delta.content {
            sent::begin_message(out, &mut self.open_message);
            let deltas = self.think_parser.feed(content.as_str());
            Self::send_deltas(&mut self.open_message, deltas, out);
        }
        assert(self@ == worded.0);
        assert(sent::sent(out@) =~= out0 + worded.1);
        if let Some(pieces) = &choice.delta.tool_calls {
            let mut i: usize = 0;
            while i < pieces.len()
                invariant
                    i <= pieces@.len(),
                    self@ == (NemotronState {
                        tool_calls: with_call_pieces(
                            worded.0.tool_calls,
                            pieces@.take(i as int),
                        ),
                        ..worded.0
                    }),
                decreases pieces.len() - i,
            {
                assert(pieces@.take(i + 1).drop_last() =~= pieces@.take(i as int));
                self.extend_call(&pieces[i]);
                i += 1;
            }
            assert(pieces@.take(i as int) =~= pieces@);
        }
        let ghost called = self@;
        if let Some(reason) = &choice.finish_reason {
            if text::same_text(reason.as_str(), "tool_calls") {
                self.send_calls(out);
            } else if text::same_text(reason.as_str(), "stop") || text::same_text(
                reason.as_str(),
                "length",
            ) {
                self.flush(out);
                sent::finish_message(out, &mut self.open_message);
            }
            assert(self@ == finish_step(called, reason@).0);
            assert(sent::sent(out@) =~= out0 + worded.1 + finish_step(called, reason@).1);
        }
        assert(sent::sent(out@) =~= out0 + choice_step(s, *choice).1);
    }

    /// Takes in a chunk.
    fn take_chunk(
        &mut self,
        chunk: &ChatCompletionChunk,
        out: &mut Vec<Result<ResponseEvent, CodexErr>>,
    )
        ensures
            final(self)@ == chunk_step(old(self)@, *chunk).0,
            sent::sent(final(out)@) == sent::sent(old(out)@) + chunk_step(old(self)@, *chunk).1,
    {
        let ghost s = self@;
        let ghost out0 = sent::sent(out@);
        let ghost head = head_step(s, *chunk);
        if self.response_id.as_str().is_empty() {
            self.response_id = chunk.id.clone();
        }
        if !self.created_sent {
            sent::send(out, ResponseEvent::Created);
            self.created_sent = true;
        }
        if let Some(usage) = &chunk.usage {
            self.input_tokens = usage.prompt_tokens;
            self.output_tokens = usage.completion_tokens;
        }
        assert(self@ == head.0);
        assert(sent::sent(out@) =~= out0 + head.1);
        let choices = &chunk.choices;
        let mut i: usize = 0;
        assert(sent::sent(out@) =~= out0 + head.1 + choices_step(head.0, choices@.take(0)).1);
        while i < choices.len()
            invariant
                i <= choices@.len(),
                self@ == choices_step(head.0, choices@.take(i as int)).0,
                sent::sent(out@) == out0 + head.1 + choices_step(
                    head.0,
                    choices@.take(i as int),
                ).1,
            decreases choices.len() - i,
        {
            assert(choices@.take(i + 1).drop_last() =~= choices@.take(i as int));
            self.take_choice(&choices[i], out);
            i += 1;
            assert(sent::sent(out@) =~= out0 + head.1 + choices_step(
                head.0,
                choices@.take(i as int),
            ).1);
        }
        assert(choices@.take(i as int) =~= choices@);
        assert(sent::sent(out@) =~= out0 + chunk_step(s, *chunk).1);
    }

    /// Sends the end of the response.
    fn complete(&mut self, out: &mut Vec<Result<ResponseEvent, CodexErr>>)
        requires
            total_fits(old(self)@),
        ensures
            final(self)@ == complete_step(old(self)@).0,
            sent::sent(final(out)@) == sent::sent(old(out)@) + complete_step(old(self)@).1,
    {
        let ghost s = self@;
        let ghost out0 = sent::sent(out@);
        self.finished = true;
        sent::send(
            out,
            ResponseEvent::Completed {
                response_id: self.response_id.clone(),
                token_usage: Some(
                    TokenUsage {
                        input_tokens: self.input_tokens,
                        cached_input_tokens: 0,
                        output_tokens: self.output_tokens,
                        reasoning_output_tokens: 0,
                        total_tokens: self.input_tokens + self.output_tokens,
                    },
                ),
            },
        );
        assert(sent::sent(out@) =~= out0 + complete_step(s).1);
    }

    /// Whether the input can be taken in: where it ends the response, the sum of the token counts
    /// has to fit.
    pub fn can_take(&self, input: &NemotronInput) -> (can: bool)
        ensures
            can == can_take_in(self@, *input),
    {
        if self.finished {
            return true;
        }
        match input {
            NemotronInput::Done | NemotronInput::Closed => self.input_tokens.checked_add(
                self.output_tokens,
            ).is_some(),
            _ => true,
        }
    }

    /// Takes in what happens on the stream, and returns what is to be sent. Where that is the
    /// end of the response, the sum of the token counts has to fit.
    pub fn on_input(&mut self, input: NemotronInput) -> (out: Vec<Result<ResponseEvent, CodexErr>>)
        requires
            can_take_in(old(self)@, input),
        ensures
            final(self)@ == step(old(self)@, input).0,
            sent::sent(out@) == step(old(self)@, input).1,
    {
        let ghost s = self@;
        let mut out: Vec<Result<ResponseEvent, CodexErr>> = Vec::new();
        assert(sent::sent(out@) =~= seq![]);
        if self.finished {
            return out;
        }
        match input {
            NemotronInput::Chunk(chunk) => {
                self.take_chunk(&chunk, &mut out);
            },
            NemotronInput::Unreadable => {},
            NemotronInput::Done => {
                self.flush(&mut out);
                self.send_calls(&mut out);
                sent::finish_message(&mut out, &mut self.open_message);
                self.complete(&mut out);
            },
            NemotronInput::Closed => {
                self.flush(&mut out);
                sent::finish_message(&mut out, &mut self.open_message);
                self.complete(&mut out);
            },
            NemotronInput::Broken(message) => {
                self.finished = true;
                sent::send_error(&mut out, CodexErr::Stream(message));
            },
            NemotronInput::IdleTimeout => {
                self.finished = true;
                sent::send_error(
                    &mut out,
                    CodexErr::Stream("idle timeout waiting for Nemotron SSE".to_string()),
                );
            },
        }
        assert(sent::sent(out@) =~= step(s, input).1);
        out
    }
}

} // verus!
