//! The event stream of Nemotron.

use codex_core::error::CodexErr;
use codex_core::models::{ContentItem, ResponseEvent, ResponseItem, TokenUsage};
use codex_core::nemotron_stream::{is_done_mark, opening_event, NemotronInput, NemotronStream};
use codex_core::nemotron_types::{
    ChatCompletionChunk, ChunkChoice, ChunkDelta, ChunkFunction, ChunkToolCall, ChunkUsage,
};

type Sent = Vec<Result<ResponseEvent, CodexErr>>;

fn run(inputs: Vec<NemotronInput>) -> Sent {
    let mut stream = NemotronStream::default();
    let mut out = Vec::new();
    for input in inputs {
        out.extend(stream.on_input(input));
    }
    out
}

fn choice(content: Option<&str>, calls: Vec<ChunkToolCall>, reason: Option<&str>) -> ChunkChoice {
    ChunkChoice {
        delta: ChunkDelta {
            role: None,
            content: content.map(|c| c.to_string()),
            tool_calls: if calls.is_empty() { None } else { Some(calls) },
        },
        finish_reason: reason.map(|r| r.to_string()),
    }
}

fn chunk(choices: Vec<ChunkChoice>) -> NemotronInput {
    NemotronInput::Chunk(ChatCompletionChunk {
        id: "chat-1".to_string(),
        choices,
        usage: None,
    })
}

fn content(t: &str) -> NemotronInput {
    chunk(vec![choice(Some(t), vec![], None)])
}

fn finish(reason: &str) -> NemotronInput {
    chunk(vec![choice(None, vec![], Some(reason))])
}

fn piece(index: usize, id: Option<&str>, name: Option<&str>, args: Option<&str>) -> ChunkToolCall {
    ChunkToolCall {
        index,
        id: id.map(|s| s.to_string()),
        function: if name.is_none() && args.is_none() {
            None
        } else {
            Some(ChunkFunction {
                name: name.map(|s| s.to_string()),
                arguments: args.map(|s| s.to_string()),
            })
        },
    }
}

fn pieces(calls: Vec<ChunkToolCall>) -> NemotronInput {
    chunk(vec![choice(None, calls, None)])
}

fn usage(prompt_tokens: i64, completion_tokens: i64) -> NemotronInput {
    NemotronInput::Chunk(ChatCompletionChunk {
        id: "chat-2".to_string(),
        choices: vec![],
        usage: Some(ChunkUsage {
            prompt_tokens,
            completion_tokens,
            total_tokens: 0,
        }),
    })
}

fn message(pieces: &[&str]) -> ResponseItem {
    ResponseItem::Message {
        id: None,
        role: "assistant".to_string(),
        content: pieces
            .iter()
            .map(|p| ContentItem::OutputText {
                text: p.to_string(),
            })
            .collect(),
        end_turn: None,
        phase: None,
    }
}

fn call(name: &str, arguments: &str, call_id: &str) -> Result<ResponseEvent, CodexErr> {
    Ok(ResponseEvent::OutputItemDone(ResponseItem::FunctionCall {
        id: None,
        name: name.to_string(),
        namespace: None,
        arguments: arguments.to_string(),
        call_id: call_id.to_string(),
    }))
}

fn created() -> Result<ResponseEvent, CodexErr> {
    Ok(ResponseEvent::Created)
}

fn added() -> Result<ResponseEvent, CodexErr> {
    Ok(ResponseEvent::OutputItemAdded(message(&[])))
}

fn done(pieces: &[&str]) -> Result<ResponseEvent, CodexErr> {
    Ok(ResponseEvent::OutputItemDone(message(pieces)))
}

fn text(t: &str) -> Result<ResponseEvent, CodexErr> {
    Ok(ResponseEvent::OutputTextDelta(t.to_string()))
}

fn reasoning(t: &str) -> Result<ResponseEvent, CodexErr> {
    Ok(ResponseEvent::ReasoningContentDelta {
        delta: t.to_string(),
        content_index: 0,
    })
}

fn completed(id: &str, input: i64, output: i64) -> Result<ResponseEvent, CodexErr> {
    Ok(ResponseEvent::Completed {
        response_id: id.to_string(),
        token_usage: Some(TokenUsage {
            input_tokens: input,
            cached_input_tokens: 0,
            output_tokens: output,
            reasoning_output_tokens: 0,
            total_tokens: input + output,
        }),
    })
}

#[test]
fn the_done_mark_may_be_padded() {
    assert!(is_done_mark("[DONE]"));
    assert!(is_done_mark(" \t[DONE]\n"));
    assert!(is_done_mark("\u{a0}[DONE]\u{3000}"));
    assert!(!is_done_mark("[DONE"));
    assert!(!is_done_mark("[ DONE]"));
    assert!(!is_done_mark("[DONE] [DONE]"));
    assert!(!is_done_mark(""));
    assert!(!is_done_mark("[done]"));
}

#[test]
fn a_response_with_reasoning() {
    let out = run(vec![
        content("<think>two and"),
        content(" two</thi"),
        content("nk>4"),
        NemotronInput::Unreadable,
        content("!"),
        finish("stop"),
        usage(12, 5),
        NemotronInput::Done,
    ]);
    assert_eq!(
        out,
        vec![
            created(),
            added(),
            reasoning("two and"),
            reasoning(" two"),
            text("4"),
            text("!"),
            done(&["4", "!"]),
            completed("chat-1", 12, 5),
        ]
    );
}

#[test]
fn what_is_held_back_goes_out_at_the_stop() {
    for reason in ["stop", "length"] {
        let out = run(vec![content("a<b"), finish(reason), NemotronInput::Done]);
        assert_eq!(
            out,
            vec![
                created(),
                added(),
                text("a"),
                text("<b"),
                done(&["a", "<b"]),
                completed("chat-1", 0, 0),
            ]
        );
    }
}

#[test]
fn other_reasons_change_nothing() {
    let out = run(vec![content("a<"), finish("content_filter")]);
    assert_eq!(out, vec![created(), added(), text("a")]);
}

#[test]
fn done_flushes_sends_calls_and_ends_the_message() {
    let out = run(vec![
        content("x<"),
        pieces(vec![piece(0, Some("c"), Some("f"), Some("{}"))]),
        NemotronInput::Done,
    ]);
    assert_eq!(
        out,
        vec![
            created(),
            added(),
            text("x"),
            text("<"),
            done(&["x", "<"]),
            call("f", "{}", "c"),
            completed("chat-1", 0, 0),
        ]
    );
}

#[test]
fn a_closed_stream_flushes_and_ends_the_message() {
    let out = run(vec![
        content("x<"),
        pieces(vec![piece(0, Some("c"), Some("f"), Some("{}"))]),
        NemotronInput::Closed,
    ]);
    assert_eq!(
        out,
        vec![
            created(),
            added(),
            text("x"),
            text("<"),
            done(&["x", "<"]),
            completed("chat-1", 0, 0),
        ]
    );
}

#[test]
fn tool_calls_are_put_together_by_index() {
    let out = run(vec![
        pieces(vec![
            piece(1, Some("c1"), Some("g"), None),
            piece(0, Some("c0"), Some("f"), Some("{\"a\"")),
        ]),
        pieces(vec![piece(1, None, None, Some("[1")), piece(0, None, None, None)]),
        pieces(vec![
            piece(0, None, None, Some(":1}")),
            piece(1, Some("c1b"), None, Some("]")),
        ]),
        finish("tool_calls"),
        NemotronInput::Done,
    ]);
    assert_eq!(
        out,
        vec![
            created(),
            call("g", "[1]", "c1b"),
            call("f", "{\"a\":1}", "c0"),
            completed("chat-1", 0, 0),
        ]
    );
}

#[test]
fn tool_calls_end_the_open_message_once() {
    let out = run(vec![
        content("look"),
        chunk(vec![choice(
            None,
            vec![
                piece(0, Some("a"), Some("f"), None),
                piece(1, Some("b"), Some("g"), None),
            ],
            Some("tool_calls"),
        )]),
        finish("tool_calls"),
        NemotronInput::Done,
    ]);
    assert_eq!(
        out,
        vec![
            created(),
            added(),
            text("look"),
            done(&["look"]),
            call("f", "", "a"),
            call("g", "", "b"),
            completed("chat-1", 0, 0),
        ]
    );
}

#[test]
fn without_calls_the_reason_leaves_the_message_open() {
    let out = run(vec![content("a"), finish("tool_calls"), content("b")]);
    assert_eq!(out, vec![created(), added(), text("a"), text("b")]);
}

#[test]
fn an_index_may_come_again_after_its_call_was_sent() {
    let out = run(vec![
        pieces(vec![piece(0, Some("a"), Some("f"), Some("1"))]),
        finish("tool_calls"),
        pieces(vec![piece(0, Some("b"), Some("g"), Some("2"))]),
        finish("tool_calls"),
    ]);
    assert_eq!(out, vec![created(), call("f", "1", "a"), call("g", "2", "b")]);
}

#[test]
fn several_choices_are_taken_in_turn() {
    let out = run(vec![chunk(vec![
        choice(Some("a"), vec![], Some("stop")),
        choice(Some("b"), vec![], None),
    ])]);
    assert_eq!(
        out,
        vec![created(), added(), text("a"), done(&["a"]), added(), text("b")]
    );
}

#[test]
fn empty_content_opens_a_message() {
    let out = run(vec![content(""), finish("stop")]);
    assert_eq!(out, vec![created(), added(), done(&[])]);
}

#[test]
fn the_first_id_that_is_not_empty_is_kept() {
    let with_id = |id: &str| {
        NemotronInput::Chunk(ChatCompletionChunk {
            id: id.to_string(),
            choices: vec![],
            usage: None,
        })
    };
    let out = run(vec![with_id(""), with_id("b"), with_id("c"), NemotronInput::Done]);
    assert_eq!(out, vec![created(), completed("b", 0, 0)]);
}

#[test]
fn the_counts_are_the_last_ones_reported() {
    let out = run(vec![usage(1, 2), usage(i64::MAX, -5), NemotronInput::Closed]);
    assert_eq!(out, vec![created(), completed("chat-2", i64::MAX, -5)]);
}

#[test]
fn text_behind_the_end_of_a_message_belongs_to_none() {
    // The calls end the message; what was held back comes after it.
    let out = run(vec![
        content("a<"),
        pieces(vec![piece(0, Some("c"), Some("f"), None)]),
        finish("tool_calls"),
        finish("stop"),
    ]);
    assert_eq!(
        out,
        vec![
            created(),
            added(),
            text("a"),
            done(&["a"]),
            call("f", "", "c"),
            text("<"),
        ]
    );
}

#[test]
fn a_response_without_a_chunk_is_its_end() {
    assert_eq!(run(vec![NemotronInput::Done]), vec![completed("", 0, 0)]);
    assert_eq!(run(vec![NemotronInput::Closed]), vec![completed("", 0, 0)]);
}

#[test]
fn a_failure_ends_the_stream() {
    let cases = vec![
        (NemotronInput::Broken("reset".to_string()), "reset"),
        (
            NemotronInput::IdleTimeout,
            "idle timeout waiting for Nemotron SSE",
        ),
    ];
    for (input, expected) in cases {
        let mut stream = NemotronStream::default();
        stream.on_input(content("a"));
        assert_eq!(
            stream.on_input(input),
            vec![Err(CodexErr::Stream(expected.to_string()))]
        );
        assert!(stream.finished);
        assert_eq!(stream.on_input(content("b")), vec![]);
        assert_eq!(stream.on_input(NemotronInput::Done), vec![]);
    }
}

#[test]
fn nothing_comes_after_the_end() {
    let out = run(vec![NemotronInput::Done, content("a"), NemotronInput::Closed]);
    assert_eq!(out, vec![completed("", 0, 0)]);
}

#[test]
fn counts_whose_sum_does_not_fit_are_told() {
    let mut stream = NemotronStream::default();
    assert!(stream.can_take(&NemotronInput::Done));
    stream.on_input(usage(i64::MAX, 1));
    assert!(!stream.can_take(&NemotronInput::Done));
    assert!(!stream.can_take(&NemotronInput::Closed));
    assert!(stream.can_take(&NemotronInput::IdleTimeout));
    assert!(stream.can_take(&content("a")));
    stream.on_input(NemotronInput::IdleTimeout);
    assert!(stream.can_take(&NemotronInput::Done));
}

#[test]
fn the_model_is_named_first() {
    assert_eq!(
        opening_event("org/model"),
        ResponseEvent::ServerModel("org/model".to_string())
    );
    let out = run(vec![content("a"), finish("stop"), NemotronInput::Done]);
    assert!(!out
        .iter()
        .any(|sent| matches!(sent, Ok(ResponseEvent::ServerModel(_)))));
}

#[test]
fn a_stop_in_the_middle_of_a_tag_hands_out_its_beginning() {
    let out = run(vec![content("a<thi"), finish("stop"), content("nk>b")]);
    assert_eq!(
        out,
        vec![
            created(),
            added(),
            text("a"),
            text("<thi"),
            done(&["a", "<thi"]),
            added(),
            text("nk>b"),
        ]
    );
}

#[test]
fn a_closing_tag_cut_between_chunks_ends_the_reasoning() {
    let out = run(vec![content("<think>a<"), content("/think>b"), NemotronInput::Done]);
    assert_eq!(
        out,
        vec![
            created(),
            added(),
            reasoning("a"),
            text("b"),
            done(&["b"]),
            completed("chat-1", 0, 0),
        ]
    );
}
