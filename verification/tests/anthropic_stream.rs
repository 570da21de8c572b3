//! The event stream of the Anthropic Messages API.

use codex_core::anthropic_stream::{AnthropicInput, AnthropicStream};
use codex_core::anthropic_types::{
    ContentBlock, ContentBlockDelta, MessageDelta, MessageDeltaUsage, StopReason, StreamError,
    StreamEvent, StreamMessageStart, Usage,
};
use codex_core::error::CodexErr;
use codex_core::json::Json;
use codex_core::models::{ContentItem, ResponseEvent, ResponseItem, TokenUsage};

type Sent = Vec<Result<ResponseEvent, CodexErr>>;

fn run(inputs: Vec<AnthropicInput>) -> Sent {
    let mut stream = AnthropicStream::default();
    let mut out = Vec::new();
    for input in inputs {
        out.extend(stream.on_input(input));
    }
    out
}

fn start() -> AnthropicInput {
    AnthropicInput::Event(StreamEvent::MessageStart {
        message: StreamMessageStart {
            id: "msg_1".to_string(),
            role: "assistant".to_string(),
            model: "m".to_string(),
            usage: Usage {
                input_tokens: 10,
                output_tokens: 1,
                cache_creation_input_tokens: None,
                cache_read_input_tokens: Some(4),
            },
        },
    })
}

fn begin(index: usize, content_block: ContentBlock) -> AnthropicInput {
    AnthropicInput::Event(StreamEvent::ContentBlockStart {
        index,
        content_block,
    })
}

fn begin_text(index: usize) -> AnthropicInput {
    begin(
        index,
        ContentBlock::Text {
            text: String::new(),
        },
    )
}

fn begin_tool(index: usize, id: &str, name: &str) -> AnthropicInput {
    begin(
        index,
        ContentBlock::ToolUse {
            id: id.to_string(),
            name: name.to_string(),
            input: Json::Object(vec![]),
        },
    )
}

fn begin_thinking(index: usize) -> AnthropicInput {
    begin(
        index,
        ContentBlock::Thinking {
            thinking: String::new(),
        },
    )
}

fn delta(index: usize, delta: ContentBlockDelta) -> AnthropicInput {
    AnthropicInput::Event(StreamEvent::ContentBlockDelta { index, delta })
}

fn text(index: usize, text: &str) -> AnthropicInput {
    delta(
        index,
        ContentBlockDelta::TextDelta {
            text: text.to_string(),
        },
    )
}

fn arguments(index: usize, partial_json: &str) -> AnthropicInput {
    delta(
        index,
        ContentBlockDelta::InputJsonDelta {
            partial_json: partial_json.to_string(),
        },
    )
}

fn thinking(index: usize, thinking: &str) -> AnthropicInput {
    delta(
        index,
        ContentBlockDelta::ThinkingDelta {
            thinking: thinking.to_string(),
        },
    )
}

fn end(index: usize) -> AnthropicInput {
    AnthropicInput::Event(StreamEvent::ContentBlockStop { index })
}

fn stop(stop_reason: Option<StopReason>, output_tokens: u32) -> AnthropicInput {
    AnthropicInput::Event(StreamEvent::MessageDelta {
        delta: MessageDelta { stop_reason },
        usage: MessageDeltaUsage { output_tokens },
    })
}

fn finish() -> AnthropicInput {
    AnthropicInput::Event(StreamEvent::MessageStop)
}

fn message(pieces: &[&str]) -> ResponseItem {
    ResponseItem::Message {
        id: None,
        role: "assistant".to_string(),
        content: pieces
            .iter()
            .map(|p| ContentItem::OutputText {
                text: p.to_string(),
            })
            .collect(),
        end_turn: None,
        phase: None,
    }
}

fn call(name: &str, arguments: &str, call_id: &str) -> ResponseItem {
    ResponseItem::FunctionCall {
        id: None,
        name: name.to_string(),
        namespace: None,
        arguments: arguments.to_string(),
        call_id: call_id.to_string(),
    }
}

fn completed(id: &str, input: i64, cached: i64, output: i64) -> Result<ResponseEvent, CodexErr> {
    Ok(ResponseEvent::Completed {
        response_id: id.to_string(),
        token_usage: Some(TokenUsage {
            input_tokens: input,
            cached_input_tokens: cached,
            output_tokens: output,
            reasoning_output_tokens: 0,
            total_tokens: input + output,
        }),
    })
}

fn text_delta(t: &str) -> Result<ResponseEvent, CodexErr> {
    Ok(ResponseEvent::OutputTextDelta(t.to_string()))
}

fn reasoning_delta(t: &str) -> Result<ResponseEvent, CodexErr> {
    Ok(ResponseEvent::ReasoningContentDelta {
        delta: t.to_string(),
        content_index: 0,
    })
}

#[test]
fn a_text_response() {
    let out = run(vec![
        start(),
        begin_text(0),
        AnthropicInput::Event(StreamEvent::Ping),
        text(0, "Hel"),
        AnthropicInput::Unreadable,
        text(0, "lo"),
        end(0),
        stop(Some(StopReason::EndTurn), 7),
        finish(),
    ]);
    assert_eq!(
        out,
        vec![
            Ok(ResponseEvent::Created),
            Ok(ResponseEvent::OutputItemAdded(message(&[]))),
            text_delta("Hel"),
            text_delta("lo"),
            Ok(ResponseEvent::OutputItemDone(message(&["Hel", "lo"]))),
            completed("msg_1", 10, 4, 7),
        ]
    );
}

#[test]
fn a_tool_call_ends_the_message_and_is_announced() {
    let out = run(vec![
        start(),
        begin_text(0),
        text(0, "Let me look."),
        end(0),
        begin_tool(1, "t1", "shell"),
        arguments(1, "{\"a\":"),
        arguments(1, "1}"),
        end(1),
        stop(Some(StopReason::ToolUse), 9),
        finish(),
    ]);
    assert_eq!(
        out,
        vec![
            Ok(ResponseEvent::Created),
            Ok(ResponseEvent::OutputItemAdded(message(&[]))),
            text_delta("Let me look."),
            Ok(ResponseEvent::OutputItemDone(message(&["Let me look."]))),
            Ok(ResponseEvent::OutputItemAdded(call(
                "shell",
                "{\"a\":1}",
                "t1"
            ))),
            Ok(ResponseEvent::OutputItemDone(call(
                "shell",
                "{\"a\":1}",
                "t1"
            ))),
            completed("msg_1", 10, 4, 9),
        ]
    );
}

#[test]
fn blocks_that_interleave_keep_their_pieces() {
    let out = run(vec![
        begin_tool(0, "t0", "f"),
        begin_tool(5, "t5", "g"),
        arguments(5, "5a"),
        arguments(0, "0a"),
        arguments(5, "5b"),
        end(0),
        end(5),
    ]);
    assert_eq!(
        out,
        vec![
            Ok(ResponseEvent::OutputItemAdded(call("f", "0a", "t0"))),
            Ok(ResponseEvent::OutputItemDone(call("f", "0a", "t0"))),
            Ok(ResponseEvent::OutputItemAdded(call("g", "5a5b", "t5"))),
            Ok(ResponseEvent::OutputItemDone(call("g", "5a5b", "t5"))),
        ]
    );
}

#[test]
fn reasoning_is_streamed_and_put_together() {
    let out = run(vec![
        begin_thinking(0),
        thinking(0, "why "),
        delta(
            0,
            ContentBlockDelta::SignatureDelta {
                signature: "s".to_string(),
            },
        ),
        thinking(0, "not"),
        end(0),
        begin_thinking(1),
        end(1),
    ]);
    assert_eq!(
        out,
        vec![
            reasoning_delta("why "),
            reasoning_delta("not"),
            Ok(ResponseEvent::OutputItemDone(ResponseItem::Reasoning {
                id: String::new(),
                summary: vec![],
                content: Some(vec!["why not".to_string()]),
                encrypted_content: None,
            })),
        ]
    );
}

#[test]
fn text_after_a_tool_call_opens_another_message() {
    let out = run(vec![
        begin_text(0),
        text(0, "a"),
        begin_tool(1, "t", "f"),
        end(1),
        begin_text(2),
        begin_text(3),
        text(3, "b"),
        stop(Some(StopReason::MaxTokens), 0),
    ]);
    assert_eq!(
        out,
        vec![
            Ok(ResponseEvent::OutputItemAdded(message(&[]))),
            text_delta("a"),
            Ok(ResponseEvent::OutputItemDone(message(&["a"]))),
            Ok(ResponseEvent::OutputItemAdded(call("f", "", "t"))),
            Ok(ResponseEvent::OutputItemDone(call("f", "", "t"))),
            Ok(ResponseEvent::OutputItemAdded(message(&[]))),
            text_delta("b"),
            Ok(ResponseEvent::OutputItemDone(message(&["b"]))),
        ]
    );
}

#[test]
fn pieces_of_unknown_blocks_are_ignored() {
    assert_eq!(
        run(vec![text(3, "x"), arguments(3, "y"), end(3), stop(None, 5)]),
        vec![]
    );
}

#[test]
fn a_new_block_takes_the_place_of_an_old_one() {
    let out = run(vec![
        begin_tool(0, "t0", "f"),
        arguments(0, "old"),
        begin_tool(0, "t1", "g"),
        arguments(0, "new"),
        end(0),
        end(0),
    ]);
    assert_eq!(
        out,
        vec![
            Ok(ResponseEvent::OutputItemAdded(call("g", "new", "t1"))),
            Ok(ResponseEvent::OutputItemDone(call("g", "new", "t1"))),
        ]
    );
}

#[test]
fn a_stream_that_ends_early_completes() {
    assert_eq!(run(vec![AnthropicInput::Closed]), vec![completed("", 0, 0, 0)]);
    let out = run(vec![start(), begin_text(0), text(0, "a"), AnthropicInput::Closed]);
    assert_eq!(out.last(), Some(&completed("msg_1", 10, 4, 1)));
    assert_eq!(out.len(), 4);
}

#[test]
fn the_output_count_is_the_last_one_reported() {
    let out = run(vec![start(), stop(None, 20), stop(None, 30), finish()]);
    assert_eq!(out.last(), Some(&completed("msg_1", 10, 4, 30)));
}

#[test]
fn large_counts_do_not_overflow() {
    let out = run(vec![
        AnthropicInput::Event(StreamEvent::MessageStart {
            message: StreamMessageStart {
                id: "i".to_string(),
                role: String::new(),
                model: String::new(),
                usage: Usage {
                    input_tokens: u32::MAX,
                    output_tokens: u32::MAX,
                    cache_creation_input_tokens: Some(1),
                    cache_read_input_tokens: None,
                },
            },
        }),
        finish(),
    ]);
    assert_eq!(
        out.last(),
        Some(&completed("i", 4294967295, 0, 4294967295))
    );
}

#[test]
fn each_failure_ends_the_stream() {
    let cases = vec![
        (
            AnthropicInput::Broken("reset".to_string()),
            "reset".to_string(),
        ),
        (
            AnthropicInput::IdleTimeout,
            "idle timeout waiting for Anthropic SSE".to_string(),
        ),
        (
            AnthropicInput::Event(StreamEvent::Error {
                error: StreamError {
                    message: "Overloaded".to_string(),
                    kind: "overloaded_error".to_string(),
                },
            }),
            "Anthropic error: Overloaded".to_string(),
        ),
    ];
    for (input, expected) in cases {
        let mut stream = AnthropicStream::default();
        assert_eq!(
            stream.on_input(input),
            vec![Err(CodexErr::Stream(expected))]
        );
        assert!(stream.finished);
        assert_eq!(stream.on_input(start()), vec![]);
        assert_eq!(stream.on_input(AnthropicInput::Closed), vec![]);
    }
}

#[test]
fn nothing_is_sent_after_the_end() {
    let out = run(vec![finish(), finish(), AnthropicInput::Closed, start()]);
    assert_eq!(out, vec![completed("", 0, 0, 0)]);
}
