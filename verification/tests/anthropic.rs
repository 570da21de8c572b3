//! Requests to the Anthropic Messages API.

use codex_core::anthropic::{
    build_messages, build_messages_request, coalesce_messages, content_to_blocks,
    convert_custom_tool_call, convert_function_call, convert_item, convert_message,
    strip_empty_text_blocks,
};
use codex_core::anthropic_types::{ContentBlockParam, MessageContent, MessageParam};
use codex_core::error::CodexErr;
use codex_core::json::Json;
use codex_core::models::{
    BaseInstructions, ContentItem, FunctionCallOutputContentItem, FunctionCallOutputPayload,
    LocalShellAction, Prompt, ResponseItem,
};
use codex_core::tools::spec::{ResponsesApiTool, ToolSpec};

fn text_message(role: &str, text: &str) -> MessageParam {
    MessageParam {
        role: role.to_string(),
        content: MessageContent::Text(text.to_string()),
    }
}

fn text_block(text: &str) -> ContentBlockParam {
    ContentBlockParam::Text {
        text: text.to_string(),
    }
}

fn blocks(role: &str, blocks: Vec<ContentBlockParam>) -> MessageParam {
    MessageParam {
        role: role.to_string(),
        content: MessageContent::Blocks(blocks),
    }
}

fn message(role: &str, content: Vec<ContentItem>) -> ResponseItem {
    ResponseItem::Message {
        id: None,
        role: role.to_string(),
        content,
        end_turn: None,
        phase: None,
    }
}

fn input_text(text: &str) -> ContentItem {
    ContentItem::InputText {
        text: text.to_string(),
    }
}

fn call(name: &str, arguments: &str, call_id: &str) -> ResponseItem {
    ResponseItem::FunctionCall {
        id: None,
        name: name.to_string(),
        namespace: None,
        arguments: arguments.to_string(),
        call_id: call_id.to_string(),
    }
}

fn text_output(text: &str) -> FunctionCallOutputPayload {
    FunctionCallOutputPayload {
        content_items: None,
        text_content: Some(text.to_string()),
    }
}

fn result_block(call_id: &str, content: &str) -> ContentBlockParam {
    ContentBlockParam::ToolResult {
        tool_use_id: call_id.to_string(),
        content: Some(content.to_string()),
        is_error: None,
    }
}

fn prompt(input: Vec<ResponseItem>, tools: Vec<ToolSpec>) -> Prompt {
    Prompt {
        base_instructions: BaseInstructions {
            text: "Be brief.".to_string(),
        },
        input,
        tools,
        output_schema: None,
    }
}

#[test]
fn test_coalesce_empty() {
    let result = coalesce_messages(vec![]);
    assert!(result.is_empty());
}

#[test]
fn test_coalesce_no_merge_needed() {
    let messages = vec![
        MessageParam {
            role: "user".to_string(),
            content: MessageContent::Text("Hello".to_string()),
        },
        MessageParam {
            role: "assistant".to_string(),
            content: MessageContent::Text("Hi".to_string()),
        },
    ];
    let result = coalesce_messages(messages);
    assert_eq!(result.len(), 2);
}

#[test]
fn test_coalesce_merges_adjacent_user_messages() {
    let messages = vec![
        MessageParam {
            role: "user".to_string(),
            content: MessageContent::Text("Hello".to_string()),
        },
        MessageParam {
            role: "user".to_string(),
            content: MessageContent::Text("World".to_string()),
        },
        MessageParam {
            role: "assistant".to_string(),
            content: MessageContent::Text("Hi".to_string()),
        },
    ];
    let result = coalesce_messages(messages);
    assert_eq!(result.len(), 2);
    assert_eq!(result[0].role, "user");
    match &result[0].content {
        MessageContent::Blocks(blocks) => {
            assert_eq!(blocks.len(), 2);
        }
        _ => panic!("Expected Blocks content after coalescing"),
    }
}

#[test]
fn test_coalesce_tool_results() {
    let messages = vec![
        MessageParam {
            role: "assistant".to_string(),
            content: MessageContent::Blocks(vec![ContentBlockParam::ToolUse {
                id: "tool1".to_string(),
                name: "shell".to_string(),
                input: Json::Null,
            }]),
        },
        MessageParam {
            role: "user".to_string(),
            content: MessageContent::Blocks(vec![ContentBlockParam::ToolResult {
                tool_use_id: "tool1".to_string(),
                content: Some("result1".to_string()),
                is_error: None,
            }]),
        },
        MessageParam {
            role: "user".to_string(),
            content: MessageContent::Blocks(vec![ContentBlockParam::ToolResult {
                tool_use_id: "tool2".to_string(),
                content: Some("result2".to_string()),
                is_error: None,
            }]),
        },
    ];
    let result = coalesce_messages(messages);
    assert_eq!(result.len(), 2);
    match &result[1].content {
        MessageContent::Blocks(blocks) => {
            assert_eq!(blocks.len(), 2);
        }
        _ => panic!("Expected Blocks"),
    }
}

#[test]
fn test_strip_empty_text_blocks_removes_empty_text() {
    let mut messages = vec![MessageParam {
        role: "assistant".to_string(),
        content: MessageContent::Blocks(vec![
            ContentBlockParam::Text {
                text: "".to_string(),
            },
            ContentBlockParam::ToolUse {
                id: "t1".to_string(),
                name: "shell".to_string(),
                input: Json::Null,
            },
        ]),
    }];
    strip_empty_text_blocks(&mut messages);
    assert_eq!(messages.len(), 1);
    match &messages[0].content {
        MessageContent::Blocks(blocks) => {
            assert_eq!(blocks.len(), 1);
            assert!(matches!(&blocks[0], ContentBlockParam::ToolUse { .. }));
        }
        _ => panic!("Expected Blocks"),
    }
}

#[test]
fn test_strip_empty_text_blocks_drops_empty_message() {
    let mut messages = vec![
        MessageParam {
            role: "assistant".to_string(),
            content: MessageContent::Text("  ".to_string()),
        },
        MessageParam {
            role: "user".to_string(),
            content: MessageContent::Text("hello".to_string()),
        },
    ];
    strip_empty_text_blocks(&mut messages);
    assert_eq!(messages.len(), 1);
    assert_eq!(messages[0].role, "user");
}

#[test]
fn content_to_blocks_turns_a_text_into_one_block() {
    let mut content = MessageContent::Text("hello".to_string());
    content_to_blocks(&mut content).push(text_block("more"));
    assert_eq!(
        content,
        MessageContent::Blocks(vec![text_block("hello"), text_block("more")])
    );
    content_to_blocks(&mut content).clear();
    assert_eq!(content, MessageContent::Blocks(vec![]));
}

#[test]
fn coalescing_keeps_every_block_in_order() {
    let result = coalesce_messages(vec![
        text_message("user", "a"),
        blocks("user", vec![text_block("b"), text_block("c")]),
        text_message("assistant", "d"),
        text_message("assistant", "e"),
        text_message("user", "f"),
    ]);
    assert_eq!(
        result,
        vec![
            blocks(
                "user",
                vec![text_block("a"), text_block("b"), text_block("c")]
            ),
            blocks("assistant", vec![text_block("d"), text_block("e")]),
            text_message("user", "f"),
        ]
    );
}

#[test]
fn alternating_messages_are_left_alone() {
    let messages = || {
        vec![
            text_message("user", "a"),
            text_message("assistant", "b"),
            text_message("user", "c"),
        ]
    };
    assert_eq!(coalesce_messages(messages()), messages());
}

#[test]
fn coalescing_twice_is_coalescing_once() {
    let messages = || {
        vec![
            text_message("user", "a"),
            text_message("user", "b"),
            text_message("assistant", "c"),
        ]
    };
    let once = coalesce_messages(messages());
    assert_eq!(coalesce_messages(coalesce_messages(messages())), once);
}

#[test]
fn stripping_removes_blank_text_only() {
    let mut messages = vec![
        text_message("user", "\t\n"),
        text_message("user", " kept "),
        blocks(
            "assistant",
            vec![text_block(""), text_block("x"), text_block(" \u{3000}")],
        ),
        blocks("user", vec![text_block(" ")]),
        blocks("user", vec![]),
        blocks("user", vec![result_block("t", "")]),
    ];
    strip_empty_text_blocks(&mut messages);
    let expected = vec![
        text_message("user", " kept "),
        blocks("assistant", vec![text_block("x")]),
        blocks("user", vec![result_block("t", "")]),
    ];
    assert_eq!(messages, expected);
    strip_empty_text_blocks(&mut messages);
    assert_eq!(messages, expected);
}

#[test]
fn a_message_without_an_image_is_one_text() {
    let content = vec![
        input_text("a"),
        ContentItem::OutputText {
            text: "b".to_string(),
        },
    ];
    assert_eq!(
        convert_message("assistant", &content),
        Some(text_message("assistant", "ab"))
    );
    assert_eq!(
        convert_message("developer", &content),
        Some(text_message("user", "ab"))
    );
    assert_eq!(convert_message("system", &content), None);
}

#[test]
fn a_message_with_an_image_is_blocks() {
    let content = vec![
        input_text("look"),
        ContentItem::InputImage {
            image_url: "http://x/y.png".to_string(),
        },
    ];
    assert_eq!(
        convert_message("user", &content),
        Some(blocks(
            "user",
            vec![text_block("look"), text_block("[Image: http://x/y.png]")]
        ))
    );
}

#[test]
fn a_blank_message_is_left_out() {
    assert_eq!(convert_message("user", &vec![]), None);
    assert_eq!(convert_message("user", &vec![input_text(" \n ")]), None);
    assert_eq!(
        convert_message(
            "user",
            &vec![ContentItem::InputImage {
                image_url: String::new()
            }]
        ),
        Some(blocks("user", vec![text_block("[Image: ]")]))
    );
}

#[test]
fn a_function_call_carries_its_arguments() {
    assert_eq!(
        convert_item(&call("shell", "{\"n\": [1, true]}", "c1")),
        Ok(Some(blocks(
            "assistant",
            vec![ContentBlockParam::ToolUse {
                id: "c1".to_string(),
                name: "shell".to_string(),
                input: Json::Object(vec![(
                    "n".to_string(),
                    Json::Array(vec![
                        Json::Number(serde_json::Number::from(1)),
                        Json::Bool(true)
                    ])
                )]),
            }]
        )))
    );
}

#[test]
fn arguments_that_are_not_json_are_an_error() {
    let message = serde_json::from_str::<serde_json::Value>("{oops").unwrap_err().to_string();
    assert_eq!(
        convert_item(&call("shell", "{oops", "c1")),
        Err(CodexErr::UnsupportedOperation(format!(
            "Invalid JSON in tool arguments for `shell`: {message}"
        )))
    );
    assert_eq!(
        convert_function_call("t", "c", Err("bad".to_string())),
        Err(CodexErr::UnsupportedOperation(
            "Invalid JSON in tool arguments for `t`: bad".to_string()
        ))
    );
}

#[test]
fn custom_input_that_is_not_json_is_an_empty_object() {
    let expected = |id: &str, input: Json| {
        blocks(
            "assistant",
            vec![ContentBlockParam::ToolUse {
                id: id.to_string(),
                name: "patch".to_string(),
                input,
            }],
        )
    };
    assert_eq!(
        convert_custom_tool_call("patch", "c", Err("bad".to_string())),
        expected("c", Json::Object(vec![]))
    );
    assert_eq!(
        convert_item(&ResponseItem::CustomToolCall {
            id: None,
            call_id: "c".to_string(),
            name: "patch".to_string(),
            input: "not json".to_string(),
        }),
        Ok(Some(expected("c", Json::Object(vec![]))))
    );
    assert_eq!(
        convert_item(&ResponseItem::CustomToolCall {
            id: Some("i".to_string()),
            call_id: "c".to_string(),
            name: "patch".to_string(),
            input: "\"text\"".to_string(),
        }),
        Ok(Some(expected("c", Json::String("text".to_string()))))
    );
}

#[test]
fn tool_results_carry_the_id_of_their_call() {
    let pieces = FunctionCallOutputPayload {
        content_items: Some(vec![
            FunctionCallOutputContentItem::InputText {
                text: "one".to_string(),
            },
            FunctionCallOutputContentItem::InputImage {
                image_url: "u".to_string(),
            },
        ]),
        text_content: Some("ignored".to_string()),
    };
    assert_eq!(
        convert_item(&ResponseItem::FunctionCallOutput {
            call_id: "c1".to_string(),
            output: pieces,
        }),
        Ok(Some(blocks(
            "user",
            vec![result_block("c1", "one\n[Image: u]")]
        )))
    );
    assert_eq!(
        convert_item(&ResponseItem::CustomToolCallOutput {
            call_id: "c2".to_string(),
            output: text_output("done"),
        }),
        Ok(Some(blocks("user", vec![result_block("c2", "done")])))
    );
    assert_eq!(
        convert_item(&ResponseItem::FunctionCallOutput {
            call_id: "c3".to_string(),
            output: FunctionCallOutputPayload {
                content_items: None,
                text_content: None,
            },
        }),
        Ok(Some(blocks("user", vec![result_block("c3", "")])))
    );
}

#[test]
fn a_shell_call_is_a_tool_use() {
    let shell = |call_id: Option<&str>, id: Option<&str>, value: Option<Json>| {
        ResponseItem::LocalShellCall {
            id: id.map(|s| s.to_string()),
            call_id: call_id.map(|s| s.to_string()),
            action: LocalShellAction { value, text: None },
        }
    };
    let expected = |id: &str, input: Json| {
        Ok(Some(blocks(
            "assistant",
            vec![ContentBlockParam::ToolUse {
                id: id.to_string(),
                name: "shell".to_string(),
                input,
            }],
        )))
    };
    assert_eq!(
        convert_item(&shell(Some("c"), Some("i"), Some(Json::Bool(false)))),
        expected("c", Json::Bool(false))
    );
    assert_eq!(
        convert_item(&shell(None, Some("i"), None)),
        expected("i", Json::Null)
    );
    assert_eq!(convert_item(&shell(None, None, None)), expected("", Json::Null));
}

#[test]
fn a_result_carries_the_id_of_its_tool_use() {
    let custom = vec![
        ResponseItem::CustomToolCall {
            id: None,
            call_id: "c1".to_string(),
            name: "n".to_string(),
            input: "{}".to_string(),
        },
        ResponseItem::CustomToolCallOutput {
            call_id: "c1".to_string(),
            output: text_output("ok"),
        },
    ];
    assert_eq!(
        build_messages(&custom),
        Ok(vec![
            blocks(
                "assistant",
                vec![ContentBlockParam::ToolUse {
                    id: "c1".to_string(),
                    name: "n".to_string(),
                    input: Json::Object(vec![]),
                }]
            ),
            blocks("user", vec![result_block("c1", "ok")]),
        ])
    );
    let shell = vec![
        ResponseItem::LocalShellCall {
            id: Some("item".to_string()),
            call_id: Some("c2".to_string()),
            action: LocalShellAction {
                value: Some(Json::Null),
                text: None,
            },
        },
        ResponseItem::FunctionCallOutput {
            call_id: "c2".to_string(),
            output: text_output("done"),
        },
    ];
    assert_eq!(
        build_messages(&shell),
        Ok(vec![
            blocks(
                "assistant",
                vec![ContentBlockParam::ToolUse {
                    id: "c2".to_string(),
                    name: "shell".to_string(),
                    input: Json::Null,
                }]
            ),
            blocks("user", vec![result_block("c2", "done")]),
        ])
    );
}

#[test]
fn other_items_are_left_out() {
    for item in [
        ResponseItem::GhostSnapshot,
        ResponseItem::WebSearchCall,
        ResponseItem::ToolSearchCall,
        ResponseItem::ToolSearchOutput,
        ResponseItem::ImageGenerationCall,
        ResponseItem::Compaction,
        ResponseItem::Other,
        ResponseItem::Reasoning {
            id: String::new(),
            summary: vec![],
            content: None,
            encrypted_content: None,
        },
    ] {
        assert_eq!(convert_item(&item), Ok(None));
    }
}

#[test]
fn a_conversation_becomes_alternating_messages() {
    let items = vec![
        message("system", vec![input_text("ignored")]),
        message("user", vec![input_text("hi")]),
        call("a", "{}", "c1"),
        call("b", "{}", "c2"),
        ResponseItem::FunctionCallOutput {
            call_id: "c1".to_string(),
            output: text_output("r1"),
        },
        ResponseItem::FunctionCallOutput {
            call_id: "c2".to_string(),
            output: text_output("r2"),
        },
    ];
    let use_block = |id: &str, name: &str| ContentBlockParam::ToolUse {
        id: id.to_string(),
        name: name.to_string(),
        input: Json::Object(vec![]),
    };
    assert_eq!(
        build_messages(&items),
        Ok(vec![
            text_message("user", "hi"),
            blocks(
                "assistant",
                vec![use_block("c1", "a"), use_block("c2", "b")]
            ),
            blocks(
                "user",
                vec![result_block("c1", "r1"), result_block("c2", "r2")]
            ),
        ])
    );
}

#[test]
fn blank_text_beside_an_image_is_stripped() {
    let items = vec![message(
        "user",
        vec![
            input_text(" "),
            ContentItem::InputImage {
                image_url: "u".to_string(),
            },
        ],
    )];
    assert_eq!(
        build_messages(&items),
        Ok(vec![blocks("user", vec![text_block("[Image: u]")])])
    );
}

#[test]
fn the_first_unreadable_call_is_complained_about() {
    let items = vec![
        call("good", "{}", "c0"),
        call("first", "", "c1"),
        call("second", "}", "c2"),
    ];
    match build_messages(&items) {
        Err(CodexErr::UnsupportedOperation(m)) => {
            assert!(m.starts_with("Invalid JSON in tool arguments for `first`: "));
        }
        other => panic!("unexpected {other:?}"),
    }
}

#[test]
fn a_request_holds_the_prompt() {
    let tools = vec![
        ToolSpec::LocalShell,
        ToolSpec::Function(ResponsesApiTool {
            name: "f".to_string(),
            description: "does f".to_string(),
            parameters: Ok(Json::Object(vec![])),
        }),
    ];
    let p = prompt(vec![message("user", vec![input_text("hi")])], tools);
    let request = build_messages_request(&p, "model-1").unwrap();
    assert_eq!(request.model, "model-1");
    assert_eq!(request.max_tokens, 8192);
    assert_eq!(request.messages, vec![text_message("user", "hi")]);
    assert_eq!(request.system, Some("Be brief."));
    assert_eq!(request.tools.as_ref().map(|t| t.len()), Some(1));
    assert_eq!(request.tool_choice, None);
    assert!(request.stream);
}

#[test]
fn a_request_without_tools_names_none() {
    let p = prompt(vec![], vec![ToolSpec::WebSearch]);
    let request = build_messages_request(&p, "m").unwrap();
    assert_eq!(request.tools, None);
    assert!(request.messages.is_empty());
}

#[test]
fn an_output_schema_is_refused() {
    let mut p = prompt(vec![], vec![]);
    p.output_schema = Some(Json::Object(vec![]));
    match build_messages_request(&p, "m") {
        Err(e) => assert_eq!(
            e,
            CodexErr::UnsupportedOperation(
                "output_schema is not supported for Anthropic Messages API".to_string()
            )
        ),
        Ok(_) => panic!("expected an error"),
    }
}

#[test]
fn a_tool_without_a_schema_fails_the_request() {
    let p = prompt(
        vec![],
        vec![ToolSpec::Function(ResponsesApiTool {
            name: "f".to_string(),
            description: String::new(),
            parameters: Err("no schema".to_string()),
        })],
    );
    match build_messages_request(&p, "m") {
        Err(e) => assert_eq!(e, CodexErr::Json("no schema".to_string())),
        Ok(_) => panic!("expected an error"),
    }
}
