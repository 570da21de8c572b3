//! Requests to Nemotron, and the model that they go to.

use codex_core::error::CodexErr;
use codex_core::json::Json;
use codex_core::models::{
    BaseInstructions, ContentItem, FunctionCallOutputContentItem, FunctionCallOutputPayload,
    LocalShellAction, Prompt, ResponseItem,
};
use codex_core::nemotron::{
    build_chat_messages, build_chat_request, check_prompt, convert_item, initial_thinking_budget,
    is_auto_slug, is_full_id, pick_best_model, plan_chat, request_timeout_secs,
    resolve_nemotron_model, ModelsReply,
};
use codex_core::nemotron_types::{
    ChatMessage, ChatTemplateKwargs, FunctionCall, ModelEntry, ModelListResponse, StreamOptions,
    ToolCallMessage,
};
use codex_core::tools::spec::{ResponsesApiTool, ToolSpec};

fn list(ids: &[&str]) -> ModelsReply {
    ModelsReply::List(ModelListResponse {
        data: ids
            .iter()
            .map(|id| ModelEntry { id: id.to_string() })
            .collect(),
    })
}

fn unsupported(message: &str) -> CodexErr {
    CodexErr::UnsupportedOperation(message.to_string())
}

fn text_message(role: &str, content: &str) -> ChatMessage {
    ChatMessage {
        role: role.to_string(),
        content: Some(content.to_string()),
        tool_calls: None,
        tool_call_id: None,
    }
}

fn call_message(id: &str, name: &str, arguments: &str) -> ChatMessage {
    ChatMessage {
        role: "assistant".to_string(),
        content: None,
        tool_calls: Some(vec![ToolCallMessage {
            id: id.to_string(),
            kind: "function".to_string(),
            function: FunctionCall {
                name: name.to_string(),
                arguments: arguments.to_string(),
            },
        }]),
        tool_call_id: None,
    }
}

fn result_message(call_id: &str, content: &str) -> ChatMessage {
    ChatMessage {
        role: "tool".to_string(),
        content: Some(content.to_string()),
        tool_calls: None,
        tool_call_id: Some(call_id.to_string()),
    }
}

fn message(role: &str, content: Vec<ContentItem>) -> ResponseItem {
    ResponseItem::Message {
        id: None,
        role: role.to_string(),
        content,
        end_turn: None,
        phase: None,
    }
}

fn input_text(text: &str) -> ContentItem {
    ContentItem::InputText {
        text: text.to_string(),
    }
}

fn prompt(input: Vec<ResponseItem>, tools: Vec<ToolSpec>) -> Prompt {
    Prompt {
        base_instructions: BaseInstructions {
            text: "Be brief.".to_string(),
        },
        input,
        tools,
        output_schema: None,
    }
}

#[test]
fn test_pick_best_model_exact_match() {
    let models = vec![
        "nvidia/NVIDIA-Nemotron-3-Nano-30B-A3B-BF16",
        "nvidia/NVIDIA-Nemotron-3-Nano-30B-A3B-NVFP4",
    ];
    assert_eq!(
        pick_best_model("nvidia/NVIDIA-Nemotron-3-Nano-30B-A3B-BF16", &models),
        Some("nvidia/NVIDIA-Nemotron-3-Nano-30B-A3B-BF16")
    );
}

#[test]
fn test_pick_best_model_substring() {
    let models = vec![
        "nvidia/NVIDIA-Nemotron-3-Nano-30B-A3B-BF16",
        "nvidia/NVIDIA-Nemotron-3-Nano-30B-A3B-NVFP4",
        "nemotron-2025-Q4",
    ];
    // Partial slug should match all two NVIDIA models; shortest wins.
    assert_eq!(
        pick_best_model("nvidia/NVIDIA-Nemotron-3-Nano", &models),
        Some("nvidia/NVIDIA-Nemotron-3-Nano-30B-A3B-BF16")
    );
}

#[test]
fn test_pick_best_model_case_insensitive() {
    let models = vec!["nvidia/NVIDIA-Nemotron-3-Nano-30B-A3B-BF16"];
    assert_eq!(
        pick_best_model("nemotron-3-nano", &models),
        Some("nvidia/NVIDIA-Nemotron-3-Nano-30B-A3B-BF16")
    );
}

#[test]
fn test_pick_best_model_no_match() {
    let models = vec!["nvidia/NVIDIA-Nemotron-3-Nano-30B-A3B-BF16"];
    assert_eq!(pick_best_model("llama-3", &models), None);
}

#[test]
fn test_pick_best_model_prefers_shortest() {
    let models = vec![
        "nemotron-2026-Q1-preview-extra-long-name",
        "nemotron-2026-Q1",
    ];
    assert_eq!(
        pick_best_model("nemotron-2026", &models),
        Some("nemotron-2026-Q1")
    );
}

#[test]
fn the_first_of_the_shortest_matches_is_picked() {
    assert_eq!(pick_best_model("a", &["xab", "abx", "abcx"]), Some("xab"));
    assert_eq!(pick_best_model("", &["long", "x"]), Some("x"));
    assert_eq!(pick_best_model("", &[]), None);
    // An exact match goes before a shorter one, and its case counts.
    assert_eq!(pick_best_model("ABC", &["xabc", "ABC"]), Some("ABC"));
    assert_eq!(pick_best_model("abc", &["xABC", "abcde"]), Some("xABC"));
    // Lengths are in bytes, and only ASCII letters lose their case.
    assert_eq!(pick_best_model("m", &["m\u{20ac}", "m12"]), Some("m12"));
    assert_eq!(pick_best_model("\u{c9}", &["\u{e9}"]), None);
}

#[test]
fn auto_and_star_ask_for_any_model() {
    for slug in ["auto", "AUTO", "Auto", "*"] {
        assert!(is_auto_slug(slug));
        assert_eq!(
            resolve_nemotron_model(slug, &list(&["first", "auto"])),
            Ok("first".to_string())
        );
        assert!(!is_full_id(slug));
    }
    for slug in ["", "automatic", "aut", "**", "xauto"] {
        assert!(!is_auto_slug(slug));
    }
}

#[test]
fn a_long_segment_behind_a_slash_passes_for_a_full_id() {
    assert!(is_full_id("nvidia/NVIDIA-Nemotron-3-Nano-30B-A3B-BF16"));
    assert!(is_full_id("a/123456789012345678901"));
    assert!(!is_full_id("a/12345678901234567890"));
    assert!(!is_full_id("123456789012345678901234"));
    assert!(!is_full_id("a-long-organisation-name/b"));
    assert!(!is_full_id("a/b/"));
    // The segment is measured in bytes.
    assert!(is_full_id(
        "a/\u{20ac}\u{20ac}\u{20ac}\u{20ac}\u{20ac}\u{20ac}\u{20ac}"
    ));
}

#[test]
fn a_slug_that_passes_for_a_full_id_is_looked_up() {
    let slug = "nvidia/NVIDIA-Nemotron-3-Nano";
    let served = "nvidia/NVIDIA-Nemotron-3-Nano-30B-A3B-BF16";
    assert!(is_full_id(slug));
    assert_eq!(
        resolve_nemotron_model(slug, &list(&[served])),
        Ok(served.to_string())
    );
    assert_eq!(
        resolve_nemotron_model(slug, &list(&[served, slug])),
        Ok(slug.to_string())
    );
    assert_eq!(
        resolve_nemotron_model(slug, &list(&["other"])),
        Err(unsupported(
            "Model 'nvidia/NVIDIA-Nemotron-3-Nano' not found. Available models: other"
        ))
    );
}

#[test]
fn a_full_id_is_used_as_it_is_where_there_is_no_list() {
    let slug = "nvidia/NVIDIA-Nemotron-3-Nano-30B-A3B-BF16";
    for reply in [
        ModelsReply::Failed {
            url: "http://x/models".to_string(),
            message: "refused".to_string(),
        },
        ModelsReply::Unreadable {
            message: "eof".to_string(),
        },
        ModelsReply::Refused {
            status_text: "404 Not Found".to_string(),
        },
    ] {
        assert_eq!(resolve_nemotron_model(slug, &reply), Ok(slug.to_string()));
    }
}

#[test]
fn a_slug_is_resolved_to_its_best_match() {
    let models = list(&["org/Nemotron-Nano-30B", "org/Nemotron-Nano", "other"]);
    assert_eq!(
        resolve_nemotron_model("nemotron", &models),
        Ok("org/Nemotron-Nano".to_string())
    );
    assert_eq!(
        resolve_nemotron_model("other", &models),
        Ok("other".to_string())
    );
    assert_eq!(
        resolve_nemotron_model("llama", &models),
        Err(unsupported(
            "Model 'llama' not found. Available models: org/Nemotron-Nano-30B, org/Nemotron-Nano, other"
        ))
    );
}

#[test]
fn each_failure_to_resolve_says_why() {
    assert_eq!(
        resolve_nemotron_model("auto", &list(&[])),
        Err(unsupported("No models available on the vLLM endpoint"))
    );
    assert_eq!(
        resolve_nemotron_model("m", &list(&[])),
        Err(unsupported("No models available on the vLLM endpoint"))
    );
    assert_eq!(
        resolve_nemotron_model(
            "m",
            &ModelsReply::Failed {
                url: "http://x/models".to_string(),
                message: "refused".to_string()
            }
        ),
        Err(unsupported("Failed to query http://x/models: refused"))
    );
    assert_eq!(
        resolve_nemotron_model(
            "m",
            &ModelsReply::Unreadable {
                message: "eof".to_string()
            }
        ),
        Err(unsupported("Failed to parse /v1/models response: eof"))
    );
    let refused = ModelsReply::Refused {
        status_text: "404 Not Found".to_string(),
    };
    assert_eq!(
        resolve_nemotron_model("*", &refused),
        Err(unsupported(
            "Cannot auto-detect model: /v1/models returned 404 Not Found"
        ))
    );
    assert_eq!(resolve_nemotron_model("m", &refused), Ok("m".to_string()));
}

#[test]
fn messages_go_out_as_one_text() {
    let content = || {
        vec![
            input_text("a"),
            ContentItem::InputImage {
                image_url: "u".to_string(),
            },
            ContentItem::OutputText {
                text: "b".to_string(),
            },
        ]
    };
    assert_eq!(
        convert_item(&message("assistant", content())),
        Some(text_message("assistant", "aub"))
    );
    assert_eq!(
        convert_item(&message("developer", content())),
        Some(text_message("user", "aub"))
    );
    assert_eq!(convert_item(&message("system", content())), None);
    assert_eq!(convert_item(&message("user", vec![input_text("\n")])), None);
}

#[test]
fn calls_and_results_keep_their_ids() {
    assert_eq!(
        convert_item(&ResponseItem::FunctionCall {
            id: Some("ignored".to_string()),
            name: "f".to_string(),
            namespace: None,
            arguments: "not json".to_string(),
            call_id: "c".to_string(),
        }),
        Some(call_message("c", "f", "not json"))
    );
    assert_eq!(
        convert_item(&ResponseItem::FunctionCallOutput {
            call_id: "c".to_string(),
            output: FunctionCallOutputPayload {
                content_items: Some(vec![
                    FunctionCallOutputContentItem::InputImage {
                        image_url: "u".to_string()
                    },
                    FunctionCallOutputContentItem::InputText {
                        text: "t".to_string()
                    },
                ]),
                text_content: None,
            },
        }),
        Some(result_message("c", "[Image: u]\nt"))
    );
    assert_eq!(
        convert_item(&ResponseItem::CustomToolCall {
            id: None,
            call_id: "d".to_string(),
            name: "p".to_string(),
            input: "raw".to_string(),
        }),
        Some(call_message("", "p", "raw"))
    );
    assert_eq!(
        convert_item(&ResponseItem::CustomToolCall {
            id: Some("i".to_string()),
            call_id: "d".to_string(),
            name: "p".to_string(),
            input: "raw".to_string(),
        }),
        Some(call_message("i", "p", "raw"))
    );
    assert_eq!(
        convert_item(&ResponseItem::CustomToolCallOutput {
            call_id: "d".to_string(),
            output: FunctionCallOutputPayload {
                content_items: Some(vec![]),
                text_content: Some("t".to_string()),
            },
        }),
        Some(result_message("d", "t"))
    );
}

#[test]
fn a_shell_action_goes_out_as_text() {
    let shell = |id: Option<&str>, text: Option<&str>| ResponseItem::LocalShellCall {
        id: id.map(|i| i.to_string()),
        call_id: Some("c".to_string()),
        action: LocalShellAction {
            value: None,
            text: text.map(|t| t.to_string()),
        },
    };
    assert_eq!(
        convert_item(&shell(Some("s"), Some("{\"command\":[]}"))),
        Some(call_message("s", "shell", "{\"command\":[]}"))
    );
    assert_eq!(
        convert_item(&shell(None, None)),
        Some(call_message("", "shell", "{}"))
    );
}

#[test]
fn a_result_carries_the_id_of_its_call() {
    let output = || FunctionCallOutputPayload {
        content_items: None,
        text_content: Some("ok".to_string()),
    };
    let items = vec![
        ResponseItem::FunctionCall {
            id: Some("item".to_string()),
            name: "f".to_string(),
            namespace: None,
            arguments: "{}".to_string(),
            call_id: "c1".to_string(),
        },
        ResponseItem::FunctionCallOutput {
            call_id: "c1".to_string(),
            output: output(),
        },
        ResponseItem::CustomToolCall {
            id: Some("c2".to_string()),
            call_id: "c2".to_string(),
            name: "n".to_string(),
            input: "{}".to_string(),
        },
        ResponseItem::CustomToolCallOutput {
            call_id: "c2".to_string(),
            output: output(),
        },
    ];
    assert_eq!(
        build_chat_messages(&String::new(), &items),
        vec![
            text_message("system", ""),
            call_message("c1", "f", "{}"),
            result_message("c1", "ok"),
            call_message("c2", "n", "{}"),
            result_message("c2", "ok"),
        ]
    );
}

#[test]
fn items_without_a_message_are_left_out() {
    for item in [
        ResponseItem::GhostSnapshot,
        ResponseItem::WebSearchCall,
        ResponseItem::ToolSearchCall,
        ResponseItem::ToolSearchOutput,
        ResponseItem::ImageGenerationCall,
        ResponseItem::Compaction,
        ResponseItem::Other,
        ResponseItem::Reasoning {
            id: String::new(),
            summary: vec![],
            content: Some(vec!["why".to_string()]),
            encrypted_content: None,
        },
    ] {
        assert_eq!(convert_item(&item), None);
    }
}

#[test]
fn the_instructions_stand_first() {
    let items = vec![
        message("system", vec![input_text("other instructions")]),
        message("user", vec![input_text("hi")]),
        ResponseItem::Other,
        message("assistant", vec![input_text("yes?")]),
    ];
    assert_eq!(
        build_chat_messages(&"Be brief.".to_string(), &items),
        vec![
            text_message("system", "Be brief."),
            text_message("user", "hi"),
            text_message("assistant", "yes?"),
        ]
    );
}

#[test]
fn a_chat_request_holds_the_plan() {
    let p = prompt(
        vec![message("user", vec![input_text("hi")])],
        vec![ToolSpec::Function(ResponsesApiTool {
            name: "f".to_string(),
            description: "does f".to_string(),
            parameters: Ok(Json::Object(vec![])),
        })],
    );
    let plan = plan_chat(&p).unwrap();
    let request = build_chat_request("m", &plan, 2048);
    assert_eq!(request.model, "m");
    assert_eq!(
        *request.messages,
        vec![
            text_message("system", "Be brief."),
            text_message("user", "hi")
        ]
    );
    assert_eq!(request.max_tokens, Some(32768));
    assert_eq!(request.tools.map(|t| t.len()), Some(1));
    assert_eq!(request.tool_choice, Some("auto"));
    assert_eq!(
        request.chat_template_kwargs,
        Some(ChatTemplateKwargs {
            thinking_budget: 2048
        })
    );
    assert!(request.stream);
    assert_eq!(
        request.stream_options,
        Some(StreamOptions {
            include_usage: true
        })
    );
}

#[test]
fn without_tools_there_is_no_choice() {
    let plan = plan_chat(&prompt(vec![], vec![ToolSpec::Freeform])).unwrap();
    assert_eq!(plan.tools, None);
    let request = build_chat_request("m", &plan, 1024);
    assert_eq!(request.tools, None);
    assert_eq!(request.tool_choice, None);
}

#[test]
fn a_tool_without_a_schema_fails_the_plan() {
    let p = prompt(
        vec![],
        vec![ToolSpec::Function(ResponsesApiTool {
            name: "f".to_string(),
            description: String::new(),
            parameters: Err("no schema".to_string()),
        })],
    );
    assert_eq!(plan_chat(&p), Err(CodexErr::Json("no schema".to_string())));
}

#[test]
fn a_schema_for_the_answer_is_refused() {
    let mut p = prompt(vec![], vec![]);
    assert_eq!(check_prompt(&p), Ok(()));
    p.output_schema = Some(Json::Null);
    assert_eq!(
        check_prompt(&p),
        Err(unsupported(
            "output_schema is not supported for Nemotron Chat Completions API"
        ))
    );
}

#[test]
fn the_first_budget_has_a_floor() {
    assert_eq!(initial_thinking_budget(None), 4096);
    assert_eq!(initial_thinking_budget(Some("8192")), 8192);
    assert_eq!(initial_thinking_budget(Some("1023")), 1024);
    assert_eq!(initial_thinking_budget(Some("0")), 1024);
    assert_eq!(initial_thinking_budget(Some("many")), 4096);
    assert_eq!(initial_thinking_budget(Some("4294967295")), u32::MAX);
    assert_eq!(initial_thinking_budget(Some("4294967296")), 4096);
    assert_eq!(initial_thinking_budget(Some("-1")), 4096);
}

#[test]
fn the_timeout_can_be_set() {
    assert_eq!(request_timeout_secs(None), 120);
    assert_eq!(request_timeout_secs(Some("5")), 5);
    assert_eq!(request_timeout_secs(Some("0")), 0);
    assert_eq!(request_timeout_secs(Some("5s")), 120);
    assert_eq!(request_timeout_secs(Some("")), 120);
}
