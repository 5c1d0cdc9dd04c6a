use railway_rs::ai::chatml::{
    chat_request, complete_from, model_ids, next_start, prompt_budget, render_prompt, ChatMessage, DECISION_PROTOCOL,
};
use railway_rs::ai::frames::AiEvent;
use railway_rs::error::AppError;
use railway_rs::json::Json;
use railway_rs::json::read_json;

fn call(id: &str, name: &str, args: &str) -> railway_rs::json::Json {
    read_json(&format!(
        "{{\"id\":\"{id}\",\"type\":\"function\",\"function\":{{\"name\":\"{name}\",\"arguments\":{args}}}}}"
    ))
    .unwrap()
}

#[test]
fn turns_render_as_chatml() {
    let msgs = vec![
        ChatMessage::system("Be brief.".to_string()),
        ChatMessage::user("Where is 12951?".to_string()),
        ChatMessage::assistant("Checking.".to_string()),
    ];
    assert_eq!(
        render_prompt(&msgs, 0, None, false),
        "<|im_start|>system\nBe brief.<|im_end|>\n<|im_start|>user\nWhere is 12951?<|im_end|>\n<|im_start|>assistant\nChecking.<|im_end|>\n<|im_start|>assistant\n"
    );
}

#[test]
fn decision_prompts_carry_the_protocol_and_an_open_json_object() {
    let msgs = vec![ChatMessage::system("S".to_string())];
    let p = render_prompt(&msgs, 0, Some("AVAILABLE TOOLS:"), true);
    assert_eq!(
        p,
        format!("<|im_start|>system\nS\n\n{DECISION_PROTOCOL}\nAVAILABLE TOOLS:<|im_end|>\n<|im_start|>assistant\n{{\"")
    );
}

#[test]
fn tool_calls_and_results_are_flattened_with_the_tool_name() {
    let msgs = vec![
        ChatMessage::assistant_with_tool_calls(vec![
            call("c1", "live_status", "{\"train\":\"12951\"}"),
            call("c2", "pnr", "\"x\""),
        ]),
        ChatMessage::tool_result("c1".to_string(), "on time".to_string()),
        ChatMessage::tool_result("zz".to_string(), "?".to_string()),
    ];
    assert_eq!(
        render_prompt(&msgs, 0, None, false),
        "<|im_start|>assistant\n{\"tool\":\"live_status\",\"args\":{\"train\":\"12951\"}}\n{\"tool\":\"pnr\",\"args\":\"x\"}<|im_end|>\n<|im_start|>user\n[live_status RESULT]\non time<|im_end|>\n<|im_start|>user\n[data RESULT]\n?<|im_end|>\n<|im_start|>assistant\n"
    );
}

#[test]
fn history_starts_where_asked() {
    let msgs = vec![
        ChatMessage::user("one".to_string()),
        ChatMessage::user("two".to_string()),
    ];
    assert_eq!(render_prompt(&msgs, 1, None, false), "<|im_start|>user\ntwo<|im_end|>\n<|im_start|>assistant\n");
    assert_eq!(render_prompt(&msgs, 9, None, false), "<|im_start|>assistant\n");
}

#[test]
fn clamping_drops_the_oldest_turns_but_keeps_the_last() {
    let msgs = vec![
        ChatMessage::user("a".to_string()),
        ChatMessage::system("s".to_string()),
        ChatMessage::user("b".to_string()),
        ChatMessage::user("c".to_string()),
    ];
    assert_eq!(next_start(&msgs, 0, 900, 500), Some(2), "a system turn is skipped with it");
    assert_eq!(next_start(&msgs, 2, 900, 500), Some(3));
    assert_eq!(next_start(&msgs, 3, 900, 500), None, "the last turn stays");
    assert_eq!(next_start(&msgs, 0, 400, 500), None, "a prompt that fits stays whole");
    assert_eq!(prompt_budget(4096, 512), 4096 - 512 - 96);
    assert_eq!(prompt_budget(512, 512), 256);
}

fn members(j: &Json) -> Vec<(String, String)> {
    match j {
        Json::Object(fs) => fs
            .iter()
            .map(|(k, v)| {
                let shown = match v {
                    Json::Str(t) => format!("s:{t}"),
                    Json::Bool(b) => format!("b:{b}"),
                    Json::Array(a) => format!("a:{}", a.len()),
                    _ => "other".to_string(),
                };
                (k.clone(), shown)
            })
            .collect(),
        _ => panic!("not an object"),
    }
}

#[test]
fn message_json_keeps_optional_fields_in_order() {
    let plain = ChatMessage::user("hi".to_string()).into_json();
    assert_eq!(
        members(&plain),
        vec![("role".to_string(), "s:user".to_string()), ("content".to_string(), "s:hi".to_string())]
    );
    let tool = ChatMessage::tool_result("c1".to_string(), "{}".to_string()).into_json();
    assert_eq!(
        members(&tool),
        vec![
            ("role".to_string(), "s:tool".to_string()),
            ("content".to_string(), "s:{}".to_string()),
            ("tool_call_id".to_string(), "s:c1".to_string()),
        ]
    );
    let asked = ChatMessage::assistant_with_tool_calls(vec![call("c1", "pnr_status", "{}")]).into_json();
    let m = members(&asked);
    assert_eq!(m.len(), 3);
    assert_eq!(m[2], ("tool_calls".to_string(), "a:1".to_string()));
}

#[test]
fn model_ids_read_from_data() {
    let v = read_json(r#"{"data":[{"id":"gpt-a"},{"name":"x"},{"id":"gpt-b"}]}"#).unwrap();
    assert_eq!(model_ids(&v), vec!["gpt-a".to_string(), "gpt-b".to_string()]);
    let none = read_json(r#"{"models":[]}"#).unwrap();
    assert!(model_ids(&none).is_empty());
}

#[test]
fn completion_joins_deltas_and_takes_usage() {
    let evs = vec![
        AiEvent::Reasoning("think".to_string()),
        AiEvent::Delta("Hello".to_string()),
        AiEvent::Delta(", world".to_string()),
        AiEvent::Done { prompt_tokens: 12, completion_tokens: 3 },
    ];
    let (t, p, c) = complete_from(&evs, "ai", "empty").unwrap();
    assert_eq!(t, "Hello, world");
    assert_eq!((p, c), (12, 3));
}

#[test]
fn blank_completion_fails_the_source() {
    let evs = vec![AiEvent::Delta("  ".to_string()), AiEvent::Done { prompt_tokens: 1, completion_tokens: 0 }];
    match complete_from(&evs, "ai", "empty answer") {
        Err(AppError::SourceUnavailable { source, reason }) => {
            assert_eq!(source, "ai");
            assert_eq!(reason, "empty answer");
        }
        _ => panic!("expected a source failure"),
    }
}

#[test]
fn chat_request_lists_tools_only_when_offered() {
    let msgs = vec![ChatMessage::system("s".to_string()), ChatMessage::user("u".to_string())];
    let bare = chat_request("m1", msgs, vec![]);
    assert_eq!(
        members(&bare),
        vec![
            ("model".to_string(), "s:m1".to_string()),
            ("messages".to_string(), "a:2".to_string()),
            ("stream".to_string(), "b:true".to_string()),
        ]
    );
    let msgs = vec![ChatMessage::user("u".to_string())];
    let with = chat_request("m1", msgs, vec![Json::Null]);
    assert_eq!(members(&with)[3], ("tools".to_string(), "a:1".to_string()));
}
