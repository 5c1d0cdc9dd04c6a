use railway_rs::ai::frames::AiEvent;
use railway_rs::ai::local::{
    after_first_reply, after_second_reply, call_events, compact_manifest, find_tool, marker_hold_len, read_decision,
    settle_call, stream_cut, stream_tail, tool_name, Decision, Draft, RetryPlan, StreamCut,
};
use railway_rs::json::{get, read_json, Json};

fn envelope(name: &str, props: &[(&str, &str)], required: &[&str]) -> Json {
    let properties: Vec<String> = props.iter().map(|(k, ty)| format!("\"{k}\":{{\"type\":\"{ty}\"}}")).collect();
    let required: Vec<String> = required.iter().map(|r| format!("\"{r}\"")).collect();
    let text = format!(
        "{{\"type\":\"function\",\"function\":{{\"name\":\"{name}\",\"description\":\"{name} tool.\",\"parameters\":{{\"type\":\"object\",\"properties\":{{{}}},\"required\":[{}]}}}}}}",
        properties.join(","),
        required.join(",")
    );
    read_json(&text).expect("envelope parses")
}

fn picked(d: Draft) -> (usize, Json) {
    match d {
        Draft::Pick { tool, doc } => (tool, doc),
        Draft::Settled(_) => panic!("expected a picked tool"),
    }
}

fn text_of(v: Option<&Json>) -> Option<String> {
    match v {
        Some(Json::Str(s)) => Some(s.clone()),
        _ => None,
    }
}

#[test]
fn answer_shape_and_none_tool_map_to_answer() {
    assert!(matches!(read_decision(r#"{"answer":true}"#, &[]), Draft::Settled(Decision::Answer)));
    assert!(matches!(read_decision(r#"{"tool":"none"}"#, &[]), Draft::Settled(Decision::Answer)));
    assert!(matches!(read_decision("no json at all", &[]), Draft::Settled(Decision::Invalid(_))));
}

#[test]
fn compact_manifest_lists_params_with_required_markers() {
    let tools = vec![
        envelope("live_status", &[("train", "string")], &["train"]),
        envelope("search_rail", &[("q", "string"), ("limit", "integer")], &["q"]),
    ];
    let m = compact_manifest(&tools);
    assert!(m.contains("- live_status(train):"));
    // Param order follows serde_json's map; check markers only.
    let sr = m.split('\n').find(|l| l.starts_with("- search_rail")).unwrap();
    assert!(sr.starts_with("- search_rail("));
    assert!(sr.contains("[limit]"), "optional param marked: {sr}");
    assert!(!sr.contains("[q]") && sr.contains('q'), "required param unmarked: {sr}");
}

#[test]
fn manifest_has_heading_and_first_sentence_of_each_description() {
    let doc = read_json(
        r#"[{"function":{"name":"pnr","description":"  Look up a PNR. Ten digits.","parameters":{"properties":{"pnr":{}},"required":["pnr"]}}},
            {"function":{"name":"ping"}}]"#,
    )
    .unwrap();
    let tools = match doc {
        Json::Array(a) => a,
        _ => panic!("array"),
    };
    assert_eq!(compact_manifest(&tools), "AVAILABLE TOOLS:\n- pnr(pnr): Look up a PNR\n- ping(): ");
    assert_eq!(compact_manifest(&[]), "AVAILABLE TOOLS:");
}

#[test]
fn clean_tool_call_picks_the_named_tool_and_keeps_its_args() {
    let tools = vec![envelope("trains_between", &[("src", "string"), ("dst", "string")], &["src", "dst"])];
    let (tool, doc) = picked(read_decision(r#"xx {"tool":"trains_between","args":{"src":"NDLS","dst":"PNBE"}} yy"#, &tools));
    assert_eq!(tool, 0);
    assert_eq!(tool_name(&tools[tool]), Some("trains_between"));
    let args = get(Some(&doc), "args");
    assert_eq!(text_of(get(args, "src")).as_deref(), Some("NDLS"));
    assert_eq!(text_of(get(args, "dst")).as_deref(), Some("PNBE"));
}

#[test]
fn misspelt_tool_name_is_matched_by_edit_distance() {
    let tools = vec![
        envelope("live_status", &[("train", "string")], &["train"]),
        envelope("station_board", &[("train", "string"), ("hours", "integer")], &["train"]),
    ];
    let (tool, _) = picked(read_decision(r#"{"tool":"sttion_board","args":{"train":"12951"}}"#, &tools));
    assert_eq!(tool, 1);
    assert_eq!(find_tool(&tools, "STATION_BOARD"), Some(1));
    assert_eq!(find_tool(&tools, "Live_Status"), Some(0));
    assert_eq!(find_tool(&tools, "weather"), None);
}

#[test]
fn a_nameless_tool_before_the_match_ends_the_search() {
    let nameless = read_json(r#"{"function":{}}"#).unwrap();
    let tools = vec![nameless, envelope("live_status", &[], &[])];
    assert_eq!(find_tool(&tools, "live_status"), None);
    let tools = vec![envelope("live_status", &[], &[]), read_json("{}").unwrap()];
    assert_eq!(find_tool(&tools, "live_status"), Some(0));
}

#[test]
fn unusable_replies_say_why() {
    let tools = vec![envelope("live_status", &[], &[])];
    let reason = |raw: &str| match read_decision(raw, &tools) {
        Draft::Settled(Decision::Invalid(m)) => m,
        _ => panic!("expected an invalid reply for {raw}"),
    };
    assert_eq!(reason("} nothing {"), "malformed JSON");
    assert_eq!(reason("{ open"), "JSON object not closed");
    assert_eq!(reason(r#"{"args":{}}"#), "missing 'tool' key");
    assert_eq!(reason(r#"{"tool":"weather"}"#), "unknown tool 'weather'");
    assert!(reason("{not json}").starts_with("unparsable JSON: "));
}

#[test]
fn missing_arguments_refuse_the_call() {
    match settle_call("trains_between", None) {
        Decision::Invalid(m) => assert_eq!(m, "bad args for tool 'trains_between'"),
        _ => panic!("expected Invalid"),
    }
    match settle_call("trains_between", Some("{\"src\":\"NDLS\"}".to_string())) {
        Decision::Call(n, a) => {
            assert_eq!(n, "trains_between");
            assert_eq!(a, "{\"src\":\"NDLS\"}");
        },
        _ => panic!("expected Call"),
    }
}

#[test]
fn an_invalid_first_reply_is_retried_once_then_answered() {
    match after_first_reply(Decision::Invalid("no JSON object found".to_string())) {
        RetryPlan::Retry(c) => assert_eq!(
            c,
            "[CHECK] Your previous reply was invalid (no JSON object found). Reply again with exactly one JSON line: {\"tool\":\"NAME\",\"args\":{...}} or {\"answer\":true} - nothing else."
        ),
        RetryPlan::Accept(_) => panic!("expected a retry"),
    }
    assert!(matches!(after_first_reply(Decision::Answer), RetryPlan::Accept(Decision::Answer)));
    assert!(matches!(after_second_reply(Decision::Invalid("x".to_string())), Decision::Answer));
    assert!(matches!(after_second_reply(Decision::Call("a".into(), "{}".into())), Decision::Call(_, _)));
}

#[test]
fn a_decided_call_is_one_event_then_done() {
    let evs = call_events("pnr".to_string(), "{}".to_string());
    assert_eq!(evs.len(), 2);
    match &evs[0] {
        AiEvent::ToolCalls(c) => {
            assert_eq!(c.len(), 1);
            assert_eq!(c[0].id, "call_0");
            assert_eq!(c[0].name, "pnr");
            assert_eq!(c[0].arguments, "{}");
        },
        _ => panic!("expected tool calls"),
    }
    assert_eq!(evs[1], AiEvent::Done { prompt_tokens: 0, completion_tokens: 0 });
}

#[test]
fn marker_prefixes_at_the_end_are_held_back() {
    assert_eq!(marker_hold_len("Hello <|im", "<|im_end|>"), 4);
    assert_eq!(marker_hold_len("Hello <", "<|im_end|>"), 1);
    assert_eq!(marker_hold_len("Hello", "<|im_end|>"), 0);
    // A whole marker is not a proper prefix.
    assert_eq!(marker_hold_len("<|im_end|>", "<|im_end|>"), 0);
    assert_eq!(marker_hold_len("", "<|im_end|>"), 0);
}

#[test]
fn streaming_sends_only_what_cannot_become_a_marker() {
    match stream_cut("Hello <|end", 0) {
        StreamCut::Emit { delta, sent_chars } => {
            assert_eq!(delta, "Hello ");
            assert_eq!(sent_chars, 6);
        },
        _ => panic!("expected an emit"),
    }
    assert!(matches!(stream_cut("Hello <|end", 6), StreamCut::Hold));
    assert!(matches!(stream_cut("Hello<|im_end|>", 0), StreamCut::Stop));
    assert!(matches!(stream_cut("x<|im_start|>", 0), StreamCut::Stop));
    assert_eq!(stream_tail("Hello <|end", 6).as_deref(), Some("<|end"));
    assert_eq!(stream_tail("Hello", 5), None);
}
