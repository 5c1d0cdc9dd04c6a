use railway_rs::ai::frames::{decode_error_body, parse_data_frame, AiEvent, AssembledToolCall, Parsed};
use railway_rs::ai::sse::{find_frame_end, Frame, SseDecoder};
use railway_rs::ai::stream::{Step, StreamState, ToolAccum};
use railway_rs::error::AppError;

fn events_from(raw: &str) -> Vec<Result<AiEvent, AppError>> {
    let mut dec = SseDecoder::new();
    dec.feed(raw.as_bytes());
    let mut out = Vec::new();
    loop {
        match dec.pop_frame().unwrap() {
            Some(Frame::Done) => {
                out.push(Ok(AiEvent::Done { prompt_tokens: 0, completion_tokens: 0 }));
            }
            Some(Frame::Data(frame)) => match parse_data_frame(&frame) {
                Parsed::Empty => continue,
                Parsed::Error(e) => out.push(Err(e)),
                Parsed::Frames(evs, _) => out.extend(evs.into_iter().map(Ok)),
            },
            None => break,
        }
    }
    out
}

fn same(a: &[Result<AiEvent, AppError>], b: &[AiEvent]) -> bool {
    a.len() == b.len() && a.iter().zip(b.iter()).all(|(x, y)| matches!(x, Ok(e) if e == y))
}

/// Drive a stream state over byte chunks the way the relay does.
fn run_stream(chunks: &[&str]) -> Vec<Result<AiEvent, AppError>> {
    let mut st = StreamState::new();
    let mut out = Vec::new();
    let mut next = 0;
    loop {
        match st.step() {
            Step::Emit(x) => out.push(x),
            Step::Continue => {}
            Step::Finished => break,
            Step::NeedBytes => {
                if next < chunks.len() {
                    st.on_chunk(chunks[next].as_bytes());
                    next += 1;
                } else {
                    out.push(st.on_eof());
                }
            }
        }
    }
    out
}

#[test]
fn decodes_reasoning_then_content_chunks() {
    let raw = "data: {\"id\":\"1\",\"object\":\"chat.completion.chunk\",\"choices\":[{\"index\":0,\"delta\":{\"role\":\"assistant\",\"reasoning_content\":\"The\"}}]}\n\ndata: {\"id\":\"1\",\"choices\":[{\"index\":0,\"delta\":{\"reasoning_content\":\" user has\"}}]}\n\ndata: {\"id\":\"1\",\"choices\":[{\"index\":0,\"delta\":{\"content\":\"Hello\"}}]}\n\ndata: {\"id\":\"1\",\"choices\":[{\"index\":0,\"delta\":{\"content\":\" world\"}}]}\n\ndata: [DONE]\n\n";
    let evs = events_from(raw);
    assert!(same(
        &evs,
        &[
            AiEvent::Reasoning("The".into()),
            AiEvent::Reasoning(" user has".into()),
            AiEvent::Delta("Hello".into()),
            AiEvent::Delta(" world".into()),
            AiEvent::Done { prompt_tokens: 0, completion_tokens: 0 },
        ]
    ));
}

#[test]
fn handles_crlf_and_split_chunk_boundaries() {
    let full = "data: {\"choices\":[{\"delta\":{\"content\":\"AB\"}}]}\r\n\r\ndata: {\"choices\":[{\"delta\":{\"content\":\"CD\"}}]}\r\n\r\ndata: [DONE]\r\n\r\n";
    let (a, b) = full.split_at(full.len() - 30);
    let mut dec = SseDecoder::new();
    dec.feed(a.as_bytes());
    let mut count = 0;
    if let Some(Frame::Data(d)) = dec.pop_frame().unwrap() {
        assert!(d.contains("AB"));
        count += 1;
    }
    dec.feed(b.as_bytes());
    while let Some(f) = dec.pop_frame().unwrap() {
        match f {
            Frame::Done => {}
            Frame::Data(d) => assert!(d.contains("CD")),
        }
        count += 1;
    }
    assert_eq!(count, 3);
}

#[test]
fn usage_chunk_becomes_terminal_with_tokens() {
    let raw = "data: {\"choices\":[{\"delta\":{\"content\":\"hi\"}}]}\n\ndata: {\"choices\":[],\"usage\":{\"prompt_tokens\":92,\"completion_tokens\":10}}\n\ndata: [DONE]\n\n";
    let mut dec = SseDecoder::new();
    dec.feed(raw.as_bytes());
    let mut got = Vec::new();
    while let Some(Frame::Data(f)) = dec.pop_frame().unwrap() {
        match parse_data_frame(&f) {
            Parsed::Frames(evs, _) => got.extend(evs),
            Parsed::Empty => {}
            Parsed::Error(e) => panic!("unexpected error: {}", e.message()),
        }
    }
    assert_eq!(
        got,
        vec![AiEvent::Delta("hi".into()), AiEvent::Done { prompt_tokens: 92, completion_tokens: 10 }]
    );
}

#[test]
fn zen_error_frame_is_typed_source_unavailable() {
    let raw = "data: {\"type\":\"error\",\"error\":{\"type\":\"FreeUsageLimitError\",\"message\":\"Rate limit exceeded.\"}}\n\n";
    let evs = events_from(raw);
    match &evs[0] {
        Err(AppError::SourceUnavailable { source, reason }) => {
            assert_eq!(source, "zen");
            assert!(reason.contains("FreeUsageLimitError"), "{reason}");
            assert!(reason.contains("Rate limit exceeded."), "{reason}");
        }
        _ => panic!("expected source_unavailable"),
    }
}

#[test]
fn network_error_finish_reason_is_a_hard_stream_error() {
    let raw = "data: {\"choices\":[{\"index\":0,\"finish_reason\":\"network_error\",\"delta\":{\"role\":\"assistant\",\"content\":\"\"}}]}\n\ndata: [DONE]\n\n";
    let vals = run_stream(&[raw]);
    assert_eq!(vals.len(), 1, "stream must terminate on the failed frame");
    match &vals[0] {
        Err(AppError::SourceUnavailable { source, reason }) => {
            assert_eq!(source, "zen");
            assert!(reason.contains("network_error"), "{reason}");
        }
        _ => panic!("expected source_unavailable"),
    }
}

#[test]
fn unparsable_frames_are_skipped_not_fatal() {
    let raw = "data: not-json-at-all\n\n: keep-alive comment\n\ndata: {\"choices\":[{\"delta\":{\"content\":\"ok\"}}]}\n\ndata: [DONE]\n\n";
    let evs = events_from(raw);
    assert!(same(
        &evs,
        &[AiEvent::Delta("ok".into()), AiEvent::Done { prompt_tokens: 0, completion_tokens: 0 }]
    ));
}

#[test]
fn multiline_data_field_is_joined() {
    let raw = "data: {\"choices\":[\n data still same frame\n\ndata: {\"x\":1}\n\n";
    let mut dec = SseDecoder::new();
    dec.feed(raw.as_bytes());
    let mut parsed_ok = false;
    while let Some(f) = dec.pop_frame().unwrap() {
        if let Frame::Data(d) = f {
            if d.contains("\"x\":1") {
                parsed_ok = true;
            }
        }
    }
    assert!(parsed_ok);
}

#[test]
fn data_lines_of_one_block_join_with_newlines() {
    let mut dec = SseDecoder::new();
    dec.feed(b"event: x\ndata: one\ndata:two\n\n");
    match dec.pop_frame().unwrap() {
        Some(Frame::Data(d)) => assert_eq!(d, "one\ntwo"),
        _ => panic!("expected a data frame"),
    }
    assert!(dec.pop_frame().unwrap().is_none());
}

#[test]
fn flush_tail_handles_missing_done() {
    let mut dec = SseDecoder::new();
    dec.feed(b"data: {\"choices\":[{\"delta\":{\"content\":\"tail\"}}]}\n\n");
    assert!(dec.pop_frame().unwrap().is_some());
    dec.feed(b"data: {\"choices\":[{\"delta\":{\"content\":\"end\"}}]}");
    assert!(dec.pop_frame().unwrap().is_none());
    match dec.flush_tail().unwrap() {
        Some(Frame::Data(f)) => {
            assert!(matches!(parse_data_frame(&f), Parsed::Frames(..)));
        }
        _ => panic!("expected tail data frame"),
    }
}

#[test]
fn flush_tail_of_done_and_of_nothing() {
    let mut dec = SseDecoder::new();
    assert!(dec.flush_tail().unwrap().is_none());
    dec.feed(b"\r\n[DONE]\n");
    assert!(matches!(dec.flush_tail().unwrap(), Some(Frame::Done)));
    dec.feed(b"\n\r\n");
    assert!(dec.flush_tail().unwrap().is_none());
}

#[test]
fn decode_error_body_understands_both_shapes() {
    assert_eq!(
        decode_error_body("{\"type\":\"error\",\"error\":{\"type\":\"FreeUsageLimitError\",\"message\":\"Rate limit exceeded.\"}}").as_deref(),
        Some("FreeUsageLimitError: Rate limit exceeded.")
    );
    assert_eq!(decode_error_body("{\"error\":{\"message\":\"bad key\"}}").as_deref(), Some("bad key"));
    assert_eq!(decode_error_body("{\"type\":\"error\",\"error\":{}}").as_deref(), Some("error: unknown error"));
    assert_eq!(decode_error_body("nope"), None);
    assert_eq!(decode_error_body("{\"error\":\"flat\"}"), None);
}

#[test]
fn streamed_tool_fragments_assemble_before_done() {
    let raw = "data: {\"choices\":[{\"delta\":{\"tool_calls\":[{\"index\":0,\"id\":\"c1\",\"function\":{\"name\":\"search\",\"arguments\":\"{\\\"q\\\":\"}}]}}]}\n\ndata: {\"choices\":[{\"delta\":{\"tool_calls\":[{\"index\":0,\"function\":{\"arguments\":\"\\\"x\\\"}\"}}]}}]}\n\ndata: [DONE]\n\n";
    let vals = run_stream(&[raw]);
    assert_eq!(vals.len(), 2);
    match &vals[0] {
        Ok(AiEvent::ToolCalls(calls)) => {
            assert_eq!(
                calls,
                &vec![AssembledToolCall {
                    id: "c1".into(),
                    name: "search".into(),
                    arguments: "{\"q\":\"x\"}".into()
                }]
            );
        }
        _ => panic!("expected tool calls"),
    }
    assert!(matches!(vals[1], Ok(AiEvent::Done { prompt_tokens: 0, completion_tokens: 0 })));
}

#[test]
fn mixed_content_then_tool_calls_keeps_order() {
    let raw = "data: {\"choices\":[{\"delta\":{\"content\":\"Let me check.\"}}]}\n\ndata: {\"choices\":[{\"delta\":{\"tool_calls\":[{\"index\":1,\"function\":{\"name\":\"b\",\"arguments\":\"{}\"}},{\"index\":0,\"function\":{\"name\":\"a\",\"arguments\":\"{}\"}}]}}],\"usage\":{\"prompt_tokens\":5}}\n\ndata: [DONE]\n\n";
    let vals = run_stream(&[raw]);
    assert_eq!(vals.len(), 3);
    assert!(matches!(&vals[0], Ok(AiEvent::Delta(t)) if t == "Let me check."));
    match &vals[1] {
        Ok(AiEvent::ToolCalls(calls)) => {
            assert_eq!(calls.len(), 2);
            assert_eq!(calls[0].name, "a");
            assert_eq!(calls[0].id, "call_0");
            assert_eq!(calls[1].name, "b");
            assert_eq!(calls[1].id, "call_1");
        }
        _ => panic!("expected tool calls"),
    }
    assert!(matches!(vals[2], Ok(AiEvent::Done { prompt_tokens: 5, completion_tokens: 0 })));
}

#[test]
fn eof_without_done_still_terminates() {
    let vals = run_stream(&["data: {\"choices\":[{\"delta\":{\"content\":\"a\"}}]}\n\n", "data: {\"choices\":[{\"delta\":{\"content\":\"b\"}}]}"]);
    assert_eq!(vals.len(), 3);
    assert!(matches!(&vals[0], Ok(AiEvent::Delta(t)) if t == "a"));
    assert!(matches!(&vals[1], Ok(AiEvent::Delta(t)) if t == "b"));
    assert!(matches!(vals[2], Ok(AiEvent::Done { .. })));
}

#[test]
fn read_failure_ends_the_stream() {
    let mut st = StreamState::new();
    let r = st.on_read_error("reset");
    match r {
        Err(AppError::SourceUnavailable { source, reason }) => {
            assert_eq!(source, "zen");
            assert_eq!(reason, "stream read failed: reset");
        }
        _ => panic!("expected a source failure"),
    }
    assert!(matches!(st.step(), Step::Finished));
}

#[test]
fn tool_accumulator_falls_back_to_given_id() {
    let a = ToolAccum { id: String::new(), name: "n".into(), arguments: "{}".into() };
    let c = a.assemble("call_7".into());
    assert_eq!(c.id, "call_7");
    let b = ToolAccum { id: "own".into(), name: "n".into(), arguments: "{}".into() };
    assert_eq!(b.assemble("call_0".into()).id, "own");
}

#[test]
fn frame_end_is_just_past_the_blank_line() {
    assert_eq!(find_frame_end(b"ab\n\ncd"), Some(4));
    assert_eq!(find_frame_end(b"ab\r\n\r\ncd"), Some(6));
    assert_eq!(find_frame_end(b"ab\r\rcd"), Some(4));
    assert_eq!(find_frame_end(b"ab\ncd\r\n"), None);
}

#[test]
fn popped_block_leaves_nothing_of_its_terminator() {
    let mut dec = SseDecoder::new();
    dec.feed(b"data: one\r\n\r\n");
    assert!(matches!(dec.pop_frame(), Ok(Some(Frame::Data(ref d))) if d == "one"));
    dec.feed(b"data: two\n\n");
    assert!(matches!(dec.pop_frame(), Ok(Some(Frame::Data(ref d))) if d == "two"));
    assert!(matches!(dec.pop_frame(), Ok(None)));
    assert!(matches!(dec.flush_tail(), Ok(None)));
}
