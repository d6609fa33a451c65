use open_proxy_ai::json::Json;
use open_proxy_ai::responses::{
    chat_to_responses, chat_to_responses_with, convert_usage, extract_text_from_content,
    normalize_message, strip_responses_fields, ResponsesSseConverter,
};
use serde_json::Value;

fn from_value(v: serde_json::Value) -> Json {
    match v {
        serde_json::Value::Null => Json::Null,
        serde_json::Value::Bool(b) => Json::Bool(b),
        serde_json::Value::Number(n) => {
            if let Some(u) = n.as_u64() {
                Json::UInt(u)
            } else if let Some(i) = n.as_i64() {
                Json::Int(i)
            } else {
                Json::Float(n.to_string())
            }
        }
        serde_json::Value::String(s) => Json::Text(s),
        serde_json::Value::Array(a) => Json::Array(a.into_iter().map(from_value).collect()),
        serde_json::Value::Object(m) => {
            Json::Object(m.into_iter().map(|(k, v)| (k, from_value(v))).collect())
        }
    }
}

fn to_value(j: &Json) -> serde_json::Value {
    match j {
        Json::Null => serde_json::Value::Null,
        Json::Bool(b) => serde_json::Value::Bool(*b),
        Json::UInt(n) => serde_json::Value::from(*n),
        Json::Int(n) => serde_json::Value::from(*n),
        Json::Float(t) => serde_json::Value::from(t.parse::<f64>().unwrap()),
        Json::Text(s) => serde_json::Value::String(s.clone()),
        Json::Array(a) => serde_json::Value::Array(a.iter().map(to_value).collect()),
        Json::Object(fields) => {
            let mut m = serde_json::Map::new();
            for (k, v) in fields {
                m.entry(k.clone()).or_insert_with(|| to_value(v));
            }
            serde_json::Value::Object(m)
        }
    }
}

fn j(text: &str) -> Json {
    from_value(serde_json::from_str(text).unwrap())
}

fn ev(events: &Vec<(&'static str, Json)>, i: usize) -> Value {
    to_value(&events[i].1)
}

#[test]
fn test_chat_to_responses_basic() {
    let chat = j(r#"{
        "id": "chatcmpl-abc",
        "object": "chat.completion",
        "created": 1000,
        "model": "my-model",
        "choices": [{
            "index": 0,
            "message": {"role": "assistant", "content": "Hello world"},
            "finish_reason": "stop"
        }],
        "usage": {"input_tokens": 10, "output_tokens": 20, "total_tokens": 30}
    }"#);

    let resp = to_value(&chat_to_responses(&chat, "my-model"));
    assert_eq!(resp["object"], "response");
    assert_eq!(resp["model"], "my-model");
    assert_eq!(resp["status"], "completed");
    assert!(resp["id"].as_str().unwrap().starts_with("resp_"));
    assert!(resp.get("created_at").is_some(), "must have created_at");
    assert_eq!(resp["output"][0]["type"], "message");
    assert_eq!(resp["output"][0]["role"], "assistant");
    assert_eq!(resp["output"][0]["content"][0]["type"], "output_text");
    assert_eq!(resp["output"][0]["content"][0]["text"], "Hello world");
    assert_eq!(resp["usage"]["total_tokens"], 30);
}

#[test]
fn test_chat_to_responses_empty_content() {
    let chat = j(r#"{"choices": [{"message": {"content": null}}]}"#);
    let resp = to_value(&chat_to_responses(&chat, "m"));
    assert_eq!(resp["output"][0]["content"][0]["text"], "");
    assert_eq!(resp["status"], "completed");
    assert!(resp.get("created_at").is_some());
}

#[test]
fn test_responses_sse_converter_delta() {
    let mut conv = ResponsesSseConverter::new("test-model");

    let delta = j(r#"{"content": "Hello"}"#);
    let events = conv.process_delta(&delta, None);
    assert_eq!(events.len(), 1);
    assert_eq!(events[0].0, "output_text.delta");

    let data = ev(&events, 0);
    assert_eq!(data["delta"], "Hello");
    assert_eq!(conv.buffer, "Hello");
}

#[test]
fn test_responses_sse_converter_finish() {
    let mut conv = ResponsesSseConverter::new("test-model");

    let delta = j(r#"{"content": "Hi"}"#);
    conv.process_delta(&delta, None);

    let events = conv.process_delta(&Json::Null, Some("stop"));
    assert_eq!(events.len(), 1, "stop reason emits only output_text.done");
    assert_eq!(events[0].0, "output_text.done");

    let done = ev(&events, 0);
    assert_eq!(done["text"], "Hi");
    assert!(conv.finished);
}

#[test]
fn test_responses_sse_converter_incomplete_finish() {
    let mut conv = ResponsesSseConverter::new("m");
    conv.buffer = "Partial".into();

    let events = conv.process_delta(&Json::Null, Some("length"));
    assert_eq!(events.len(), 2);
    assert_eq!(events[0].0, "output_text.done");
    assert_eq!(events[1].0, "response.incomplete");

    let inc = ev(&events, 1);
    assert_eq!(inc["type"], "response.incomplete");
    assert_eq!(inc["response"]["status"], "incomplete");
}

#[test]
fn test_responses_sse_converter_initial_events() {
    let conv = ResponsesSseConverter::new("m");
    let ev_list = conv.initial_events();
    assert_eq!(ev_list.len(), 3);
    assert_eq!(ev_list[0].0, "response.created");
    let first = serde_json::to_string(&ev(&ev_list, 0)).unwrap();
    assert_eq!(first.contains("created_at"), true);
    assert_eq!(first.contains("in_progress"), true);
    assert_eq!(ev_list[1].0, "response.output_item.added");
    assert_eq!(ev_list[2].0, "response.content_part.added");
}

#[test]
fn test_responses_sse_converter_final_events_no_finish() {
    let mut conv = ResponsesSseConverter::new("m");
    conv.buffer = "Done text".into();
    // No finish_reason seen

    let events = conv.final_events();
    assert_eq!(events.len(), 3);
    assert_eq!(events[0].0, "output_text.done");
    assert_eq!(events[1].0, "response.output_item.done");
    assert_eq!(events[2].0, "response.completed");

    let comp = ev(&events, 2);
    assert_eq!(comp["type"], "response.completed");
    assert_eq!(comp["response"]["status"], "completed");
    assert_eq!(comp["response"]["output"][0]["content"][0]["text"], "Done text");
    assert!(comp["response"].get("created_at").is_some());
}

#[test]
fn test_responses_sse_converter_final_events_with_finish() {
    let mut conv = ResponsesSseConverter::new("m");
    conv.buffer = "Hello".into();
    conv.finished = true;

    let events = conv.final_events();
    assert_eq!(events.len(), 2);
    assert_eq!(events[0].0, "response.output_item.done");
    assert_eq!(events[1].0, "response.completed");

    let comp = ev(&events, 1);
    assert_eq!(comp["type"], "response.completed");
    assert_eq!(comp["response"]["status"], "completed");
    assert_eq!(comp["response"]["output"][0]["content"][0]["text"], "Hello");
}

#[test]
fn test_responses_sse_converter_double_finalize_noop() {
    let mut conv = ResponsesSseConverter::new("m");
    conv.finished = true;
    let ev1 = conv.final_events();
    assert_eq!(ev1.len(), 2); // output_item.done + response.completed
    let ev2 = conv.final_events();
    assert_eq!(ev2.len(), 0); // already finalized
}

// ── Helper function tests ────────────────────────────────────────

#[test]
fn test_extract_text_from_string() {
    assert_eq!(extract_text_from_content(&Json::Text("hello".into())), "hello");
    assert_eq!(extract_text_from_content(&Json::Text("".into())), "");
}

#[test]
fn test_extract_text_from_array() {
    let content = j(r#"[
        {"type": "input_text", "text": "Hello"},
        {"type": "input_text", "text": "World"}
    ]"#);
    assert_eq!(extract_text_from_content(&content), "Hello World");
}

#[test]
fn test_extract_text_from_empty_array() {
    let content = j("[]");
    assert_eq!(extract_text_from_content(&content), "");
}

#[test]
fn test_extract_text_from_null() {
    assert_eq!(extract_text_from_content(&Json::Null), "");
}

#[test]
fn test_normalize_message_developer_to_system() {
    let msg = j(r#"{
        "role": "developer",
        "content": [{"type": "input_text", "text": "Be helpful."}]
    }"#);
    let norm = to_value(&normalize_message(&msg));
    assert_eq!(norm["role"], "system");
    assert_eq!(norm["content"], "Be helpful.");
}

#[test]
fn test_normalize_message_user_stays_user() {
    let msg = j(r#"{"role": "user", "content": "hello"}"#);
    let norm = to_value(&normalize_message(&msg));
    assert_eq!(norm["role"], "user");
    assert_eq!(norm["content"], "hello");
}

#[test]
fn test_normalize_message_content_array_to_text() {
    let msg = j(r#"{
        "role": "user",
        "content": [{"type": "input_text", "text": "What is"}]
    }"#);
    let norm = to_value(&normalize_message(&msg));
    assert_eq!(norm["content"], "What is");
}

#[test]
fn test_strip_responses_fields_removes_input() {
    let mut body = j(r#"{
        "input": "test",
        "instructions": "be nice",
        "model": "gpt-4",
        "messages": [],
        "stream": false
    }"#);
    strip_responses_fields(&mut body);
    let body = to_value(&body);
    assert!(body.get("input").is_none(), "input should be removed");
    assert!(body.get("instructions").is_none(), "instructions should be removed");
    assert!(body.get("model").is_some(), "model should remain");
    assert!(body.get("messages").is_some(), "messages should remain");
}

#[test]
fn test_strip_responses_fields_removes_all_known_fields() {
    let mut body = j(r#"{
        "input": "x",
        "instructions": "x",
        "include": [],
        "previous_response_id": "resp_x",
        "store": false,
        "stream_options": {},
        "client_metadata": {},
        "prompt_cache_key": "x",
        "reasoning": {},
        "tools": [{"type": "web_search_preview"}],
        "tool_choice": "auto",
        "parallel_tool_calls": true,
        "model": "m",
        "messages": [{"role": "user", "content": "hi"}],
        "max_tokens": 100
    }"#);
    strip_responses_fields(&mut body);
    let body = to_value(&body);
    for field in &["input", "instructions", "include", "previous_response_id",
                   "store", "stream_options", "client_metadata", "prompt_cache_key",
                   "reasoning", "tools", "tool_choice", "parallel_tool_calls"] {
        assert!(body.get(field).is_none(), "{} should be removed", field);
    }
    assert!(body.get("model").is_some());
    assert!(body.get("messages").is_some());
    assert!(body.get("max_tokens").is_some());
}

// ── Further cases ────────────────────────────────────────────────

#[test]
fn chat_response_ids_and_time_come_from_the_nonces() {
    let chat = j(r#"{"choices": [{"message": {"content": "ok"}}]}"#);
    let resp = to_value(&chat_to_responses_with(&chat, "m", 0xbeef, 1, 1700000000));
    assert_eq!(resp["id"], "resp_000000000000beef");
    assert_eq!(resp["output"][0]["id"], "msg_0000000000000001");
    assert_eq!(resp["created_at"], 1700000000u64);
    assert!(resp.get("usage").is_none());
}

#[test]
fn chat_response_converts_prompt_and_completion_tokens() {
    let chat = j(r#"{"choices": [], "usage": {"prompt_tokens": 3, "completion_tokens": 4, "total_tokens": 7}}"#);
    let resp = to_value(&chat_to_responses_with(&chat, "m", 1, 2, 3));
    assert_eq!(resp["usage"]["input_tokens"], 3);
    assert_eq!(resp["usage"]["output_tokens"], 4);
    assert_eq!(resp["usage"]["total_tokens"], 7);
    assert_eq!(resp["output"][0]["content"][0]["text"], "");
}

#[test]
fn fresh_converters_draw_distinct_ids() {
    let a = ResponsesSseConverter::new("m");
    let b = ResponsesSseConverter::new("m");
    assert!(a.resp_id.starts_with("resp_") && a.resp_id.len() == 21);
    assert!(a.msg_id.starts_with("msg_") && a.msg_id.len() == 20);
    assert_ne!(a.resp_id, b.resp_id);
}

#[test]
fn convert_usage_of_non_object_is_null() {
    assert!(convert_usage(&Json::Null).is_null());
    assert!(convert_usage(&j("[1, 2]")).is_null());
    let u = to_value(&convert_usage(&j(r#"{"prompt_tokens": -1, "total_tokens": 5}"#)));
    assert_eq!(u["input_tokens"], 0);
    assert_eq!(u["output_tokens"], 0);
    assert_eq!(u["total_tokens"], 5);
}

#[test]
fn usage_is_kept_from_the_first_chunk_that_has_it() {
    let mut conv = ResponsesSseConverter::with_nonces("m", 1, 2);
    conv.set_usage(&j(r#"{"usage": null}"#));
    assert!(conv.usage.is_none());
    conv.set_usage(&j(r#"{"usage": {"prompt_tokens": 2, "completion_tokens": 3, "total_tokens": 5}}"#));
    conv.set_usage(&j(r#"{"usage": {"prompt_tokens": 9, "completion_tokens": 9, "total_tokens": 18}}"#));
    conv.finished = true;
    let events = conv.final_events_at(42);
    let comp = ev(&events, 1);
    assert_eq!(comp["response"]["usage"]["total_tokens"], 5);
    assert_eq!(comp["response"]["created_at"], 42);
}

#[test]
fn a_second_finish_reason_adds_no_event() {
    let mut conv = ResponsesSseConverter::with_nonces("m", 1, 2);
    let first = conv.process_delta_at(&j(r#"{"content": "a"}"#), Some("stop"), 0);
    assert_eq!(first.len(), 2);
    let second = conv.process_delta_at(&j(r#"{"content": "b"}"#), Some("length"), 0);
    assert_eq!(second.len(), 1);
    assert_eq!(second[0].0, "output_text.delta");
    assert_eq!(conv.buffer, "ab");
}

#[test]
fn empty_delta_text_emits_nothing() {
    let mut conv = ResponsesSseConverter::with_nonces("m", 1, 2);
    let events = conv.process_delta_at(&j(r#"{"content": ""}"#), None, 0);
    assert_eq!(events.len(), 0);
    assert_eq!(conv.buffer, "");
}

#[test]
fn final_events_without_finish_hand_out_the_buffer() {
    let mut conv = ResponsesSseConverter::with_nonces("m", 1, 2);
    conv.process_delta_at(&j(r#"{"content": "xyz"}"#), None, 0);
    let events = conv.final_events_at(7);
    assert_eq!(ev(&events, 0)["text"], "xyz");
    assert_eq!(conv.buffer, "");
    assert!(conv.finalized);
}

#[test]
fn initial_events_carry_the_ids() {
    let conv = ResponsesSseConverter::with_nonces("gpt", 255, 16);
    let events = conv.initial_events_at(99);
    assert_eq!(ev(&events, 0)["response"]["id"], "resp_00000000000000ff");
    assert_eq!(ev(&events, 0)["response"]["created_at"], 99);
    assert_eq!(ev(&events, 0)["response"]["model"], "gpt");
    assert_eq!(ev(&events, 1)["item"]["id"], "msg_0000000000000010");
    assert_eq!(ev(&events, 2)["part"]["text"], "");
}

#[test]
fn extract_text_skips_blocks_without_text() {
    let content = j(r#"[{"type": "image"}, {"text": 5}, {"text": "a"}, "b", {"text": "c"}]"#);
    assert_eq!(extract_text_from_content(&content), "a c");
}

#[test]
fn normalize_keeps_non_objects() {
    let m = to_value(&normalize_message(&j(r#""plain""#)));
    assert_eq!(m, Value::String("plain".into()));
}

#[test]
fn a_run_hands_out_the_whole_text_once() {
    let mut conv = ResponsesSseConverter::with_nonces("m", 1, 2);
    let mut done = Vec::new();
    let steps: [(&str, Option<&str>); 5] = [
        (r#"{"content": "Hel"}"#, None),
        (r#"{"content": ""}"#, None),
        (r#"{"content": "lo"}"#, Some("length")),
        (r#"{"content": "!"}"#, Some("stop")),
        (r#"{}"#, None),
    ];
    for (i, (d, reason)) in steps.iter().enumerate() {
        for (name, data) in conv.process_delta_at(&j(d), *reason, 0) {
            if name == "output_text.done" {
                done.push((i, to_value(&data)["text"].clone()));
            }
        }
    }
    assert_eq!(done, vec![(2, Value::String("Hello".into()))]);
    assert_eq!(conv.buffer, "Hello!");
    assert!(conv.finished);
}
