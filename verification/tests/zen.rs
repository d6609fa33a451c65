use open_proxy_ai::json::Json;
use open_proxy_ai::zen::{SessionManager, ZenClient};

fn from_value(v: serde_json::Value) -> Json {
    match v {
        serde_json::Value::Null => Json::Null,
        serde_json::Value::Bool(b) => Json::Bool(b),
        serde_json::Value::Number(n) => {
            if let Some(u) = n.as_u64() {
                Json::UInt(u)
            } else if let Some(i) = n.as_i64() {
                Json::Int(i)
            } else {
                Json::Float(n.to_string())
            }
        }
        serde_json::Value::String(s) => Json::Text(s),
        serde_json::Value::Array(a) => Json::Array(a.into_iter().map(from_value).collect()),
        serde_json::Value::Object(m) => {
            Json::Object(m.into_iter().map(|(k, v)| (k, from_value(v))).collect())
        }
    }
}

fn to_value(j: &Json) -> serde_json::Value {
    match j {
        Json::Null => serde_json::Value::Null,
        Json::Bool(b) => serde_json::Value::Bool(*b),
        Json::UInt(n) => serde_json::Value::from(*n),
        Json::Int(n) => serde_json::Value::from(*n),
        Json::Float(t) => serde_json::Value::from(t.parse::<f64>().unwrap()),
        Json::Text(s) => serde_json::Value::String(s.clone()),
        Json::Array(a) => serde_json::Value::Array(a.iter().map(to_value).collect()),
        Json::Object(fields) => {
            let mut m = serde_json::Map::new();
            for (k, v) in fields {
                m.entry(k.clone()).or_insert_with(|| to_value(v));
            }
            serde_json::Value::Object(m)
        }
    }
}

fn j(text: &str) -> Json {
    from_value(serde_json::from_str(text).unwrap())
}

#[test]
fn test_with_original_body_preserves_all_params() {
    let messages = j(r#"[{"role": "user", "content": "hello"}]"#);
    let original = j(r#"{
        "model": "ignored",
        "messages": [],
        "stream": false,
        "max_tokens": 4096,
        "temperature": 0.7,
        "tool_choice": "auto",
        "n": 2,
        "user": "test-user",
        "stop": ["\n\n"]
    }"#);

    let body = to_value(&ZenClient::build_request_body("new-model", &messages, true, None, Some(&original)));

    // Overridden fields
    assert_eq!(body["model"], "new-model");
    assert_eq!(body["messages"], to_value(&messages));
    assert_eq!(body["stream"], true);
    // Preserved fields (no whitelist needed)
    assert_eq!(body["max_tokens"], 4096);
    assert!((body["temperature"].as_f64().unwrap() - 0.7).abs() < 0.001);
    assert_eq!(body["tool_choice"], "auto");
    assert_eq!(body["n"], 2);
    assert_eq!(body["user"], "test-user");
    assert_eq!(body["stop"][0], "\n\n");
}

#[test]
fn test_with_original_body_preserves_unknown_fields() {
    let messages = j(r#"[{"role": "user", "content": "hi"}]"#);
    let original = j(r#"{
        "model": "old",
        "messages": [],
        "stream": false,
        "some_future_param": "will_still_be_there",
        "another_unknown": 42
    }"#);

    let body = to_value(&ZenClient::build_request_body("new", &messages, true, None, Some(&original)));

    assert_eq!(body["some_future_param"], "will_still_be_there");
    assert_eq!(body["another_unknown"], 42);
}

#[test]
fn test_without_original_body_has_standard_fields() {
    let messages = j(r#"[{"role": "user", "content": "hello"}]"#);

    let body = to_value(&ZenClient::build_request_body("m", &messages, true, None, None));

    assert_eq!(body["model"], "m");
    assert_eq!(body["stream"], true);
    assert_eq!(body["messages"], to_value(&messages));
    // No extra params leaked in
    assert!(body.get("max_tokens").is_none());
    assert!(body.get("temperature").is_none());
}

#[test]
fn test_without_original_body_but_with_tools() {
    let messages = j(r#"[{"role": "user", "content": "hello"}]"#);
    let tools = j(r#"[{"type": "function", "function": {"name": "test", "parameters": {"type": "object", "properties": {}}}}]"#);

    let body = to_value(&ZenClient::build_request_body("m", &messages, false, Some(&tools), None));

    assert!(body.get("tools").is_some());
    assert_eq!(body["tools"][0]["function"]["name"], "test");
}

#[test]
fn test_without_original_body_skips_empty_tools() {
    let messages = j(r#"[{"role": "user", "content": "hello"}]"#);
    let tools = j("[]");

    let body = to_value(&ZenClient::build_request_body("m", &messages, false, Some(&tools), None));

    // When building from scratch, empty tools array should not add the field
    assert!(body.get("tools").is_none());
}

#[test]
fn test_with_original_body_overrides_model_and_messages() {
    let messages = j(r#"[{"role": "user", "content": "new_msg"}]"#);
    let original = j(r#"{
        "model": "old-model",
        "messages": [{"role": "user", "content": "old_msg"}],
        "stream": false
    }"#);

    let body = to_value(&ZenClient::build_request_body("new-model", &messages, true, None, Some(&original)));

    assert_eq!(body["model"], "new-model");
    assert_eq!(body["messages"][0]["content"], "new_msg");
    assert_eq!(body["stream"], true);
}

// ── Further cases ────────────────────────────────────────────────

#[test]
fn original_null_body_becomes_an_object() {
    let messages = j("[]");
    let body = to_value(&ZenClient::build_request_body("m", &messages, false, None, Some(&Json::Null)));
    assert_eq!(body["model"], "m");
    assert_eq!(body["stream"], false);
}

#[test]
fn is_error_detects_error_field_or_type() {
    assert!(ZenClient::is_error(&j(r#"{"error": null}"#)));
    assert!(ZenClient::is_error(&j(r#"{"type": "error"}"#)));
    assert!(!ZenClient::is_error(&j(r#"{"type": "message"}"#)));
    assert!(!ZenClient::is_error(&j("[]")));
}

#[test]
fn extract_error_prefers_nested_message() {
    assert_eq!(ZenClient::extract_error(&j(r#"{"error": {"message": "bad"}, "message": "outer"}"#)), "bad");
    assert_eq!(ZenClient::extract_error(&j(r#"{"error": {"code": 1}, "message": "outer"}"#)), "outer");
    assert_eq!(ZenClient::extract_error(&j(r#"{"error": "x"}"#)), "Unknown error");
}

#[test]
fn headers_carry_session_and_request_id() {
    let h = ZenClient::build_headers_with("ses_1", 0xab);
    assert_eq!(h.len(), 6);
    assert_eq!(h[0], ("content-type".to_string(), "application/json".to_string()));
    assert_eq!(h[1], ("authorization".to_string(), "Bearer public".to_string()));
    assert_eq!(h[4], ("x-opencode-request".to_string(), "msg_ab".to_string()));
    assert_eq!(h[5], ("x-opencode-session".to_string(), "ses_1".to_string()));
    let random = ZenClient::build_headers("s");
    assert!(random[4].1.starts_with("msg_"));
}

#[test]
fn user_agent_names_the_client_version() {
    assert_eq!(
        ZenClient::user_agent(),
        "opencode/1.15.0 ai-sdk/provider-utils/4.0.23 runtime/bun/1.3.13"
    );
    assert!(ZenClient::new().is_ok());
}

#[test]
fn session_is_kept_within_rotation_window() {
    let mut m = SessionManager::new();
    let rnd = [0xabu8; 16];
    let a = m.get_session_at("alice", 0x10, rnd);
    assert_eq!(a, format!("ses_10{}", "ab".repeat(16)));
    let b = m.get_session_at("alice", 0x10 + 1_799_999, [0u8; 16]);
    assert_eq!(a, b);
    let c = m.get_session_at("alice", 0x10 + 1_800_000, [1u8; 16]);
    assert_ne!(a, c);
    assert!(c.ends_with(&"01".repeat(16)));
    let d = m.get_session_at("bob", 0x10, [2u8; 16]);
    assert_ne!(c, d);
    let e = m.get_session_at("alice", 0x10 + 1_800_001, [3u8; 16]);
    assert_eq!(c, e);
}

#[test]
fn session_from_the_clock_is_stable() {
    let mut m = SessionManager::new();
    let a = m.get_session("u");
    let b = m.get_session("u");
    assert!(a.starts_with("ses_"));
    assert_eq!(a.len(), 4 + format!("{:x}", 1u64 << 40).len() + 32);
    assert_eq!(a, b);
}
