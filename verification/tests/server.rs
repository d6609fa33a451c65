use open_proxy_ai::json::Json;
use open_proxy_ai::model_pool::{ModelPool, ModelPoolEntry};
use open_proxy_ai::server::{
    build_api_url, error_body, failover_reason, get_all_models, health_body, missing_model_body,
    models, models_list_body, requested_messages, requested_model, requested_stream,
    resolve_routes, speed_test_figures, speed_test_http_error, speed_test_messages,
    speed_test_request, Failover, SpeedTestOutcome,
};

fn from_value(v: serde_json::Value) -> Json {
    match v {
        serde_json::Value::Null => Json::Null,
        serde_json::Value::Bool(b) => Json::Bool(b),
        serde_json::Value::Number(n) => {
            if let Some(u) = n.as_u64() {
                Json::UInt(u)
            } else if let Some(i) = n.as_i64() {
                Json::Int(i)
            } else {
                Json::Float(n.to_string())
            }
        }
        serde_json::Value::String(s) => Json::Text(s),
        serde_json::Value::Array(a) => Json::Array(a.into_iter().map(from_value).collect()),
        serde_json::Value::Object(m) => {
            Json::Object(m.into_iter().map(|(k, v)| (k, from_value(v))).collect())
        }
    }
}

fn to_value(j: &Json) -> serde_json::Value {
    match j {
        Json::Null => serde_json::Value::Null,
        Json::Bool(b) => serde_json::Value::Bool(*b),
        Json::UInt(n) => serde_json::Value::from(*n),
        Json::Int(n) => serde_json::Value::from(*n),
        Json::Float(t) => serde_json::Value::from(t.parse::<f64>().unwrap()),
        Json::Text(s) => serde_json::Value::String(s.clone()),
        Json::Array(a) => serde_json::Value::Array(a.iter().map(to_value).collect()),
        Json::Object(fields) => {
            let mut m = serde_json::Map::new();
            for (k, v) in fields {
                m.entry(k.clone()).or_insert_with(|| to_value(v));
            }
            serde_json::Value::Object(m)
        }
    }
}

fn j(text: &str) -> Json {
    from_value(serde_json::from_str(text).unwrap())
}

fn entry(id: &str, name: &str, priority: u32, enabled: bool, base_url: &str) -> ModelPoolEntry {
    ModelPoolEntry {
        id: id.to_string(),
        name: name.to_string(),
        base_url: base_url.to_string(),
        api_key: "k".into(),
        model_name: format!("{}-upstream", name),
        priority,
        enabled,
        builtin: false,
        provider_type: "custom".into(),
        api_format: "openai".into(),
    }
}

#[test]
fn api_url_strips_slashes_and_v1() {
    assert_eq!(build_api_url("https://x.com/v1", "/v1/chat/completions"), "https://x.com/v1/chat/completions");
    assert_eq!(build_api_url("https://x.com/v1///", "/v1/messages"), "https://x.com/v1/messages");
    assert_eq!(build_api_url("https://x.com/", "/p"), "https://x.com/p");
    assert_eq!(build_api_url("https://x.com/api", "/p"), "https://x.com/api/p");
    assert_eq!(build_api_url("", "/p"), "/p");
    assert_eq!(build_api_url("/v1", "/p"), "/p");
}

#[test]
fn all_models_lists_builtins_then_new_customs() {
    let custom = vec!["big-pickle".to_string(), "mine".to_string(), "mine".to_string()];
    let all = get_all_models(&custom);
    assert_eq!(all.len(), 6);
    assert_eq!(all[0], "deepseek-v4-flash-free");
    assert_eq!(all[5], "mine");
    assert_eq!(models().len(), 5);
}

#[test]
fn model_pool_routes_follow_priority() {
    let mut pool = ModelPool::new();
    pool.upsert(entry("a", "a", 5, true, "https://a"));
    pool.upsert(entry("b", "b", 1, true, ""));
    pool.upsert(entry("c", "c", 3, false, ""));
    pool.upsert(entry("d", "d", 1, true, "https://d"));
    let routes = resolve_routes(&pool, "ModelPool");
    let names: Vec<&str> = routes.iter().map(|r| r.model.as_str()).collect();
    assert_eq!(names, vec!["b-upstream", "d-upstream", "a-upstream"]);
    assert_eq!(routes[0].base_url, "");
    assert_eq!(routes[0].api_key, "");
    assert_eq!(routes[1].base_url, "https://d");
    assert_eq!(routes[1].api_key, "k");
    assert_eq!(routes[1].api_format, "openai");
}

#[test]
fn named_model_routes_to_its_entry_or_itself() {
    let mut pool = ModelPool::new();
    pool.upsert(entry("a", "a", 5, true, "https://a"));
    pool.upsert(entry("c", "c", 3, false, ""));
    let r = resolve_routes(&pool, "a-upstream");
    assert_eq!(r.len(), 1);
    assert_eq!(r[0].base_url, "https://a");
    let disabled = resolve_routes(&pool, "c");
    assert_eq!(disabled.len(), 1);
    assert_eq!(disabled[0].model, "c");
    assert_eq!(disabled[0].base_url, "");
    let empty_pool = resolve_routes(&ModelPool::new(), "ModelPool");
    assert_eq!(empty_pool.len(), 1);
    assert_eq!(empty_pool[0].model, "ModelPool");
}

#[test]
fn reply_bodies() {
    let e = to_value(&error_body("m: 500: boom", "failover_error"));
    assert_eq!(e["error"]["message"], "m: 500: boom");
    assert_eq!(e["error"]["type"], "failover_error");
    assert_eq!(failover_reason("m", "500: boom"), "m: 500: boom");
    let missing = to_value(&missing_model_body());
    assert_eq!(missing["error"]["message"], "Missing model field");
    let h = to_value(&health_body());
    assert_eq!(h["status"], "ok");
    assert_eq!(h["version"], "v9");
    assert_eq!(h["models"], 5);
    assert_eq!(h["endpoints"][1], "/v1/messages");
    let list = to_value(&models_list_body(&vec!["x".to_string()]));
    assert_eq!(list["object"], "list");
    assert_eq!(list["data"].as_array().unwrap().len(), 6);
    assert_eq!(list["data"][5]["id"], "x");
    assert_eq!(list["data"][5]["owned_by"], "free");
    assert_eq!(list["data"][0]["created"], 1779000000u64);
}

#[test]
fn request_fields() {
    let body = j(r#"{"model": "m", "stream": true, "messages": [1]}"#);
    assert_eq!(requested_model(&body).unwrap(), "m");
    assert!(requested_stream(&body));
    assert_eq!(to_value(&requested_messages(&body)), serde_json::Value::Array(vec![serde_json::Value::from(1u64)]));
    let bare = j(r#"{"model": 3, "stream": "yes"}"#);
    assert!(requested_model(&bare).is_none());
    assert!(!requested_stream(&bare));
    assert_eq!(to_value(&requested_messages(&bare)), serde_json::Value::Array(vec![]));
    let _ = Json::Null;
}

#[test]
fn failover_tries_routes_in_order_and_reports_the_last_failure() {
    let mut pool = ModelPool::new();
    pool.upsert(entry("a", "a", 2, true, ""));
    pool.upsert(entry("b", "b", 1, true, ""));
    let mut f = Failover::new(resolve_routes(&pool, "ModelPool"));
    assert_eq!(f.next_route().unwrap().model, "b-upstream");
    f.record_failure("500: down");
    assert_eq!(f.next_route().unwrap().model, "a-upstream");
    f.record_failure("429: busy");
    assert!(f.next_route().is_none());
    let body = to_value(&f.failure_body());
    assert_eq!(body["error"]["message"], "a-upstream: 429: busy");
    assert_eq!(body["error"]["type"], "failover_error");
    let empty = Failover::new(Vec::new());
    assert_eq!(to_value(&empty.failure_body())["error"]["message"], "All models failed");
}

fn parse(text: &str) -> Json {
    from_value(serde_json::from_str(text).unwrap())
}

#[test]
fn speed_test_request_openai_format() {
    let (url, body, header, value) =
        speed_test_request("gpt-x", "https://api.example.com/v1/", "k1", "openai");
    assert_eq!(url, "https://api.example.com/v1/chat/completions");
    assert_eq!(header, "Authorization");
    assert_eq!(value, "Bearer k1");
    let expected: serde_json::Value = serde_json::from_str(
        r#"{"model":"gpt-x","messages":[{"role":"user","content":"Reply with exactly 'OK' and nothing else."}],"stream":false}"#,
    )
    .unwrap();
    assert_eq!(to_value(&body), expected);
}

#[test]
fn speed_test_request_anthropic_format() {
    let (url, body, header, value) =
        speed_test_request("anth-model-y", "https://a.example.com", "sk-2", "anthropic");
    assert_eq!(url, "https://a.example.com/v1/messages");
    assert_eq!(header, "x-api-key");
    assert_eq!(value, "sk-2");
    let expected: serde_json::Value = serde_json::from_str(
        r#"{"model":"anth-model-y","messages":[{"role":"user","content":"Reply with exactly 'OK' and nothing else."}],"max_tokens":50}"#,
    )
    .unwrap();
    assert_eq!(to_value(&body), expected);
}

#[test]
fn speed_test_messages_ask_for_ok() {
    let expected: serde_json::Value = serde_json::from_str(
        r#"[{"role":"user","content":"Reply with exactly 'OK' and nothing else."}]"#,
    )
    .unwrap();
    assert_eq!(to_value(&speed_test_messages()), expected);
}

#[test]
fn speed_test_http_error_short_body() {
    assert_eq!(speed_test_http_error(401, "unauthorized"), "HTTP 401: unauthorized");
    assert_eq!(speed_test_http_error(500, ""), "HTTP 500: ");
}

#[test]
fn speed_test_http_error_cuts_long_body() {
    let body = "x".repeat(200);
    let r = speed_test_http_error(503, &body);
    assert_eq!(r, format!("HTTP 503: {}...", "x".repeat(150)));
    let exact = "y".repeat(150);
    assert_eq!(speed_test_http_error(429, &exact), format!("HTTP 429: {}", exact));
}

#[test]
fn speed_test_http_error_counts_bytes_not_characters() {
    // 75 two-byte characters make exactly 150 bytes; one more goes past.
    let body = "\u{e9}".repeat(80);
    let r = speed_test_http_error(400, &body);
    assert_eq!(r, format!("HTTP 400: {}...", "\u{e9}".repeat(75)));
}

#[test]
fn speed_test_figures_openai_reply() {
    let reply = parse(
        r#"{"choices":[{"message":{"content":"OK"}}],"usage":{"total_tokens":30,"completion_tokens":2}}"#,
    );
    let (total, comp, preview) = speed_test_figures(false, &reply);
    assert_eq!((total, comp, preview.as_str()), (30, 2, "OK"));
}

#[test]
fn speed_test_figures_anthropic_reply() {
    let reply = parse(
        r#"{"content":[{"type":"text","text":"OK!"}],"usage":{"input_tokens":12,"output_tokens":3}}"#,
    );
    let (total, comp, preview) = speed_test_figures(true, &reply);
    assert_eq!((total, comp, preview.as_str()), (15, 3, "OK!"));
}

#[test]
fn speed_test_figures_missing_fields_are_zero_and_empty() {
    let reply = parse(r#"{"choices":[],"usage":{"total_tokens":"many"}}"#);
    let (total, comp, preview) = speed_test_figures(false, &reply);
    assert_eq!((total, comp, preview.as_str()), (0, 0, ""));
    let (total, comp, preview) = speed_test_figures(true, &parse("null"));
    assert_eq!((total, comp, preview.as_str()), (0, 0, ""));
}

#[test]
fn speed_test_figures_preview_is_first_hundred_characters() {
    let long = "z".repeat(130);
    let reply = parse(&format!(r#"{{"choices":[{{"message":{{"content":"{}"}}}}]}}"#, long));
    let (_, _, preview) = speed_test_figures(false, &reply);
    assert_eq!(preview, "z".repeat(100));
}

#[test]
fn speed_test_outcome_of_failure_has_no_figures() {
    let o = SpeedTestOutcome::failure("HTTP 500: boom".into());
    assert!(!o.success);
    assert_eq!(o.error.as_deref(), Some("HTTP 500: boom"));
    assert_eq!((o.total_tokens, o.completion_tokens, o.response_preview.as_str()), (0, 0, ""));
}

#[test]
fn speed_test_outcome_of_reply_reads_its_figures() {
    let reply = parse(
        r#"{"content":[{"text":"OK"}],"usage":{"input_tokens":5,"output_tokens":1}}"#,
    );
    let o = SpeedTestOutcome::from_reply(true, &reply);
    assert!(o.success);
    assert!(o.error.is_none());
    assert_eq!((o.total_tokens, o.completion_tokens, o.response_preview.as_str()), (6, 1, "OK"));
}
