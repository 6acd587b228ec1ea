use codex_plus_core::anthropic::{
    anthropic_error_to_responses_error, anthropic_message_to_response, anthropic_messages_url,
    anthropic_error_to_responses_error_with_parse, anthropic_request_headers,
    anthropic_usage_to_responses_usage, function_call_arguments, responses_to_anthropic_messages,
    tool_use_inputs, ANTHROPIC_VERSION,
};
use codex_plus_core::json::Json;
use codex_plus_core::sse::{frame_events, sse_block_fields, AnthropicSseToResponsesConverter};
use serde_json::Value;

fn to_json(value: &Value) -> Json {
    match value {
        Value::Null => Json::Null,
        Value::Bool(b) => Json::Bool(*b),
        Value::Number(n) => {
            if let Some(u) = n.as_u64() {
                Json::UInt(u)
            } else if let Some(i) = n.as_i64() {
                Json::Int(i)
            } else {
                Json::Float(n.to_string())
            }
        }
        Value::String(s) => Json::Str(s.clone()),
        Value::Array(items) => Json::Array(items.iter().map(to_json).collect()),
        Value::Object(map) => Json::Object(
            map.iter()
                .map(|(k, v)| (k.clone(), to_json(v)))
                .collect(),
        ),
    }
}

fn from_json(value: &Json) -> Value {
    match value {
        Json::Null => Value::Null,
        Json::Bool(b) => Value::Bool(*b),
        Json::UInt(n) => Value::from(*n),
        Json::Int(n) => Value::from(*n),
        Json::Float(text) => serde_json::from_str(text).unwrap(),
        Json::Str(s) => Value::String(s.clone()),
        Json::Array(items) => Value::Array(items.iter().map(from_json).collect()),
        Json::Object(entries) => Value::Object(
            entries
                .iter()
                .map(|(k, v)| (k.clone(), from_json(v)))
                .collect(),
        ),
    }
}

fn value(text: &str) -> Value {
    serde_json::from_str(text).unwrap()
}

fn request(body_text: &str) -> Value {
    let body = to_json(&value(body_text));
    from_json(&responses_to_anthropic_messages(&body))
}

fn response(body_text: &str, original: Option<&str>) -> Value {
    let body = to_json(&value(body_text));
    let original = original.map(|text| to_json(&value(text)));
    from_json(&anthropic_message_to_response(&body, original.as_ref(), 1700000000))
}

#[test]
fn anthropic_messages_url_rules() {
    assert_eq!(
        anthropic_messages_url("https://api.kimi.com/coding"),
        "https://api.kimi.com/coding/v1/messages"
    );
    assert_eq!(
        anthropic_messages_url("https://api.kimi.com/coding/"),
        "https://api.kimi.com/coding/v1/messages"
    );
    assert_eq!(
        anthropic_messages_url("https://proxy.example.com/anthropic#"),
        "https://proxy.example.com/anthropic/messages"
    );
    assert_eq!(
        anthropic_messages_url("https://api.example.com/v1/messages"),
        "https://api.example.com/v1/messages"
    );
}

#[test]
fn converts_instructions_to_system_with_cache_control() {
    let out = request(
        r#"{"model":"k3","instructions":"You are Codex.","input":[{"type":"message","role":"user","content":[{"type":"input_text","text":"hi"}]}]}"#,
    );
    let system = out["system"].as_array().unwrap();
    assert_eq!(system[0]["text"], "You are Codex.");
    assert_eq!(
        system.last().unwrap()["cache_control"],
        value(r#"{"type":"ephemeral"}"#)
    );
    assert_eq!(out["max_tokens"], 32000);
    assert_eq!(out["model"], "k3");
}

#[test]
fn converts_tool_calls_and_results_preserving_arguments() {
    let out = request(
        r#"{"model":"k3","input":[
            {"type":"function_call","call_id":"c1","name":"shell","arguments":"{\"command\":[\"bash\",\"-lc\",\"ls\"],\"workdir\":\"/tmp\"}"},
            {"type":"function_call_output","call_id":"c1","output":"file1\nfile2"}
        ]}"#,
    );
    let messages = out["messages"].as_array().unwrap();
    assert_eq!(messages[0]["role"], "assistant");
    assert_eq!(messages[0]["content"][0]["type"], "tool_use");
    assert_eq!(messages[0]["content"][0]["id"], "c1");
    assert_eq!(
        messages[0]["content"][0]["input"],
        value(r#"{"command":["bash","-lc","ls"],"workdir":"/tmp"}"#)
    );
    assert_eq!(messages[1]["role"], "user");
    assert_eq!(messages[1]["content"][0]["type"], "tool_result");
    assert_eq!(messages[1]["content"][0]["tool_use_id"], "c1");
    assert_eq!(messages[1]["content"][0]["content"], "file1\nfile2");
}

#[test]
fn tools_schema_cloned_verbatim() {
    let params = value(
        r#"{"type":"object","properties":{"cmd":{"type":"array","items":{"type":"string"}}},"required":["cmd"],"additionalProperties":false}"#,
    );
    let out = request(&format!(
        r#"{{"model":"k3","input":[],"tools":[{{"type":"function","name":"shell","description":"run cmd","parameters":{params}}}]}}"#
    ));
    let tools = out["tools"].as_array().unwrap();
    assert_eq!(tools.len(), 1);
    assert_eq!(tools[0]["name"], "shell");
    assert_eq!(tools[0]["description"], "run cmd");
    assert_eq!(tools[0]["input_schema"], params);
    assert_eq!(tools.last().unwrap()["cache_control"], value(r#"{"type":"ephemeral"}"#));
}

#[test]
fn converts_input_image_data_url() {
    let out = request(
        r#"{"model":"k3","input":[{"type":"message","role":"user","content":[
            {"type":"input_text","text":"看图"},
            {"type":"input_image","image_url":"data:image/png;base64,iVBORw0KGgo="}
        ]}]}"#,
    );
    let content = out["messages"][0]["content"].as_array().unwrap();
    assert_eq!(content[1]["type"], "image");
    assert_eq!(content[1]["source"]["type"], "base64");
    assert_eq!(content[1]["source"]["media_type"], "image/png");
    assert_eq!(content[1]["source"]["data"], "iVBORw0KGgo=");
}

#[test]
fn maps_reasoning_effort_to_thinking_budget() {
    let out = request(r#"{"model":"k3","input":[],"reasoning":{"effort":"high"}}"#);
    assert_eq!(out["thinking"], value(r#"{"type":"enabled","budget_tokens":16384}"#));

    let out = request(r#"{"model":"k3","input":[],"reasoning":{"effort":"none"}}"#);
    assert!(out.get("thinking").is_none());
}

#[test]
fn converts_message_with_text_tool_use_and_thinking() {
    let out = response(
        r#"{"id":"msg_01","model":"k3","stop_reason":"tool_use",
            "usage":{"input_tokens":100,"output_tokens":50,"cache_read_input_tokens":80,"cache_creation_input_tokens":20},
            "content":[
                {"type":"thinking","thinking":"先看下目录","signature":"sig-abc"},
                {"type":"text","text":"我来列一下文件"},
                {"type":"tool_use","id":"toolu_1","name":"shell","input":{"command":["ls"]}}
            ]}"#,
        None,
    );
    assert_eq!(out["object"], "response");
    assert_eq!(out["status"], "completed");
    let output = out["output"].as_array().unwrap();
    assert_eq!(output[0]["type"], "reasoning");
    assert_eq!(output[0]["summary"][0]["text"], "先看下目录");
    assert_eq!(output[0]["signature"], "sig-abc");
    assert_eq!(output[1]["type"], "message");
    assert_eq!(output[1]["content"][0]["type"], "output_text");
    assert_eq!(output[1]["content"][0]["text"], "我来列一下文件");
    assert_eq!(output[2]["type"], "function_call");
    assert_eq!(output[2]["call_id"], "toolu_1");
    assert_eq!(output[2]["name"], "shell");
    assert_eq!(output[2]["arguments"], "{\"command\":[\"ls\"]}");
    assert_eq!(out["usage"]["input_tokens"], 200);
    assert_eq!(out["usage"]["output_tokens"], 50);
    assert_eq!(out["usage"]["total_tokens"], 250);
    assert_eq!(out["usage"]["input_tokens_details"]["cached_tokens"], 80);
}

#[test]
fn maps_max_tokens_stop_to_incomplete() {
    let out = response(
        r#"{"id":"msg_02","model":"k3","stop_reason":"max_tokens","usage":{"input_tokens":1,"output_tokens":32000},"content":[{"type":"text","text":"..."}]}"#,
        None,
    );
    assert_eq!(out["status"], "incomplete");
    assert_eq!(out["incomplete_details"]["reason"], "max_output_tokens");
}

#[test]
fn response_echoes_request_fields_and_time() {
    let out = response(
        r#"{"content":[]}"#,
        Some(r#"{"instructions":"be brief","store":false,"model":"ignored"}"#),
    );
    assert_eq!(out["id"], "msg_unknown");
    assert_eq!(out["created_at"], 1700000000u64);
    assert_eq!(out["instructions"], "be brief");
    assert_eq!(out["store"], false);
    assert!(out.get("parallel_tool_calls").is_none());
    assert_eq!(out["model"], "");
}

#[test]
fn usage_defaults_when_absent() {
    let out = from_json(&anthropic_usage_to_responses_usage(None));
    assert_eq!(out, value(r#"{"input_tokens":0,"output_tokens":0,"total_tokens":0}"#));
    let usage = to_json(&value(r#"{"input_tokens":3}"#));
    let out = from_json(&anthropic_usage_to_responses_usage(Some(&usage)));
    assert_eq!(
        out,
        value(r#"{"input_tokens":3,"output_tokens":0,"total_tokens":3,"input_tokens_details":{"cached_tokens":0},"output_tokens_details":{"reasoning_tokens":0}}"#)
    );
}

#[test]
fn error_bodies_keep_upstream_message_or_text() {
    let out = from_json(&anthropic_error_to_responses_error(
        529,
        br#"{"error":{"type":"overloaded_error","message":"Overloaded"}}"#,
    ));
    assert_eq!(
        out,
        value(r#"{"error":{"message":"Overloaded","type":"overloaded_error","code":529}}"#)
    );
    let long = "x".repeat(300);
    let out = from_json(&anthropic_error_to_responses_error(502, long.as_bytes()));
    assert_eq!(out["error"]["message"].as_str().unwrap().len(), 256);
    assert_eq!(out["error"]["type"], "upstream_error");
    let out = from_json(&anthropic_error_to_responses_error(400, br#"{"detail":"nope"}"#));
    assert_eq!(out["error"]["message"], r#"{"detail":"nope"}"#);
    let out = from_json(&anthropic_error_to_responses_error(500, b"bad \xff byte"));
    assert_eq!(out["error"]["message"], "bad \u{fffd} byte");
    assert_eq!(out["error"]["code"], 500);
}

#[test]
fn error_bodies_from_a_parse_given_by_the_caller() {
    let parsed = to_json(&value(r#"{"error":{"type":"overloaded_error","message":"Overloaded"}}"#));
    let out = from_json(&anthropic_error_to_responses_error_with_parse(529, Some(&parsed), "ignored"));
    assert_eq!(out["error"]["message"], "Overloaded");
    let other = to_json(&value(r#"{"detail":"nope"}"#));
    let out = from_json(&anthropic_error_to_responses_error_with_parse(400, Some(&other), "short body"));
    assert_eq!(out["error"]["message"], "short body");
}

#[test]
fn request_headers_carry_key_version_and_originator() {
    let headers = anthropic_request_headers("sk-1", true, Some("  codex_cli_rs "));
    let find = |name: &str| {
        headers
            .iter()
            .find(|(n, _)| n == name)
            .map(|(_, v)| v.clone())
    };
    assert_eq!(find("x-api-key"), Some("sk-1".to_string()));
    assert_eq!(find("anthropic-version"), Some(ANTHROPIC_VERSION.to_string()));
    assert_eq!(find("authorization"), Some("Bearer sk-1".to_string()));
    assert_eq!(find("accept"), Some("text/event-stream".to_string()));
    assert_eq!(find("originator"), Some("codex_cli_rs".to_string()));
    let plain = anthropic_request_headers("sk-1", false, Some("   "));
    assert_eq!(plain.len(), 4);
}

fn parse_frames(text: &str) -> Vec<(String, Value)> {
    text.split("\n\n")
        .filter(|frame| !frame.is_empty())
        .map(|frame| {
            let (event, data) = frame.split_once("\ndata: ").unwrap();
            (
                event.strip_prefix("event: ").unwrap().to_string(),
                serde_json::from_str(data).unwrap(),
            )
        })
        .collect()
}

fn push(converter: &mut AnthropicSseToResponsesConverter, text: &str) -> Vec<(String, Value)> {
    parse_frames(&converter.push_bytes(text.as_bytes()).unwrap())
}

fn finish(converter: &mut AnthropicSseToResponsesConverter) -> Vec<(String, Value)> {
    parse_frames(&converter.finish().unwrap())
}

#[test]
fn streams_text_tool_call_and_usage() {
    let mut converter = AnthropicSseToResponsesConverter::with_request(&Json::Object(Vec::new()));
    let stream = [
        "event: message_start\n",
        "data: {\"type\":\"message_start\",\"message\":{\"id\":\"msg_1\",\"model\":\"k3\",\"usage\":{\"input_tokens\":10}}}\n\n",
        "event: content_block_start\n",
        "data: {\"type\":\"content_block_start\",\"index\":0,\"content_block\":{\"type\":\"text\",\"text\":\"\"}}\n\n",
        "event: content_block_delta\n",
        "data: {\"type\":\"content_block_delta\",\"index\":0,\"delta\":{\"type\":\"text_delta\",\"text\":\"你好\"}}\n\n",
        "event: content_block_stop\n",
        "data: {\"type\":\"content_block_stop\",\"index\":0}\n\n",
        "event: content_block_start\n",
        "data: {\"type\":\"content_block_start\",\"index\":1,\"content_block\":{\"type\":\"tool_use\",\"id\":\"toolu_1\",\"name\":\"shell\",\"input\":{}}}\n\n",
        "event: content_block_delta\n",
        "data: {\"type\":\"content_block_delta\",\"index\":1,\"delta\":{\"type\":\"input_json_delta\",\"partial_json\":\"{\\\"command\\\":\"}}\n\n",
        "event: content_block_delta\n",
        "data: {\"type\":\"content_block_delta\",\"index\":1,\"delta\":{\"type\":\"input_json_delta\",\"partial_json\":\"[\\\"ls\\\"]}\"}}\n\n",
        "event: content_block_stop\n",
        "data: {\"type\":\"content_block_stop\",\"index\":1}\n\n",
        "event: message_delta\n",
        "data: {\"type\":\"message_delta\",\"delta\":{\"stop_reason\":\"tool_use\"},\"usage\":{\"output_tokens\":20}}\n\n",
        "event: message_stop\n",
        "data: {\"type\":\"message_stop\"}\n\n",
    ].concat();
    let mut events = push(&mut converter, &stream);
    events.extend(finish(&mut converter));

    let names: Vec<&str> = events.iter().map(|(name, _)| name.as_str()).collect();
    assert_eq!(names.first().copied(), Some("response.created"));
    assert!(names.contains(&"response.output_text.delta"));
    assert!(names.contains(&"response.function_call_arguments.delta"));
    assert_eq!(names.last().copied(), Some("response.completed"));

    let text_delta = events
        .iter()
        .find(|(name, _)| name == "response.output_text.delta")
        .map(|(_, data)| data["delta"].as_str().unwrap().to_string())
        .unwrap();
    assert_eq!(text_delta, "你好");

    let args: String = events
        .iter()
        .filter(|(name, _)| name == "response.function_call_arguments.delta")
        .map(|(_, data)| data["delta"].as_str().unwrap().to_string())
        .collect();
    assert_eq!(args, "{\"command\":[\"ls\"]}");

    let completed = events
        .iter()
        .find(|(name, _)| name == "response.completed")
        .map(|(_, data)| data.clone())
        .unwrap();
    assert_eq!(completed["response"]["status"], "completed");
    assert_eq!(completed["response"]["usage"]["output_tokens"], 20);
}

#[test]
fn error_event_yields_response_failed() {
    let mut converter = AnthropicSseToResponsesConverter::with_request(&Json::Object(Vec::new()));
    let events = push(
        &mut converter,
        "event: error\ndata: {\"type\":\"error\",\"error\":{\"type\":\"overloaded_error\",\"message\":\"Overloaded\"}}\n\n",
    );
    assert_eq!(events[0].0, "response.failed");
    assert!(events[0].1["response"]["error"]["message"]
        .as_str()
        .unwrap()
        .contains("Overloaded"));
}

#[test]
fn finish_processes_trailing_block_without_blank_line() {
    let mut converter = AnthropicSseToResponsesConverter::with_request(&Json::Object(Vec::new()));
    let stream = [
        "event: message_start\n",
        "data: {\"type\":\"message_start\",\"message\":{\"id\":\"msg_2\",\"model\":\"k3\",\"usage\":{\"input_tokens\":7}}}\n\n",
        "event: message_delta\n",
        "data: {\"type\":\"message_delta\",\"delta\":{\"stop_reason\":\"end_turn\"},\"usage\":{\"output_tokens\":42}}",
    ].concat();
    let mut events = push(&mut converter, &stream);
    events.extend(finish(&mut converter));

    let names: Vec<&str> = events.iter().map(|(name, _)| name.as_str()).collect();
    assert_eq!(names.last().copied(), Some("response.completed"));
    let completed = events
        .iter()
        .find(|(name, _)| name == "response.completed")
        .map(|(_, data)| data.clone())
        .unwrap();
    assert_eq!(completed["response"]["status"], "completed");
    assert_eq!(completed["response"]["usage"]["output_tokens"], 42);
    assert_eq!(completed["response"]["usage"]["input_tokens"], 7);
}

#[test]
fn no_completed_after_error_event() {
    let mut converter = AnthropicSseToResponsesConverter::with_request(&Json::Object(Vec::new()));
    let mut events = push(
        &mut converter,
        "event: message_start\ndata: {\"type\":\"message_start\",\"message\":{\"id\":\"msg_3\",\"model\":\"k3\",\"usage\":{\"input_tokens\":1}}}\n\n",
    );
    events.extend(push(
        &mut converter,
        "event: error\ndata: {\"type\":\"error\",\"error\":{\"type\":\"overloaded_error\",\"message\":\"Overloaded\"}}\n\n",
    ));
    events.extend(push(
        &mut converter,
        "event: message_stop\ndata: {\"type\":\"message_stop\"}\n\n",
    ));
    events.extend(finish(&mut converter));

    let names: Vec<&str> = events.iter().map(|(name, _)| name.as_str()).collect();
    assert!(names.contains(&"response.failed"));
    assert!(!names.contains(&"response.completed"));
}

#[test]
fn completion_is_reported_once() {
    let mut converter = AnthropicSseToResponsesConverter::with_request(&Json::Object(Vec::new()));
    let mut events = push(
        &mut converter,
        "event: message_start\ndata: {\"message\":{\"id\":\"m\"}}\n\nevent: message_stop\ndata: {}\n\nevent: message_stop\ndata: {}\n\n",
    );
    events.extend(finish(&mut converter));
    let completed = events.iter().filter(|(name, _)| name == "response.completed").count();
    assert_eq!(completed, 1);
}

#[test]
fn thinking_block_streams_summary_and_signature() {
    let mut converter = AnthropicSseToResponsesConverter::with_request(&Json::Object(Vec::new()));
    let events = push(
        &mut converter,
        &[
            "event: message_start\ndata: {\"message\":{\"id\":\"msg_9\",\"model\":\"k3\"}}\n\n",
            "event: content_block_start\ndata: {\"index\":0,\"content_block\":{\"type\":\"thinking\"}}\n\n",
            "event: content_block_delta\ndata: {\"index\":0,\"delta\":{\"type\":\"thinking_delta\",\"thinking\":\"hmm\"}}\n\n",
            "event: content_block_delta\ndata: {\"index\":0,\"delta\":{\"type\":\"signature_delta\",\"signature\":\"sig\"}}\n\n",
            "event: content_block_stop\ndata: {\"index\":0}\n\n",
        ].concat(),
    );
    let added = events
        .iter()
        .find(|(name, _)| name == "response.output_item.added")
        .unwrap();
    assert_eq!(added.1["item"]["id"], "msg_9-item-0");
    let done = events
        .iter()
        .find(|(name, _)| name == "response.output_item.done")
        .unwrap();
    assert_eq!(done.1["item"]["summary"][0]["text"], "hmm");
    assert_eq!(done.1["item"]["signature"], "sig");
}

#[test]
fn block_fields_join_data_lines_and_trim_event() {
    assert_eq!(
        sse_block_fields("event:  ping \ndata: a\ndata:b"),
        Some(("ping".to_string(), "a\nb".to_string()))
    );
    assert_eq!(sse_block_fields("event: ping"), None);
    let mut converter = AnthropicSseToResponsesConverter::with_request(&Json::Null);
    converter.push_text("a\n\nb");
    assert_eq!(converter.next_block(), Some("a".to_string()));
    assert_eq!(converter.next_block(), None);
    assert_eq!(converter.take_tail(), "b");
}

#[test]
fn blank_blocks_are_skipped_and_a_failure_stops_the_drain() {
    let mut converter = AnthropicSseToResponsesConverter::with_request(&Json::Null);
    let out = converter
        .push_bytes(
            "  \n\nevent: ping\n\nevent: message_start\ndata: {\"message\":{\"id\":\"m\"}}\n\nevent: error\ndata: {}\n\nevent: message_stop\ndata: {}\n\nrest"
                .as_bytes(),
        )
        .unwrap();
    let names: Vec<String> = parse_frames(&out).into_iter().map(|(name, _)| name).collect();
    assert_eq!(
        names,
        vec!["response.created", "response.in_progress", "response.failed"]
    );
    assert!(converter.is_failed());
    assert_eq!(converter.take_tail(), "event: message_stop\ndata: {}\n\nrest");
}

#[test]
fn bytes_cut_inside_a_character_wait_for_the_rest() {
    let mut converter = AnthropicSseToResponsesConverter::with_request(&Json::Null);
    let text = "event: message_start\ndata: {\"message\":{\"id\":\"你\"}}\n\n".as_bytes();
    let cut = text.iter().position(|b| *b >= 0x80).unwrap() + 1;
    assert_eq!(converter.push_bytes(&text[..cut]).unwrap(), "");
    let events = parse_frames(&converter.push_bytes(&text[cut..]).unwrap());
    assert_eq!(events[0].1["response"]["id"], "你");
}

#[test]
fn framed_events_carry_name_and_json_data() {
    let mut converter = AnthropicSseToResponsesConverter::with_request(&Json::Null);
    let framed = frame_events(&converter.fail("broken".to_string(), Some("e".to_string())));
    assert!(framed.starts_with("event: response.failed\ndata: {"));
    assert!(framed.ends_with("}\n\n"));
    let events = parse_frames(&framed);
    assert_eq!(events[0].1["response"]["error"]["code"], "e");
}

#[test]
fn fail_reports_default_error_code() {
    let mut converter = AnthropicSseToResponsesConverter::with_request(&Json::Null);
    let events = converter.fail("stream broke".to_string(), None);
    assert_eq!(events.len(), 1);
    let data = from_json(&events[0].data);
    assert_eq!(data["response"]["error"]["code"], "upstream_error");
    assert_eq!(data["response"]["status"], "failed");
    assert!(converter.fail("again".to_string(), None).is_empty());
}

#[test]
fn stopped_tool_call_reports_concatenated_arguments() {
    let mut converter = AnthropicSseToResponsesConverter::with_request(&Json::Null);
    let events = push(
        &mut converter,
        &[
            "event: message_start\ndata: {\"message\":{\"id\":\"m\"}}\n\n",
            "event: content_block_start\ndata: {\"index\":3,\"content_block\":{\"type\":\"tool_use\",\"id\":\"t\",\"name\":\"shell\"}}\n\n",
            "event: content_block_delta\ndata: {\"index\":3,\"delta\":{\"type\":\"input_json_delta\",\"partial_json\":\"{\\\"a\\\"\"}}\n\n",
            "event: content_block_delta\ndata: {\"index\":3,\"delta\":{\"type\":\"input_json_delta\",\"partial_json\":\":1}\"}}\n\n",
            "event: content_block_stop\ndata: {\"index\":3}\n\n",
        ]
        .concat(),
    );
    let deltas: String = events
        .iter()
        .filter(|(name, _)| name == "response.function_call_arguments.delta")
        .map(|(_, data)| data["delta"].as_str().unwrap().to_string())
        .collect();
    let done = events
        .iter()
        .find(|(name, _)| name == "response.function_call_arguments.done")
        .unwrap();
    assert_eq!(deltas, "{\"a\":1}");
    assert_eq!(done.1["arguments"], Value::String(deltas));
    let item = events
        .iter()
        .filter(|(name, _)| name == "response.output_item.done")
        .last()
        .unwrap();
    assert_eq!(item.1["item"]["call_id"], "t");
    assert_eq!(item.1["item"]["status"], "completed");
}

#[test]
fn each_block_takes_the_next_output_index() {
    let mut converter = AnthropicSseToResponsesConverter::with_request(&Json::Null);
    let events = push(
        &mut converter,
        &[
            "event: message_start\ndata: {\"message\":{\"id\":\"r\"}}\n\n",
            "event: content_block_start\ndata: {\"index\":0,\"content_block\":{\"type\":\"text\"}}\n\n",
            "event: content_block_start\ndata: {\"index\":0,\"content_block\":{\"type\":\"thinking\"}}\n\n",
        ]
        .concat(),
    );
    let added: Vec<&Value> = events
        .iter()
        .filter(|(name, _)| name == "response.output_item.added")
        .map(|(_, data)| data)
        .collect();
    assert_eq!(added.len(), 2);
    assert_eq!(added[0]["output_index"], 0);
    assert_eq!(added[0]["item"]["id"], "r-item-0");
    assert_eq!(added[1]["output_index"], 1);
    assert_eq!(added[1]["item"]["id"], "r-item-1");
}

#[test]
fn empty_input_still_gives_one_user_turn_and_marks_only_last_tool() {
    let out = request(
        r#"{"model":"k3","input":[],"max_output_tokens":"many","tools":[{"type":"function","name":"a"},{"type":"function","name":"b"}]}"#,
    );
    let messages = out["messages"].as_array().unwrap();
    assert_eq!(messages.len(), 1);
    assert_eq!(messages[0]["role"], "user");
    assert_eq!(messages[0]["content"].as_array().unwrap().len(), 1);
    assert_eq!(out["max_tokens"], 32000);
    let tools = out["tools"].as_array().unwrap();
    assert!(tools[0].get("cache_control").is_none());
    assert_eq!(tools[1]["cache_control"], value(r#"{"type":"ephemeral"}"#));
    assert!(out.get("system").is_none());
}
