use pig_core::json::{parse_json, Json};
use pig_core::protocol::ApiFormat;
use pig_core::provider::{
    anthropic_body, anthropic_web_search_tool, backoff_delay, complete_text, copied_msgs,
    msg_to_json, net_err, openai_body, openai_web_search_tool, request_url, retry_step, retryable_status,
    test_provider, test_request, to_anthropic_messages, to_openai_messages, ChatImage, ChatMsg,
    ResolvedModel, Retry, ToolCall,
};
use pig_core::stream::{finish, ProviderEvent, Stream, StreamEnd};

fn json(text: &str) -> Json {
    parse_json(text).expect("JSON")
}

fn text(j: &Json, key: &str) -> String {
    j.str_at(key).expect(key)
}

fn items<'a>(j: &'a Json, key: &str) -> &'a Vec<Json> {
    j.arr_at(key).expect(key)
}

fn call(id: &str, name: &str) -> ToolCall {
    ToolCall { id: id.into(), name: name.into(), arguments: "{}".into() }
}

#[test]
fn finish_filters_nameless_tool_calls() {
    let mut tool_calls = vec![call("a", ""), call("b", "Bash")];
    let events = finish(&mut tool_calls);
    assert!(tool_calls.is_empty());
    assert_eq!(events.len(), 2);
    match &events[0] {
        ProviderEvent::ToolCalls(calls) => {
            assert_eq!(calls.len(), 1, "无名调用应被过滤");
            assert_eq!(calls[0].name, "Bash");
            assert_eq!(calls[0].id, "b");
        }
        other => panic!("应滤出剩余的命名调用: {other:?}"),
    }
    assert!(matches!(events[1], ProviderEvent::Finished));
}

#[test]
fn finish_all_nameless_emits_no_tool_calls() {
    let mut tool_calls = vec![call("", "")];
    let events = finish(&mut tool_calls);
    assert!(tool_calls.is_empty());
    assert!(matches!(events[0], ProviderEvent::Finished));
    assert_eq!(events.len(), 1, "全是无名调用时不应发 ToolCalls");
}

#[test]
fn anthropic_tool_result_with_images_becomes_blocks() {
    let messages = vec![ChatMsg::tool_result_with_images(
        "c1",
        "已读取图片 x.png".into(),
        vec![ChatImage {
            media_type: "image/png".into(),
            data_base64: "QUJD".into(),
            label: Some("x.png".into()),
        }],
    )];
    let (_system, out) = to_anthropic_messages(&messages);
    let content = items(&out[0], "content");
    assert_eq!(text(&content[0], "type"), "tool_result");
    let blocks = items(&content[0], "content");
    assert_eq!(text(&blocks[0], "type"), "image");
    let source = blocks[0].get("source").unwrap();
    assert_eq!(text(source, "type"), "base64");
    assert_eq!(text(source, "media_type"), "image/png");
    assert_eq!(text(source, "data"), "QUJD");
    assert_eq!(text(&blocks[1], "type"), "text");
    assert_eq!(text(&blocks[1], "text"), "已读取图片 x.png");
}

#[test]
fn anthropic_tool_result_without_images_stays_string() {
    let messages = vec![ChatMsg::tool_result("c1", "ok".into())];
    let (_system, out) = to_anthropic_messages(&messages);
    let content = items(&out[0], "content");
    assert_eq!(text(&content[0], "type"), "tool_result");
    assert_eq!(text(&content[0], "content"), "ok", "无图时 content 保持字符串");
}

#[test]
fn openai_tool_result_with_images_splits_into_two_messages() {
    let messages = vec![ChatMsg::tool_result_with_images(
        "c1",
        "已读取图片 x.png".into(),
        vec![ChatImage {
            media_type: "image/jpeg".into(),
            data_base64: "QUJD".into(),
            label: Some("x.png".into()),
        }],
    )];
    let out = to_openai_messages(&messages);
    assert_eq!(out.len(), 2, "拆成 tool 文本 + user 图片两条");
    assert_eq!(text(&out[0], "role"), "tool");
    assert_eq!(text(&out[0], "tool_call_id"), "c1");
    assert_eq!(text(&out[0], "content"), "已读取图片 x.png");
    assert!(out[0].get("images").is_none(), "tool 消息不带图");
    assert_eq!(text(&out[1], "role"), "user");
    let parts = items(&out[1], "content");
    assert_eq!(text(&parts[0], "type"), "text");
    assert!(text(&parts[0], "text").contains("x.png"));
    assert_eq!(text(&parts[1], "type"), "image_url");
    let url = parts[1].get("image_url").unwrap();
    assert_eq!(text(url, "url"), "data:image/jpeg;base64,QUJD");
}

#[test]
fn openai_no_image_matches_plain_serde() {
    let messages = vec![
        ChatMsg::system("s".into()),
        ChatMsg::user("u".into()),
        ChatMsg::tool_result("c1", "ok".into()),
    ];
    let built = to_openai_messages(&messages);
    let direct: Vec<Json> = messages.iter().map(msg_to_json).collect();
    assert_eq!(built, direct);
    assert_eq!(built[1], json(r#"{"content": "u", "role": "user"}"#));
}

#[test]
fn anthropic_messages_echo_thinking_first() {
    let messages = vec![
        ChatMsg::system("s".into()),
        ChatMsg::user("u".into()),
        ChatMsg::assistant("回答".into(), vec![call("c1", "Bash")], Some("想了想".into())),
        ChatMsg::tool_result("c1", "ok".into()),
    ];
    let (_system, out) = to_anthropic_messages(&messages);
    let assistant = &out[1];
    assert_eq!(text(assistant, "role"), "assistant");
    let content = items(assistant, "content");
    assert_eq!(text(&content[0], "type"), "thinking");
    assert_eq!(text(&content[0], "thinking"), "想了想");
    assert_eq!(text(&content[1], "type"), "text");
    assert_eq!(text(&content[2], "type"), "tool_use");
}

#[test]
fn anthropic_messages_skip_empty_thinking() {
    let messages = vec![ChatMsg::assistant("回答".into(), vec![], None)];
    let (_system, out) = to_anthropic_messages(&messages);
    let content = items(&out[0], "content");
    assert_eq!(content.len(), 1, "无思考内容时不应有 thinking 块");
    assert_eq!(text(&content[0], "type"), "text");
}

fn search_model(cap: bool, tool: Option<Json>) -> ResolvedModel {
    ResolvedModel {
        base_url: "http://localhost".into(),
        api_key: String::new(),
        model: "m".into(),
        context_window: 0,
        max_output_tokens: 0,
        api_format: ApiFormat::AnthropicMessages,
        reasoning_params: None,
        cap_web_search: cap,
        web_search_tool: tool,
        input_image: false,
        provider_name: "p".into(),
    }
}

#[test]
fn anthropic_web_search_tool_injection() {
    assert!(anthropic_web_search_tool(&search_model(false, None)).is_none());
    let tool = anthropic_web_search_tool(&search_model(true, None)).expect("cap 开应注入");
    assert_eq!(tool, json(r#"{"type": "web_search_20250305", "name": "web_search"}"#));
    let custom = r#"{"type": "web_search_20250305", "name": "web_search", "max_uses": 3}"#;
    assert_eq!(
        anthropic_web_search_tool(&search_model(true, Some(json(custom)))).unwrap(),
        json(custom)
    );
}

#[test]
fn openai_web_search_tool_injection() {
    assert!(openai_web_search_tool(&search_model(false, None)).is_none());
    assert!(openai_web_search_tool(&search_model(true, None)).is_none());
    let custom = r#"{"type": "web_search", "web_search": {"enable": true, "search_result": true}}"#;
    assert_eq!(
        openai_web_search_tool(&search_model(true, Some(json(custom)))).unwrap(),
        json(custom)
    );
}

#[test]
fn a_stream_is_read_however_it_is_cut() {
    let whole = "data: {\"choices\":[{\"delta\":{\"content\":\"你好\"}}]}\n\n\
                 data: {\"choices\":[{\"delta\":{},\"finish_reason\":\"stop\"}]}\n\ndata: [DONE]\n\n";
    let mut told: Vec<String> = vec![];
    let letters: Vec<char> = whole.chars().collect();
    for cut in [1, 7, 30, 47, letters.len()] {
        let mut reader = Stream::new(ApiFormat::OpenAiChat, 1000);
        let mut text = String::new();
        let mut ended = false;
        for piece in letters.chunks(cut) {
            let (events, end) = reader.feed_str(&piece.iter().collect::<String>());
            for e in events {
                if let ProviderEvent::Text(t) = e {
                    text.push_str(&t);
                }
            }
            ended = ended || matches!(end, StreamEnd::Done);
        }
        assert!(ended, "cut {cut}");
        told.push(text);
    }
    assert!(told.iter().all(|t| t == "你好"), "{told:?}");
}

#[test]
fn an_answer_is_read_from_either_format() {
    let openai = r#"{"choices":[{"message":{"content":"ok"}}]}"#;
    assert_eq!(complete_text(ApiFormat::OpenAiChat, openai), Some(Ok("ok".to_string())));
    let anthropic = r#"{"content":[{"type":"text","text":"ok"}]}"#;
    assert_eq!(
        complete_text(ApiFormat::AnthropicMessages, anthropic),
        Some(Ok("ok".to_string()))
    );
    assert_eq!(complete_text(ApiFormat::OpenAiChat, "no json"), None);
}

#[test]
fn busy_servers_are_asked_again() {
    assert!(retryable_status(429) && retryable_status(503));
    assert!(!retryable_status(400));
    assert!(backoff_delay(0, None) > 0);
    assert!(matches!(retry_step(0, Some(400), None), Retry::Stop));
    assert!(matches!(retry_step(0, Some(503), None), Retry::After(_)));
    assert!(matches!(retry_step(0, Some(429), Some("7")), Retry::After(7)));
}

#[test]
fn bodies_hold_what_the_service_needs() {
    let mut model = search_model(false, None);
    model.max_output_tokens = 7;
    model.reasoning_params = Some(json(r#"{"effort": "high"}"#));
    let messages = vec![ChatMsg::system("sys".into()), ChatMsg::user("hi".into())];
    let copies = copied_msgs(&messages);
    assert_eq!((copies.len(), copies[1].content.as_deref()), (2, Some("hi")));
    let tool = r#"{"type":"function","function":{"name":"T","description":"d","parameters":{}}}"#;
    let open = openai_body(&model, &messages, vec![json(tool)]);
    let whole = format!(
        r#"{{"effort":"high","max_tokens":7,"messages":[{{"role":"system","content":"sys"}},{{"role":"user","content":"hi"}}],"model":"m","stream":true,"stream_options":{{"include_usage":true}},"tools":[{tool}]}}"#
    );
    for key in ["max_tokens", "model", "stream", "stream_options", "tools", "effort"] {
        assert_eq!(open.get(key), json(&whole).get(key), "{key}");
    }
    assert_eq!(items(&open, "messages").len(), 2);
    let anthropic = anthropic_body(&model, &messages, &[json(tool)]);
    assert_eq!(text(&anthropic, "system"), "sys");
    assert_eq!(items(&anthropic, "messages").len(), 1);
    assert_eq!(
        items(&anthropic, "tools")[0],
        json(r#"{"name":"T","description":"d","input_schema":{}}"#)
    );
    assert!(anthropic_body(&model, &messages[1..], &[]).get("tools").is_none());
    assert!(anthropic_body(&model, &messages[1..], &[]).get("system").is_none());
}

#[test]
fn requests_go_to_the_address_of_their_format() {
    assert_eq!(request_url(ApiFormat::OpenAiChat, "http://h/v1"), "http://h/v1/chat/completions");
    assert_eq!(request_url(ApiFormat::AnthropicMessages, "http://h/v1"), "http://h/v1/messages");
    assert_eq!(request_url(ApiFormat::AnthropicMessages, "http://h"), "http://h/v1/messages");
    let (url, body) = test_request(ApiFormat::OpenAiChat, "http://h//", "m");
    assert_eq!(url, "http://h/chat/completions");
    assert_eq!((text(&body, "model"), body.u64_at("max_tokens")), ("m".to_string(), Some(1)));
    assert_eq!(test_provider(true, "200 OK", "").unwrap(), "连接成功（HTTP 200 OK）");
    assert!(test_provider(false, "401", "no key").unwrap_err().contains("no key"));
    assert_eq!(net_err("a", Some("b")), "网络错误: a（b）");
    assert_eq!(net_err("a", Some("a")), "网络错误: a");
    assert_eq!(net_err("a", None), "网络错误: a");
}

#[test]
fn bytes_that_are_no_text_are_replaced() {
    let mut reader = Stream::new(ApiFormat::OpenAiChat, 1000);
    let (events, _) =
        reader.feed(b"data: {\"choices\":[{\"delta\":{\"content\":\"a\xFF\"}}]}\n\n");
    assert!(events.iter().any(|e| matches!(e, ProviderEvent::Text(t) if t == "a\u{FFFD}")));
}
