use pig_core::json::{parse_json, quoted, Json};
use pig_core::mock::{
    anthropic_chunks, count_results, echo_usage_response, frame, openai_chunks, play, read_head,
    scenario_b_response, summary_response, take_head_byte, title_response, wire_of_response,
    HeadStep, MockChunk,
    MockResponse, MockServer, Turn, MOCK_FILE_NAME, MOCK_REASONING, MOCK_REPLY_MARKER, MOCK_TITLE,
    SCENARIO_B_FILE,
};
use pig_core::probe::{probe_label, probe_step, ProbeStep};
use pig_core::protocol::Event;
use pig_core::provider::complete_text;
use pig_core::protocol::ApiFormat;
use pig_core::stream::{ProviderEvent, Stream};
use pig_core::tool::parse_questions;

fn value(j: &Json) -> serde_json::Value {
    match j {
        Json::Null => serde_json::Value::Null,
        Json::Bool(b) => serde_json::Value::Bool(*b),
        Json::Num(n) => serde_json::from_str(&n.text).expect("number"),
        Json::Str(s) => serde_json::Value::String(s.clone()),
        Json::Arr(a) => serde_json::Value::Array(a.iter().map(value).collect()),
        Json::Obj(m) => {
            serde_json::Value::Object(m.iter().map(|(k, v)| (k.clone(), value(v))).collect())
        }
    }
}

fn value_text(j: &Json) -> String {
    value(j).to_string()
}

fn wire(chunks: &[MockChunk]) -> String {
    chunks.iter().map(|c| frame(&c.event, &value(&c.data).to_string())).collect()
}

fn hear(format: ApiFormat, chunks: &[MockChunk]) -> (String, String, Vec<(String, String)>, bool) {
    let mut stream = Stream::new(format, 1000);
    let mut text = wire(chunks);
    if matches!(format, ApiFormat::OpenAiChat) {
        text.push_str("data: [DONE]\n\n");
    }
    let (mut reasoning, mut said, mut calls, mut done) = (String::new(), String::new(), vec![], false);
    for e in stream.feed_str(&text).0 {
        match e {
            ProviderEvent::Reasoning(t) => reasoning.push_str(&t),
            ProviderEvent::Text(t) => said.push_str(&t),
            ProviderEvent::ToolCalls(v) => {
                calls.extend(v.into_iter().map(|c| (c.name, c.arguments)))
            }
            ProviderEvent::Finished => done = true,
            _ => {}
        }
    }
    (reasoning, said, calls, done)
}

#[test]
fn a_session_hears_what_the_service_plays() {
    for format in [ApiFormat::OpenAiChat, ApiFormat::AnthropicMessages] {
        let chunks = |n: usize| match format {
            ApiFormat::OpenAiChat => openai_chunks("hi", n),
            ApiFormat::AnthropicMessages => anthropic_chunks("hi", n),
        };
        let (reasoning, _, calls, _) = hear(format, &chunks(0));
        assert_eq!(reasoning, MOCK_REASONING);
        assert_eq!(calls, [("Read".to_string(), format!("{{\"path\": \"{MOCK_FILE_NAME}\"}}"))]);
        let (_, said, calls, _) = hear(format, &chunks(1));
        assert!(said.contains(MOCK_REPLY_MARKER) && calls.is_empty(), "{said}");
    }
}

#[test]
fn the_name_of_the_file_is_written_as_json() {
    let name = "a\"b\\c\n";
    for n in 0..2 {
        let (_, _, calls, _) = hear(ApiFormat::OpenAiChat, &scenario_b_response(n, name));
        let args = parse_json(&calls[0].1).expect("JSON");
        assert_eq!(args.str_at("path").unwrap(), name);
    }
    let (_, _, calls, _) = hear(ApiFormat::OpenAiChat, &scenario_b_response(1, SCENARIO_B_FILE));
    assert_eq!(
        calls[0].1,
        r#"{"new_string":"LINE2","old_string":"line2","path":"src/hello.txt"}"#
    );
    assert_eq!(quoted("x"), r#""x""#);
    assert_eq!(quoted(name), r#""a\"b\\c\n""#);
}

#[test]
fn answers_are_written_for_the_wire() {
    let failed = wire_of_response(&MockResponse::Failure);
    assert_eq!(
        failed.head,
        "HTTP/1.1 500 Internal Server Error\r\ncontent-length: 2\r\n\r\n{}"
    );
    assert!(failed.frames.is_empty() && failed.tail.is_empty());
    let value = parse_json(r#"{"b":"é","a":[1,null]}"#).unwrap();
    let whole = wire_of_response(&MockResponse::Whole(value));
    assert_eq!(
        whole.head,
        "HTTP/1.1 200 OK\r\ncontent-type: application/json\r\ncontent-length: 23\r\n\r\n{\"a\":[1,null],\"b\":\"é\"}"
    );
    let chunks = scenario_b_response(0, SCENARIO_B_FILE);
    let wanted: Vec<String> =
        chunks.iter().map(|c| frame(&c.event, &value_text(&c.data))).collect();
    let sent = wire_of_response(&MockResponse::Stream { chunks, done_line: true });
    assert!(sent.head.ends_with("content-type: text/event-stream\r\nconnection: close\r\n\r\n"));
    assert_eq!(sent.frames, wanted);
    assert_eq!(sent.tail, "data: [DONE]\n\n");
    let quiet = wire_of_response(&MockResponse::Stream { chunks: vec![], done_line: false });
    assert_eq!(quiet.tail, "");
}

#[test]
fn arguments_are_json_of_the_tool() {
    for n in 0..3 {
        let (_, _, calls, _) = hear(ApiFormat::OpenAiChat, &scenario_b_response(n, SCENARIO_B_FILE));
        let args = parse_json(&calls[0].1).expect("JSON");
        match n {
            0 => assert_eq!(args.str_at("content").unwrap(), "hello\nline2\nline3\n"),
            1 => assert_eq!(args.str_at("new_string").unwrap(), "LINE2"),
            _ => assert_eq!(args.str_at("command").unwrap(), "printf '%s\\n' MOCK_BASH_OK"),
        }
    }
    for body in ["TODO_SCENARIO", "SCENARIO_Q", "DANGER_SCENARIO", "SUBJECT_SCENARIO",
        "READONLY_SCENARIO", "PLAN_EXIT_SCENARIO", "PLAN_ENTER_SCENARIO", "MEDIA_SCENARIO"] {
        let (_, _, calls, _) = hear(ApiFormat::OpenAiChat, &openai_chunks(body, 0));
        assert!(parse_json(&calls[0].1).is_some(), "{body}");
        let (_, said, calls, done) = hear(ApiFormat::OpenAiChat, &openai_chunks(body, 9));
        assert!(done);
        assert!(calls.len() == 1 || said.starts_with("MOCK_"), "{body}: {said}");
    }
    let (_, _, calls, _) = hear(ApiFormat::AnthropicMessages, &anthropic_chunks("SCENARIO_Q", 0));
    let asked = parse_questions(&parse_json(&calls[0].1).unwrap()).unwrap();
    assert_eq!((asked.len(), asked[0].options.len()), (1, 2));
}

#[test]
fn scenes_that_go_by_their_calls() {
    let body = r#"{"messages":[{"role":"user","content":"TODO_SCENARIO"},
        {"role":"assistant","tool_calls":[{"function":{"name":"TodoList"}}]}]}"#;
    let (_, said, _, _) = hear(ApiFormat::OpenAiChat, &openai_chunks(body, 1));
    assert_eq!(said, "MOCK_TODO_OK");
    let (_, said, _, _) = hear(ApiFormat::OpenAiChat, &openai_chunks("PLAN_EXIT_SCENARIO 已切换到", 1));
    assert!(said.is_empty());
    let (_, said, _, _) = hear(ApiFormat::OpenAiChat, &openai_chunks("PLAN_EXIT_SCENARIO", 1));
    assert_eq!(said, "MOCK_PLAN_EXIT_DONE");
}

#[test]
fn requests_are_echoed() {
    let body = r#"{"messages":[{"role":"system","content":"be good"},{"role":"user","content":"ECHO_HISTORY"}]}"#;
    assert_eq!(hear(ApiFormat::OpenAiChat, &openai_chunks(body, 0)).1, "HISTORY_COUNT:2");
    let body = body.replace("ECHO_HISTORY", "ECHO_SYSTEM");
    assert_eq!(hear(ApiFormat::OpenAiChat, &openai_chunks(&body, 0)).1, "be good");
    assert_eq!(hear(ApiFormat::OpenAiChat, &openai_chunks("ECHO_SYSTEM", 0)).1, "(no system message)");
    let last = echo_usage_response("ECHO_USAGE is 950 x").pop().unwrap();
    let usage = last.data.get("usage").unwrap();
    assert_eq!(usage.u64_at("total_tokens"), Some(950));
    let none = echo_usage_response("ECHO_USAGE 99999999999999999999").pop().unwrap();
    assert_eq!(none.data.get("usage").unwrap().u64_at("total_tokens"), Some(0));
}

#[test]
fn a_request_is_taken_from_the_wire() {
    let head = b"POST /v1/messages HTTP/1.1\r\nhost: x\r\nContent-Length: 12\r\n\r\n";
    let mut got = Vec::new();
    for (i, b) in head.iter().enumerate() {
        let step = take_head_byte(&mut got, *b);
        assert_eq!(step, if i + 1 == head.len() { HeadStep::Complete } else { HeadStep::More });
    }
    assert_eq!(read_head(&got), ("/v1/messages".to_string(), 12));
    assert_eq!(read_head(b"\r\n"), ("/".to_string(), 0));
    assert_eq!(read_head(b"GET /x\r\ncontent-length: z\r\ncontent-length: 3\r\n\r\n").1, 3);
    let mut long = vec![b'a'; 65536];
    assert_eq!(take_head_byte(&mut long, b'a'), HeadStep::TooLong);
    assert_eq!(count_results(r#""role":"tool" "role": "tool" tool_result tool_result"#), 4);
}

#[test]
fn a_service_fails_once() {
    let mut server = MockServer::new();
    assert_eq!(server.respond("/v1/chat/completions", "FAIL_ONCE_500"), MockResponse::Failure);
    assert!(matches!(
        server.respond("/v1/chat/completions", "FAIL_ONCE_500"),
        MockResponse::Stream { done_line: true, .. }
    ));
    assert!(matches!(server.respond("/v1/messages", "x"), MockResponse::Stream { done_line: false, .. }));
}

#[test]
fn whole_answers_can_be_read() {
    for (format, anthropic) in [(ApiFormat::OpenAiChat, false), (ApiFormat::AnthropicMessages, true)] {
        let text = value(&title_response(anthropic)).to_string();
        let title = complete_text(format, &text).unwrap().unwrap();
        assert_eq!(title, format!("{{\"title\":\"{MOCK_TITLE}\"}}"));
        let text = value(&summary_response(anthropic, "x").unwrap()).to_string();
        assert!(complete_text(format, &text).unwrap().unwrap().starts_with("MOCK_SUMMARY_OK"));
        assert!(summary_response(anthropic, "FAIL_COMPACT").is_none());
    }
    let mut server = MockServer::new();
    let body = "{\"stream\":false} 为编程会话生成标题";
    assert!(matches!(server.respond("/", body), MockResponse::Whole(_)));
    assert_eq!(server.respond("/", "{\"stream\":false} FAIL_COMPACT"), MockResponse::Failure);
}

#[test]
fn a_turn_says_a_word_and_stops() {
    let (_, said, calls, done) = hear(ApiFormat::OpenAiChat, &play(Turn::Say("词")));
    assert_eq!((said.as_str(), calls.len(), done), ("词", 0, true));
    let cut = play(Turn::Call { id: "i", name: "n", arguments: "{\"k\":\"一二三\"}" });
    assert_eq!(hear(ApiFormat::OpenAiChat, &cut).2[0].1, "{\"k\":\"一二三\"}");
}

#[test]
fn the_probe_tells_and_allows() {
    let e = Event::TextDelta { item_id: "i".to_string(), delta: "你好".to_string() };
    assert_eq!(probe_label(&e).unwrap(), "TextDelta(2字)");
    assert_eq!(probe_step(&e), ProbeStep::Wait);
    let e = Event::ApprovalRequested {
        request_id: "r".to_string(),
        tool: "Bash".to_string(),
        detail: String::new(),
    };
    assert_eq!(probe_label(&e).unwrap(), "ApprovalRequested(Bash) → 自动批准");
    assert_eq!(probe_step(&e), ProbeStep::Approve("r".to_string()));
    assert_eq!(probe_step(&Event::TurnAborted), ProbeStep::Stop);
    assert!(probe_label(&Event::FileReverted { path: String::new() }).is_none());
}
