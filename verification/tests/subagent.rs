use pig_core::agent::builtin_profiles;
use pig_core::protocol::{ApiFormat, Event, ExecMode, SessionMeta};
use pig_core::permissions::PermissionRules;
use pig_core::provider::{ChatMsg, ResolvedModel, ToolCall};
use pig_core::session::{Sample, Session};
use pig_core::stream::ProviderEvent;
use pig_core::subagent::{
    agent_command, agent_message_line, agent_meta_line, child_model, child_tools, choose_profile, closing_lines,
    count_child,    exit_code, finished_note, is_long_result, missing_agent, next_agent_id, notification,
    read_wish, result_path, running_note, still_running, truncate_agent_result, ChildCall, Drive,
    DriveEnd, ProgressSink, Used, MAX_RESULT_CHARS,
};
use pig_core::task::{TaskKind, TaskRegistry};
use pig_core::tool::Tool;

fn call(arguments: &str) -> ToolCall {
    ToolCall { id: "c".to_string(), name: "Agent".to_string(), arguments: arguments.to_string() }
}

#[test]
fn wishes_are_read() {
    let w = read_wish(&call(r#"{"description":"d","prompt":"p"}"#), ExecMode::AutoEdit).unwrap();
    assert_eq!((w.prompt.as_str(), w.background, w.resume.as_str()), ("p", false, ""));
    assert!(read_wish(&call("{}"), ExecMode::AutoEdit).is_err());
    let profiles = builtin_profiles();
    assert_eq!(choose_profile(&w, &profiles, None).unwrap().name, "general-purpose");
    let e = read_wish(&call(r#"{"description":"d","prompt":"p","subagent_type":"explore"}"#), ExecMode::AutoEdit).unwrap();
    assert_eq!(choose_profile(&e, &profiles, None).unwrap().name, "explore");
    let n = read_wish(&call(r#"{"description":"d","prompt":"p","subagent_type":"nobody"}"#), ExecMode::AutoEdit).unwrap();
    assert!(choose_profile(&n, &profiles, None).is_err());
}

#[test]
fn an_agent_has_fewer_tools_than_the_session() {
    let profiles = builtin_profiles();
    let explore = child_tools(&profiles[1], true);
    assert!(explore.contains(&Tool::Read) && !explore.contains(&Tool::Write));
    assert!(explore.contains(&Tool::ReadMediaFile));
    assert!(!child_tools(&profiles[1], false).contains(&Tool::ReadMediaFile));
    assert!(child_tools(&profiles[0], true).contains(&Tool::Write));
}

#[test]
fn an_agent_works_until_it_has_an_answer() {
    let profiles = builtin_profiles();
    let w = read_wish(&call(r#"{"description":"d","prompt":"p"}"#), ExecMode::AutoEdit).unwrap();
    let mut d = Drive::new("a1", &profiles[1], &w, true, "sys".to_string(), vec![]);
    assert_eq!(d.history.len(), 2);
    assert!(d.begin_step().is_some());
    let mut sample = Sample::new();
    let calls = vec![
        ToolCall { id: "1".to_string(), name: "Read".to_string(), arguments: "{}".to_string() },
        ToolCall { id: "2".to_string(), name: "Write".to_string(), arguments: "{}".to_string() },
    ];
    let e = ProviderEvent::ToolCalls(calls);
    d.take_event(&e);
    sample.hear(&e);
    let mut run = d.end_reply(&sample);
    let sink = ProgressSink::Foreground { parent_item_id: "i".to_string() };
    let (_, first) = d.begin_call(&mut run, &sink);
    assert!(matches!(first, ChildCall::Gate { tool: Tool::Read, .. }));
    d.answer(&mut run, "ok".to_string(), vec![]);
    let (_, second) = d.begin_call(&mut run, &sink);
    assert!(matches!(second, ChildCall::Unknown));
    assert!(run.is_over());
    d.begin_step();
    let mut sample = Sample::new();
    let e = ProviderEvent::Text("answer".to_string());
    d.take_event(&e);
    sample.hear(&e);
    d.end_reply(&sample);
    let r = d.result(&DriveEnd::Completed, &Err(String::new()));
    assert!(r.completed && !r.is_error && r.turns == 2);
    assert!(r.result_text.contains("answer"));
    assert!(finished_note("a1", "explore", &r).contains("a1"));
    assert_eq!(exit_code(&r), 0);
    assert!(notification("a1", "explore", &r).is_some());
    let gone = d.result(&DriveEnd::Cancelled, &Err(String::new()));
    assert!(gone.cancelled && notification("a1", "explore", &gone).is_none());
    let failed = d.result(&DriveEnd::Failed("net".to_string()), &Err(String::new()));
    assert!(failed.is_error && exit_code(&failed) != 0);
    assert!(closing_lines(&failed).contains("net"));
}

#[test]
fn the_steps_of_an_agent_are_counted() {
    let mut profiles = builtin_profiles();
    profiles[0].max_turns = Some(1);
    let w = read_wish(&call(r#"{"description":"d","prompt":"p"}"#), ExecMode::AutoEdit).unwrap();
    let mut d = Drive::new("a1", &profiles[0], &w, true, "sys".to_string(), vec![]);
    assert!(d.begin_step().is_some());
    assert!(d.begin_step().is_none());
    assert!(!d.result(&DriveEnd::UsedUp, &Err(String::new())).completed);
}

#[test]
fn long_results_go_to_a_file() {
    let long = "x".repeat(MAX_RESULT_CHARS + 1);
    assert!(is_long_result(&long) && !is_long_result("short"));
    let cut = truncate_agent_result(&long, &Ok("/w/r.md".to_string()));
    assert!(cut.contains("/w/r.md") && cut.chars().count() < long.chars().count() + 200);
    assert_eq!(truncate_agent_result("short", &Ok("/w/r.md".to_string())), "short");
    assert!(result_path("/w", "a1").starts_with("/w/"));
}

#[test]
fn agents_are_named_and_told_of() {
    let mut seq: u64 = 0;
    let a = next_agent_id(&mut seq, 100);
    let b = next_agent_id(&mut seq, 100);
    assert_ne!(a, b);
    assert!(missing_agent("a9", &["a1.jsonl".to_string()]).contains("a9"));
    let mut tasks = TaskRegistry::new();
    let id = tasks.register("x", "/w", TaskKind::Agent { agent_id: "a1".to_string() }, 1);
    assert!(still_running(&tasks, "a1").unwrap().contains(&id));
    assert!(still_running(&tasks, "a2").is_none());
    assert!(running_note("a1", &id).contains(&id));
    assert!(agent_command("explore", "look").contains("explore"));
    let head = agent_meta_line("a1", "explore", "d", "m", "P", 7);
    assert_eq!(head.u64_at("created_at"), Some(7));
    let line = agent_message_line(&ChatMsg::user("hi".to_string()));
    assert!(format!("{line:?}").contains("hi"));
    let sink = ProgressSink::Background { task_id: "b1".to_string() };
    assert_eq!(sink.item_prefix(), "b1");
    assert!(matches!(
        ProgressSink::Foreground { parent_item_id: "i".to_string() }.report("n".to_string()),
        Ok(Event::SubagentProgress { .. })
    ));
}

#[test]
fn an_agent_without_a_model_takes_that_of_the_session() {
    let parent = ResolvedModel {
        base_url: "http://h".to_string(),
        api_key: "k".to_string(),
        model: "m".to_string(),
        context_window: 10,
        max_output_tokens: 1,
        api_format: ApiFormat::OpenAiChat,
        reasoning_params: None,
        cap_web_search: false,
        web_search_tool: None,
        input_image: false,
        provider_name: "P".to_string(),
    };
    let mut profiles = builtin_profiles();
    assert_eq!(child_model(None, &parent, &profiles[0]).unwrap().model, "m");
    profiles[0].model = Some("x".to_string());
    assert_eq!(
        child_model(None, &parent, &profiles[0]).unwrap_err(),
        "未加载应用配置，无法解析子代理指定模型"
    );
}

#[test]
fn the_tokens_of_an_agent_count_for_the_turn() {
    let meta = SessionMeta {
        id: "s".to_string(),
        title: String::new(),
        title_custom: false,
        cwd: "/w".to_string(),
        created_at: 0,
        updated_at: 0,
        pinned: false,
        archived: false,
        provider_id: None,
        model_id: None,
        reasoning_level: None,
        exec_mode: ExecMode::AutoEdit,
        fs_read_outside: false,
        fs_write_outside: false,
    };
    let mut s = Session::create(&meta, PermissionRules::empty()).0;
    count_child(&mut s, Used { input: 3, cache_read: 2, output: 1 });
    count_child(&mut s, Used { input: 3, cache_read: 2, output: 1 });
    assert_eq!((s.turn.input, s.turn.cache_read, s.turn.output), (6, 4, 2));
    assert_eq!((s.turn.api_steps, s.last_total_tokens), (0, None));
}
