use pig_core::compact::{compact_history, compaction_prompt, needs_compact, write_compact_note};
use pig_core::effect::{stamp, Effect};
use pig_core::json::Json;
use pig_core::manager::{
    choose_model, context_usage, model_label, plan_session, provider_to_test, ready_endpoint, resolve_model,
    update_meta, AfterTurn, Manager, NewSession, Queued, Sending,
};
use pig_core::gate::Verdict;
use pig_core::permissions::PermissionRules;
use pig_core::protocol::{
    ApiFormat, AppConfig, ApprovalDecision, EditDiff, Event, ExecMode, ModelConfig, ProviderConfig,
    SessionMeta, TodoItem, TodoStatus,
};
use pig_core::provider::{ChatMsg, ToolCall};
use pig_core::rollout::{
    media_dir, next_media_index, rebuild_history, record_lines, rehydrate_image, user_display_text,
    ImageRef, RolloutRecord,
};
use pig_core::session::{
    expand_file_references, flush_turn_changes, recorded_cwd, revert_file, CallResult, Flow,
    ModelSelection, ReplyEnd, Route, Sample, Sent, Session, StepOutcome, StepRun,
};
use pig_core::stream::ProviderEvent;

fn meta(id: &str) -> SessionMeta {
    SessionMeta {
        id: id.to_string(),
        title: "t".to_string(),
        title_custom: false,
        cwd: "/w".to_string(),
        created_at: 1,
        updated_at: 1,
        pinned: false,
        archived: false,
        provider_id: None,
        model_id: None,
        reasoning_level: None,
        exec_mode: ExecMode::AutoEdit,
        fs_read_outside: false,
        fs_write_outside: false,
    }
}

fn config() -> AppConfig {
    let models = vec![ModelConfig::new("m", 1000, 100), ModelConfig::new("n", 2000, 100)];
    AppConfig {
        providers: vec![ProviderConfig {
            id: "p".to_string(),
            name: "P".to_string(),
            base_url: "http://h".to_string(),
            api_key: "k".to_string(),
            api_format: ApiFormat::OpenAiChat,
            enabled: true,
            models,
        }],
        default_provider: "p".to_string(),
        default_model: "m".to_string(),
    }
}

fn call(id: &str, name: &str, arguments: &str) -> ToolCall {
    ToolCall { id: id.to_string(), name: name.to_string(), arguments: arguments.to_string() }
}

fn session() -> Session {
    Session::create(&meta("s1"), PermissionRules::empty()).0
}

fn sent(content: &str) -> Sent {
    Sent { content: content.to_string(), files: vec![], expanded: content.to_string(), pictures: vec![] }
}

fn events(effects: &[Effect]) -> Vec<&Event> {
    effects
        .iter()
        .filter_map(|e| match e {
            Effect::Emit { event } => Some(event),
            _ => None,
        })
        .collect()
}

#[test]
fn a_turn_goes_from_words_to_calls_to_the_end() {
    let mut s = session();
    s.set_mode(ExecMode::AutoEdit);
    let (turn, effects) = s.begin_turn("sys".to_string(), &sent("hello"), true);
    assert!(matches!(events(&effects)[0], Event::TurnStarted { .. } | Event::UserMessage { .. }));
    assert_eq!(s.history.len(), 2);
    assert_eq!(s.history[0].role, "system");
    let mut sample = Sample::new();
    for e in [
        ProviderEvent::Reasoning("r".to_string()),
        ProviderEvent::Text("say".to_string()),
        ProviderEvent::ToolCalls(vec![call("c1", "Read", r#"{"path":"a"}"#), call("c2", "Nope", "{}")]),
        ProviderEvent::Usage { input: 5, cache_read: 2, output: 3, used: 10, total: 1000 },
    ] {
        s.take_event(&turn, 0, &e);
        assert_eq!(sample.hear(&e), Flow::Going);
    }
    assert_eq!(sample.hear(&ProviderEvent::Finished), Flow::Finished);
    assert_eq!((s.last_total_tokens, s.turn.input, s.turn.output), (Some(10), 5, 3));
    let (_, next) = s.end_reply(&sample, &turn, 0, 50, Some(20), ReplyEnd::Done);
    assert_eq!(next, StepOutcome::Tools);
    assert_eq!((s.turn.api_ms, s.turn.ttft_ms, s.turn.api_steps), (50, 20, 1));
    let mut run = StepRun::new(&s, &turn, &sample);
    assert!(!run.is_over());
    let (route, shown) = s.begin_call(&mut run, true);
    assert!(matches!(route, Route::Gate));
    assert!(matches!(events(&shown)[0], Event::ToolCallBegin { .. }));
    s.finish_call(
        &mut run,
        CallResult { output: "out".to_string(), is_error: false, edit: None, images: vec![] },
    );
    let (_, _) = s.begin_call(&mut run, true);
    s.refuse_call(&mut run, "未知工具: Nope".to_string());
    assert!(run.is_over());
    let answers: Vec<&str> =
        s.history.iter().filter_map(|m| m.tool_call_id.as_deref()).collect();
    assert_eq!(answers, ["c1", "c2"]);
    let end = s.end_turn(99, &[]);
    assert!(events(&end).iter().any(|e| matches!(e, Event::TurnComplete { duration_ms: 99, .. })));
}

#[test]
fn a_broken_reply_ends_the_turn() {
    let mut s = session();
    let (turn, _) = s.begin_turn("sys".to_string(), &sent("hello"), true);
    let before = s.history.len();
    let mut sample = Sample::new();
    sample.hear(&ProviderEvent::Text("half".to_string()));
    let (_, next) = s.end_reply(&sample, &turn, 0, 1, None, ReplyEnd::Cancelled);
    assert_eq!(next, StepOutcome::Ended);
    assert_eq!(s.history.len(), before);
    let (_, next) = s.end_reply(&sample, &turn, 0, 1, None, ReplyEnd::Done);
    assert_eq!(next, StepOutcome::TextOnly);
    assert_eq!(s.history.last().unwrap().content.as_deref(), Some("half"));
}

fn step(s: &mut Session, c: ToolCall) -> StepRun {
    let (turn, _) = s.begin_turn("sys".to_string(), &sent("x"), true);
    let mut sample = Sample::new();
    sample.hear(&ProviderEvent::ToolCalls(vec![c]));
    s.end_reply(&sample, &turn, 0, 1, None, ReplyEnd::Done);
    StepRun::new(s, &turn, &sample)
}

#[test]
fn plan_mode_reads_only_and_gives_back_the_mode() {
    let mut s = session();
    s.set_mode(ExecMode::AutoEdit);
    let mut run = step(&mut s, call("c1", "EnterPlanMode", r#"{"reason":"big"}"#));
    assert!(matches!(s.begin_call(&mut run, true).0, Route::Answered));
    assert_eq!((s.mode, s.pre_plan_mode), (ExecMode::Plan, Some(ExecMode::AutoEdit)));
    let mut run = step(&mut s, call("c2", "Write", r#"{"path":"a","content":""}"#));
    assert!(matches!(s.begin_call(&mut run, true).0, Route::Answered));
    assert!(s.history.last().unwrap().content.as_deref().unwrap().contains("计划"));
    let mut run = step(&mut s, call("c3", "ExitPlanMode", r#"{"plan":"do"}"#));
    assert!(matches!(s.begin_call(&mut run, true).0, Route::AskExit { .. }));
    s.answer_exit(&mut run, ApprovalDecision::Reject);
    assert_eq!(s.mode, ExecMode::Plan);
    let mut run = step(&mut s, call("c4", "ExitPlanMode", r#"{"plan":"do"}"#));
    s.begin_call(&mut run, true);
    s.answer_exit(&mut run, ApprovalDecision::Allow);
    assert_eq!((s.mode, s.pre_plan_mode), (ExecMode::AutoEdit, None));
    assert!(s.history.last().unwrap().content.as_deref().unwrap().contains("已切换到"));
}

#[test]
fn calls_go_where_they_belong() {
    let mut s = session();
    let mut run = step(&mut s, call("c1", "Agent", r#"{"prompt":"x","description":"d"}"#));
    assert!(matches!(s.begin_call(&mut run, true).0, Route::Delegate));
    let ask = r#"{"questions":[{"question":"Q","header":"H","options":[{"label":"A","description":"a"},{"label":"B","description":"b"}]}]}"#;
    let mut run = step(&mut s, call("c2", "AskUserQuestion", ask));
    let (route, _) = s.begin_call(&mut run, true);
    if let Route::AskUser { questions, .. } = route {
        s.answer_questions(&mut run, &questions, &Some(vec![vec!["A".to_string()]]));
    } else {
        panic!("no question");
    }
    assert!(s.history.last().unwrap().content.as_deref().unwrap().contains('A'));
    let mut run = step(&mut s, call("c3", "ReadMediaFile", r#"{"path":"p.png"}"#));
    assert!(matches!(s.begin_call(&mut run, false).0, Route::Answered));
}

#[test]
fn a_long_conversation_is_made_shorter() {
    assert!(needs_compact(Some(86_901), 100_000, 100));
    assert!(!needs_compact(Some(86_900), 100_000, 100));
    assert!(needs_compact(Some(1), 1000, 100));
    assert!(!needs_compact(None, 1000, 100));
    let mut s = session();
    for i in 0..12 {
        s.history.push(ChatMsg::user(format!("u{i}")));
    }
    let before = s.history.len();
    assert!(compaction_prompt(&s.history).contains("u3"));
    let note = write_compact_note(Some("sum"), 3, true, &["a.rs".to_string()]);
    assert!(note.contains("sum") && note.contains("a.rs"), "{note}");
    let short = compact_history(&s.history, "note");
    assert!(short.len() < before);
    let effects = s.compact(Some("sum"), false, &[]);
    assert!(s.history.len() < before);
    assert!(events(&effects).iter().any(|e| matches!(e, Event::ContextCompacted { .. })));
    assert!(effects.iter().any(|e| matches!(e, Effect::Record { record: RolloutRecord::Compact { .. } })));
}

#[test]
fn a_record_gives_the_conversation_back() {
    let records = vec![
        RolloutRecord::Meta { id: "s1".to_string(), cwd: "/w".to_string(), title: "t".to_string(), created_at: 1 },
        RolloutRecord::User { text: "hi".to_string(), files: vec![], images: vec![] },
        RolloutRecord::Text { text: "hello".to_string() },
        RolloutRecord::ToolCall {
            tool: "Read".to_string(),
            summary: "a".to_string(),
            arguments: r#"{"path":"a"}"#.to_string(),
            output: "out".to_string(),
            is_error: false,
            edit: None,
        },
        RolloutRecord::StepUsage { input: 5, cache_read: 2, output: 3, used: 10 },
        RolloutRecord::StepUsage { input: 6, cache_read: 2, output: 3, used: 11 },
    ];
    let images: Vec<Vec<_>> = records.iter().map(|_| vec![]).collect();
    assert_eq!(recorded_cwd(&records), Some("/w".to_string()));
    assert_eq!(recorded_cwd(&records[1..]), None);
    let h = rebuild_history(&records, &images, "sys".to_string());
    let roles: Vec<&str> = h.iter().map(|m| m.role.as_str()).collect();
    assert_eq!(roles, ["system", "user", "assistant", "tool"]);
    assert_eq!(h[2].content.as_deref(), Some("hello"));
    let mut s =
        Session::load("s1", &records, &images, "sys".to_string(), PermissionRules::empty()).unwrap();
    let todos = Some(vec![TodoItem { content: "x".to_string(), status: TodoStatus::Done }]);
    let shown = s.replay(0, &records, "/w", &todos, &[]);
    assert!(shown.iter().any(|e| matches!(e, Event::ToolCallEnd { .. })));
    assert!(shown.iter().any(|e| matches!(e, Event::TodoListChanged { .. })));
    assert!(matches!(&shown[2], Event::TextDone { item_id, .. } if item_id == "replay-1-text-2"));
    let again = s.replay(7, &records, "/w", &todos, &[]);
    assert!(matches!(&again[2], Event::TextDone { item_id, .. } if item_id == "replay-1-text-9"));
    assert!(matches!(&again[3], Event::ToolCallBegin { item_id, .. } if item_id == "replay-1-tool-10"));
    assert_eq!((s.last_total_tokens, s.todos.len()), (Some(11), 1));
    assert_eq!(
        Session::load("s1", &records[1..], &images[1..], String::new(), PermissionRules::empty())
            .unwrap_err(),
        "rollout 缺少 meta 行: s1"
    );
}

fn tool_call(tool: &str, output: &str) -> RolloutRecord {
    RolloutRecord::ToolCall {
        tool: tool.to_string(),
        summary: String::new(),
        arguments: "{}".to_string(),
        output: output.to_string(),
        is_error: false,
        edit: None,
    }
}

#[test]
fn calls_hang_on_the_nearest_message() {
    let records = vec![RolloutRecord::Text { text: "hi".to_string() }, tool_call("Bash", "ok")];
    let h = rebuild_history(&records, &[], "s".to_string());
    assert_eq!(h.len(), 3);
    assert_eq!((h[0].role.as_str(), h[0].content.as_deref()), ("system", Some("s")));
    assert_eq!((h[1].role.as_str(), h[1].content.as_deref()), ("assistant", Some("hi")));
    let calls = h[1].tool_calls.as_ref().unwrap();
    assert_eq!((calls.len(), calls[0].function.name.as_str()), (1, "Bash"));
    assert_eq!((h[2].role.as_str(), h[2].content.as_deref()), ("tool", Some("ok")));
    assert_eq!(h[2].tool_call_id.as_deref(), Some(calls[0].id.as_str()));

    let records = vec![
        RolloutRecord::Text { text: "hi".to_string() },
        tool_call("Bash", "one"),
        tool_call("Read", "two"),
        RolloutRecord::Reasoning { text: "why".to_string() },
        tool_call("Grep", "three"),
        tool_call("Glob", "four"),
        RolloutRecord::User { text: "go".to_string(), files: vec![], images: vec![] },
        tool_call("Edit", "five"),
    ];
    let h = rebuild_history(&records, &[], "s".to_string());
    let roles: Vec<&str> = h.iter().map(|m| m.role.as_str()).collect();
    assert_eq!(
        roles,
        ["system", "assistant", "tool", "tool", "assistant", "tool", "tool", "user", "assistant", "tool"]
    );
    let mut ids = vec![];
    for (k, n) in [(1, 2), (4, 2), (8, 1)] {
        let calls = h[k].tool_calls.as_ref().unwrap();
        assert_eq!(calls.len(), n);
        for (j, call) in calls.iter().enumerate() {
            assert_eq!(h[k + 1 + j].tool_call_id.as_deref(), Some(call.id.as_str()));
            assert!(!ids.contains(&call.id));
            ids.push(call.id.clone());
        }
    }
    assert_eq!(h[4].reasoning.as_deref(), Some("why"));
    assert_eq!((h[1].reasoning.as_deref(), h[4].content.as_deref()), (None, None));
}

#[test]
fn lines_and_pictures_lie_beside_each_other() {
    assert_eq!(record_lines("a\n\n b \nc"), ["a", " b ", "c"]);
    assert_eq!(media_dir("/d", "s1"), "/d/s1.media");
    assert_eq!(next_media_index(&["1.png".to_string(), "7.jpg".to_string(), "x".to_string()]), Some(8));
    let image = ImageRef {
        path: "/d/s1.media/1.png".to_string(),
        media_type: "image/png".to_string(),
        width: 1,
        height: 1,
    };
    let chat = rehydrate_image(&image, Some(b"Man")).unwrap();
    assert_eq!((chat.data_base64.as_str(), chat.label.as_deref()), ("TWFu", Some("1.png")));
    assert!(rehydrate_image(&image, None).is_none());
    assert!(user_display_text("hi", &[]).contains("hi"));
}

#[test]
fn files_are_written_into_the_message() {
    let text = expand_file_references(
        "see",
        &[("a.txt".to_string(), Ok("body".to_string())), ("b".to_string(), Err("gone".to_string()))],
    );
    assert!(text.contains("see") && text.contains("body") && text.contains("gone"), "{text}");
    let change = EditDiff { path: "a".to_string(), unified_diff: "d".to_string(), additions: 1, deletions: 0 };
    assert_eq!(flush_turn_changes(&[change]).len(), 2);
    assert!(flush_turn_changes(&[]).is_empty());
    assert!(!revert_file("a", &Ok("/w/a".to_string())).is_empty());
}

fn queued(text: &str) -> Queued {
    Queued { content: text.to_string(), files: vec![], images: vec![], mode: ExecMode::AutoEdit }
}

#[test]
fn one_turn_at_a_time_and_the_rest_in_line() {
    let c = config();
    let mut m = Manager::new();
    let id = m.next_session_id(5);
    assert_eq!(id, "s5-1");
    assert!(matches!(m.send_message(&id, queued("0"), Some(&c)), Sending::Missing));
    m.open(&id, Some(&meta(&id)));
    assert!(m.is_open(&id) && !m.is_busy(&id));
    assert!(matches!(m.send_message(&id, queued("0"), None), Sending::NoModel));
    assert!(matches!(m.send_message(&id, queued("1"), Some(&c)), Sending::Start { model, .. } if model.model == "m"));
    for t in ["2", "3", "4"] {
        let s = m.send_message(&id, queued(t), Some(&c));
        assert!(matches!(s, Sending::Waits));
        assert!(matches!(s.event(t), Some(Event::MessageQueued { .. })));
    }
    m.cancel_queued(&id, "3");
    assert_eq!(m.revert_fault(&id).unwrap(), "回合进行中，无法撤销文件");
    assert!(matches!(m.turn_done(&id, Some(&c)), AfterTurn::Start { message, .. } if message.content == "2"));
    assert!(matches!(m.turn_done(&id, Some(&c)), AfterTurn::Start { message, .. } if message.content == "4"));
    assert!(matches!(m.turn_done(&id, Some(&c)), AfterTurn::Rest));
    assert!(matches!(m.wake(&id, "w".to_string(), Some(&c)), Sending::Start { .. }));
    assert!(m.delete_session(&id));
    assert!(matches!(m.turn_done(&id, Some(&c)), AfterTurn::DropRecord));
    assert!(!m.is_open(&id));
}

#[test]
fn choices_of_the_user_are_kept() {
    let c = config();
    let mut m = Manager::new();
    m.open("a", Some(&meta("a")));
    assert_eq!(m.set_exec_mode("a", ExecMode::Plan), Some(true));
    assert_eq!(m.set_exec_mode("z", ExecMode::Plan), None);
    let n = ModelSelection { provider_id: "p".to_string(), model_id: "n".to_string(), reasoning_level: None };
    assert!(m.set_model("a", n.copy()));
    assert!(!m.set_model("z", n.copy()));
    assert_eq!(m.model_of("a", Some(&c)).unwrap().model, "n");
    assert_eq!(model_label(Some(&c), Some(&n)), ("n".to_string(), "P".to_string()));
    assert!(m.begin_compact("a", Some(&c)).unwrap().is_some());
    assert!(m.begin_compact("a", Some(&c)).is_err());
    let wanted = NewSession {
        cwd: "/w".to_string(),
        provider_id: None,
        model_id: None,
        reasoning_level: None,
        exec_mode: None,
    };
    let mut seed = meta("old");
    seed.model_id = Some("n".to_string());
    seed.provider_id = Some("p".to_string());
    let made = plan_session("new", 9, &wanted, Some(&seed), Some(&c));
    assert_eq!((made.id.as_str(), made.model_id.as_deref(), made.created_at), ("new", Some("n"), 9));
    let named = update_meta(&made, Some(true), None, Some("mine"), 10);
    assert!(named.pinned && named.title_custom && named.title == "mine");
    let (p, model) = provider_to_test(Some(&c), "p").unwrap();
    assert_eq!((p.id.as_str(), model.as_str()), ("p", "m"));
    assert_eq!(provider_to_test(Some(&c), "q").unwrap_err(), "供应商不存在");
    let mut s = session();
    assert!(context_usage(&s, m.model_of("a", Some(&c)).as_ref()).is_none());
    s.last_total_tokens = Some(3);
    assert!(matches!(
        context_usage(&s, m.model_of("a", Some(&c)).as_ref()),
        Some(Event::ContextUsage { used: 3, total: 2000, .. })
    ));
}

#[test]
fn events_are_stamped_in_order() {
    let first = stamp("s1", 0, Event::TurnAborted).unwrap();
    assert_eq!((first.session_id.as_str(), first.seq), ("s1", 1));
    let next = stamp("s1", first.seq, Event::TurnAborted).unwrap();
    assert_eq!(next.seq, 2);
    assert!(stamp("s1", u64::MAX, Event::TurnAborted).is_none());
    let empty = Json::Null.get("x").is_none();
    assert!(empty);
}

#[test]
fn a_session_asks_and_remembers() {
    let mut s = session();
    s.set_mode(ExecMode::ConfirmBeforeEdit);
    let c = || call("c1", "Write", r#"{"path":"a","content":""}"#);
    let run = step(&mut s, c());
    assert!(matches!(s.gate_call(&run), Verdict::Ask(None)));
    assert!(s.answer_approval(&run, None, ApprovalDecision::Reject).is_some());
    assert!(matches!(s.gate_call(&run), Verdict::Ask(None)));
    assert_eq!(s.answer_approval(&run, None, ApprovalDecision::Allow), None);
    assert!(matches!(s.gate_call(&run), Verdict::Ask(None)));
    assert_eq!(s.answer_approval(&run, None, ApprovalDecision::AlwaysAllow), None);
    assert!(matches!(s.gate_call(&run), Verdict::Run));
    let run = step(&mut s, call("c2", "Bash", r#"{"command":"rm -rf /"}"#));
    assert!(matches!(s.gate_call(&run), Verdict::Ask(Some(_))));
    let run = step(&mut s, call("c3", "Read", r#"{"path":"a"}"#));
    assert!(matches!(s.gate_call(&run), Verdict::Run));
    s.set_fs_access(true, false);
    assert_eq!((s.fs_read_outside, s.fs_write_outside), (true, false));
}

#[test]
fn the_effort_of_a_model_can_be_chosen() {
    let mut m = Manager::new();
    m.open("s1", Some(&meta("s1")));
    assert!(m.set_reasoning("s1", Some("high".to_string())));
    assert!(!m.set_reasoning("s2", None));
    assert_eq!(m.entries[0].reasoning_level.as_deref(), Some("high"));
}

#[test]
fn a_key_is_put_in_when_it_is_sent() {
    let mut c = config();
    c.providers[0].api_key = "${KEY}".to_string();
    let m = choose_model(&c, None, None).unwrap();
    assert_eq!((m.model.as_str(), m.api_key.as_str()), ("m", "${KEY}"));
    let env = vec![("KEY".to_string(), "secret".to_string())];
    let resolved = resolve_model(&c, None, None, &env).unwrap();
    assert_eq!((resolved.model.as_str(), resolved.api_key.as_str()), ("m", "secret"));
    let ready = ready_endpoint(&m, &env, 10).unwrap();
    assert_eq!((ready.model.as_str(), ready.api_key.as_str()), ("m", "secret"));
    assert_eq!(ready_endpoint(&m, &[], 10).unwrap().api_key, "");
    let turning = vec![("KEY".to_string(), "${KEY}".to_string())];
    assert!(ready_endpoint(&m, &turning, 10).is_none());
}
