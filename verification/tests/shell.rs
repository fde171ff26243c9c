use pig_core::files::{record_read_state, FsAccess};
use pig_core::json::{parse_json, Json};
use pig_core::protocol::{TodoItem, TodoStatus};
use pig_core::shell::{
    background_note, drops_spill, list_tasks, parse_bash, report_bash, task_output, todo_list,
    ForegroundOutcome,
};
use pig_core::lossy::text_of_bytes;
use pig_core::state::{settle_call, SessionToolState, ToolEffect};
use pig_core::task::{
    foreground_output, spill_part, stopped_note, tail_chars, TaskKind, TaskRegistry,
};
use pig_core::tool::schemas;

fn json(text: &str) -> Json {
    parse_json(text).expect("JSON")
}

#[test]
fn commands_are_read_and_timed() {
    let c = parse_bash(&json(r#"{"command": "ls"}"#)).unwrap();
    assert_eq!((c.command.as_str(), c.background, c.timeout), ("ls", false, 60));
    let c = parse_bash(&json(r#"{"command": "ls", "timeout": 0, "run_in_background": true}"#)).unwrap();
    assert_eq!((c.background, c.timeout), (true, 1));
    assert_eq!(parse_bash(&json(r#"{"command": "ls", "timeout": 999}"#)).unwrap().timeout, 300);
    assert_eq!(parse_bash(&json("{}")).unwrap_err(), "缺少参数 command");
    assert!(background_note("b1").contains("task_id: b1。"));
}

#[test]
fn output_is_reported_whole_or_by_its_ends() {
    let done = |output: String| ForegroundOutcome::Completed {
        output,
        code: -1,
        spill_path: Some("/w/.pigcode/tool-results/b1.log".to_string()),
    };
    let small = done("hi".to_string());
    assert_eq!(report_bash(&small, 60, "/w"), Ok("hi\n[exit code: -1]".to_string()));
    assert!(drops_spill(&small));
    let long = done("a".repeat(30_721));
    assert!(!drops_spill(&long));
    let text = report_bash(&long, 60, "/w").unwrap();
    assert!(text.starts_with(&"a".repeat(4096)));
    assert!(text.contains("[...中间省略...]"));
    assert!(text.contains("（共 30721 字符），完整输出已保存到 .pigcode/tool-results/b1.log，"));
    let late = ForegroundOutcome::TimedOut { task_id: "b2".to_string() };
    assert!(report_bash(&late, 5, "/w").unwrap().starts_with("命令超过 5s 未结束，已转入后台任务 b2"));
    let bad = ForegroundOutcome::SpawnFailed { error: "no".to_string() };
    assert_eq!(report_bash(&bad, 5, "/w"), Err("启动命令失败: no".to_string()));
    assert!(foreground_output("o", "e").contains('e'));
}

#[test]
fn tasks_are_numbered_and_stopped() {
    let mut r = TaskRegistry::new();
    let a = r.register("sleep 9", "/w", TaskKind::Command { pid: Some(7) }, 100);
    let b = r.register("x", "/w", TaskKind::Command { pid: None }, 100);
    assert_eq!((a.as_str(), b.as_str()), ("b1", "b2"));
    r.note_output("b1", "hello");
    assert_eq!(list_tasks(&r.tasks, 130).lines().next(), Some("b1 [运行中] sleep 9（30 秒）"));
    assert_eq!(task_output(&r.tasks, "b1", 700), Ok("任务 b1（运行中，10 分）输出：\nhello".to_string()));
    assert!(task_output(&r.tasks, "b2", 100).unwrap().ends_with("（暂无输出）"));
    assert_eq!(task_output(&r.tasks, "b9", 0), Err("任务不存在: b9".to_string()));
    assert_eq!(r.stop("b1", 150), Ok(Some(7)));
    assert!(r.stop("b1", 150).is_err());
    r.finish("b1", 0, 160);
    assert!(list_tasks(&r.tasks, 160).contains("b1 [已停止]"));
    r.remove("b2");
    let c = r.register("y", "/w", TaskKind::Command { pid: None }, 1);
    assert_eq!(c, "b3");
    assert_eq!(list_tasks(&[], 0), "没有后台任务");
    assert_eq!(r.snapshot().len(), 2);
    assert_eq!(tail_chars("abc", 2), "bc");
    r.append_output("b1", b"\xffend");
    assert!(r.snapshot()[0].output_tail.ends_with("\u{fffd}end"));
    assert_eq!(text_of_bytes(b"a\xc3\xa9\xff"), "a\u{e9}\u{fffd}");
    assert_eq!(spill_part(0, 10), Some((10, false)));
    assert_eq!(spill_part(10 * 1024 * 1024, 1), None);
}

#[test]
fn to_do_lists_are_replaced_whole() {
    let now = vec![TodoItem { content: "x".to_string(), status: TodoStatus::Pending }];
    let (new, text) = todo_list(&json("{}"), &now, "").unwrap();
    assert!(new.is_none());
    assert_eq!(text, "1. [pending] x");
    let args = json(r#"{"todos": [{"content": "a", "status": "done"}, {"content": "b", "status": "in_progress"}]}"#);
    let (new, text) = todo_list(&args, &now, "").unwrap();
    assert_eq!(new.unwrap().len(), 2);
    assert_eq!(text, "1. [done] a\n2. [in_progress] b");
    let bad = json(r#"{"todos": [{"content": "a", "status": "later"}]}"#);
    assert_eq!(
        todo_list(&bad, &now, "unknown variant").unwrap_err(),
        "todos 格式非法: unknown variant（status 须为 pending/in_progress/done）"
    );
    assert!(todo_list(&json(r#"{"todos": 1}"#), &now, "x").is_err());
    assert_eq!(todo_list(&json(r#"{"todos": []}"#), &now, "x").unwrap().1, "当前没有待办事项");
}

#[test]
fn the_tools_share_a_state() {
    let mut s = SessionToolState::for_test();
    assert_eq!(s.session_id, "test");
    assert!(!s.allows(FsAccess::Read) && !s.allows(FsAccess::Write));
    assert!(s.read_state("/w/a").is_none());
    let first = record_read_state(b"1", None, false);
    let second = record_read_state(b"22", None, false);
    s.note_read("/w/a", first);
    s.note_read("/w/b", first);
    s.note_read("/w/a", second);
    assert_eq!(s.read_state("/w/a"), Some(second));
    assert_eq!(s.read_state("/w/b"), Some(first));
}

#[test]
fn a_call_is_settled() {
    let (e, failed) = settle_call("X", false, Ok(ToolEffect::plain("o".to_string())));
    assert_eq!((e.output.as_str(), failed), ("未知工具: X", true));
    let (e, failed) = settle_call("Read", true, Ok(ToolEffect::plain("o".to_string())));
    assert_eq!((e.output.as_str(), failed), ("o", false));
    let (e, failed) = settle_call("Read", true, Err("bad".to_string()));
    assert_eq!((e.output.as_str(), failed, e.images.len()), ("bad", true, 0));
}

#[test]
fn every_tool_is_described_to_the_model() {
    let described: Vec<String> = schemas()
        .iter()
        .map(|j| j.get("function").and_then(|f| f.str_at("name")).unwrap())
        .collect();
    assert!(described.len() >= 15);
    for name in ["Read", "Write", "Edit", "Bash", "Glob", "Grep", "FetchURL", "TodoList"] {
        assert!(described.iter().any(|d| d == name), "{name} {described:?}");
    }
    assert_eq!(stopped_note("bash-1"), "已停止任务 bash-1");
}
