use pig_core::command::{is_dangerous_command, is_readonly_command};
use pig_core::gate::{approval_detail, decide, is_approved, label_images, request_id, take_answer, tool_effects, Verdict};
use pig_core::effect::Effect;
use pig_core::permissions::{shape_error, PermissionRules};
use pig_core::protocol::{ApprovalDecision, ExecMode};
use pig_core::provider::{ChatImage, ToolCall};
use pig_core::tool::{
    all, answers_note, approval_subject, find_tool, parse_questions, render_todos,
    requires_approval, summarize, task_duration_label, Tool,
};
use pig_core::json::parse_json;

fn call(name: &str, arguments: &str) -> ToolCall {
    ToolCall { id: "c1".to_string(), name: name.to_string(), arguments: arguments.to_string() }
}

fn verdict(mode: ExecMode, rules: &str, allowed: &[(String, String)], c: &ToolCall) -> Verdict {
    let rules = PermissionRules::parse(rules).expect("rules");
    decide(mode, &rules, allowed, c, find_tool(&all(), &c.name))
}

const NONE: &str = "";

#[test]
fn commands_that_only_read() {
    for c in ["ls -la", "git status", "git branch", "cat a.txt"] {
        assert!(is_readonly_command(c), "{c}");
    }
    for c in ["rm a", "ls && pwd", "cat a | grep x", "git branch x", "ls > out", "echo $(rm a)", "git push", "printf x", ""] {
        assert!(!is_readonly_command(c), "{c}");
    }
}

#[test]
fn commands_that_are_dangerous() {
    for c in ["rm -rf /", "mkfs", "sudo rm -rf ~", "dd if=/dev/zero of=/dev/sda", "shutdown now"] {
        assert!(is_dangerous_command(c).is_some(), "{c}");
    }
    for c in ["ls", "rm a.txt", "cargo build", "echo mkfs"] {
        assert!(is_dangerous_command(c).is_none(), "{c}");
    }
}

#[test]
fn modes_decide_what_is_asked() {
    let write = call("Write", r#"{"path":"a","content":"x"}"#);
    let ls = call("Bash", r#"{"command":"ls"}"#);
    let touch = call("Bash", r#"{"command":"touch a"}"#);
    let danger = call("Bash", r#"{"command":"mkfs"}"#);
    assert!(matches!(verdict(ExecMode::ConfirmBeforeEdit, NONE, &[], &write), Verdict::Ask(None)));
    assert!(matches!(verdict(ExecMode::AutoEdit, NONE, &[], &write), Verdict::Run));
    assert!(matches!(verdict(ExecMode::AutoEdit, NONE, &[], &ls), Verdict::Run));
    assert!(matches!(verdict(ExecMode::AutoEdit, NONE, &[], &touch), Verdict::Ask(None)));
    assert!(matches!(verdict(ExecMode::FullAccess, NONE, &[], &touch), Verdict::Run));
    assert!(matches!(verdict(ExecMode::FullAccess, NONE, &[], &danger), Verdict::Ask(Some(_))));
    assert!(matches!(verdict(ExecMode::Yolo, NONE, &[], &danger), Verdict::Run));
    for t in all() {
        assert!(!requires_approval(t, ExecMode::Yolo));
        assert!(!t.read_only() || !requires_approval(t, ExecMode::ConfirmBeforeEdit));
    }
    assert!(requires_approval(Tool::Bash, ExecMode::AutoEdit));
}

#[test]
fn rules_of_a_project_decide_first() {
    let rules = r#"deny = ["Bash(rm *)", "write(secret/*)"]
allow = ["Bash(touch *)"]"#;
    let parsed = PermissionRules::parse(rules).unwrap();
    assert!(!parsed.is_empty() && PermissionRules::empty().is_empty());
    assert!(parsed.deny_hit("Bash", "rm a").is_some());
    assert!(parsed.deny_hit("Bash", "ls").is_none());
    assert!(parsed.allow_hit("Bash", "touch a"));
    let rm = call("Bash", r#"{"command":"rm a"}"#);
    assert!(matches!(verdict(ExecMode::Yolo, rules, &[], &rm), Verdict::Refuse(t) if t.contains("项目规则禁止执行")));
    let touch = call("Bash", r#"{"command":"touch a"}"#);
    assert!(matches!(verdict(ExecMode::ConfirmBeforeEdit, rules, &[], &touch), Verdict::Run));
    let secret = call("Write", r#"{"path":"secret/a","content":""}"#);
    assert!(matches!(verdict(ExecMode::AutoEdit, rules, &[], &secret), Verdict::Refuse(_)));
    assert!(PermissionRules::parse("no json").is_err());
    let odd = PermissionRules::parse(r#"deny = ["Bash([)", "Bash", "(x)"]"#).unwrap();
    assert_eq!((odd.skipped, odd.is_empty()), (3, true));
}

#[test]
fn rules_that_are_no_lists_are_refused() {
    let text = "allow = [\"Bash(ls)\"]\ndeny = 5\nmore = [\"x\"]\n";
    let e = PermissionRules::parse(text).unwrap_err();
    assert!(e.starts_with("permissions.toml 解析失败: TOML parse error at line 2, column 8"), "{e}");
    assert!(e.contains("invalid type: integer `5`, expected a sequence"), "{e}");
    let e = PermissionRules::parse("allow = [\"Bash(ls)\", 1]").unwrap_err();
    assert!(e.contains("invalid type: integer `1`, expected a string"), "{e}");
    let e = PermissionRules::parse("a = 1\ndeny = 5\n").unwrap_err();
    assert_eq!(e, "permissions.toml 解析失败: allow 与 deny 须为字符串数组");
    let v = parse_json(r#"{"deny": 5}"#).unwrap();
    assert_eq!(shape_error(&v, Some("why".to_string())), "why");
    assert_eq!(shape_error(&v, None), "allow 与 deny 须为字符串数组");
}

#[test]
fn what_is_allowed_is_remembered_by_subject() {
    let mut allowed = Vec::new();
    let a = call("Write", r#"{"path":"a","content":"1"}"#);
    let b = call("Write", r#"{"path":"b","content":"1"}"#);
    assert_eq!(take_answer(&mut allowed, &a, None, ApprovalDecision::AlwaysAllow), None);
    assert!(is_approved(&allowed, "Write", &approval_subject(&a)));
    assert!(matches!(verdict(ExecMode::ConfirmBeforeEdit, NONE, &allowed, &a), Verdict::Run));
    assert!(matches!(verdict(ExecMode::ConfirmBeforeEdit, NONE, &allowed, &b), Verdict::Ask(None)));
    let danger = call("Bash", r#"{"command":"mkfs"}"#);
    assert_eq!(take_answer(&mut allowed, &danger, Some("x"), ApprovalDecision::AlwaysAllow), None);
    assert!(matches!(verdict(ExecMode::FullAccess, NONE, &allowed, &danger), Verdict::Ask(Some(_))));
    assert!(take_answer(&mut allowed, &b, None, ApprovalDecision::Reject).is_some());
    assert_eq!(take_answer(&mut allowed, &b, None, ApprovalDecision::Allow), None);
    assert_eq!(allowed.len(), 1);
}

#[test]
fn the_user_sees_what_is_asked() {
    let d = approval_detail(&call("Bash", r#"{"command":"mkfs"}"#), None, Some("格式化"));
    assert!(d.starts_with("⚠️ 高风险命令：格式化") && d.contains("mkfs"), "{d}");
    let d = approval_detail(&call("Write", r#"{"path":"a","content":"new\n"}"#), Some(b"old\n"), None);
    assert!(d.contains("-old") && d.contains("+new"), "{d}");
    let d = approval_detail(
        &call("Edit", r#"{"path":"a","old_string":"old","new_string":"new"}"#),
        Some(b"old\n"),
        None,
    );
    assert!(d.contains("-old") && d.contains("+new"), "{d}");
    assert_eq!(request_id("s", "t", "-approval-", "i"), "s-t-approval-i");
    assert_eq!(summarize(&call("Read", r#"{"path":"a.txt"}"#)), "a.txt");
}

#[test]
fn a_tool_leaves_what_it_changed() {
    let c = call("Write", "{}");
    let big = "x".repeat(4 * 1024 * 1024 + 1);
    let left = tool_effects(
        &c,
        false,
        &[],
        None,
        &[("a".to_string(), Some("1".to_string())), ("b".to_string(), Some(big)), ("n".to_string(), None)],
    );
    let kept: Vec<&str> = left
        .iter()
        .filter_map(|e| match e {
            Effect::SaveOriginal { path, .. } => Some(path.as_str()),
            _ => None,
        })
        .collect();
    assert_eq!(kept, ["a", "n"]);
    let image = ChatImage { media_type: "image/png".to_string(), data_base64: String::new(), label: None };
    let labelled = label_images(&call("ReadMediaFile", r#"{"path":"pic.png"}"#), vec![image]);
    assert_eq!(labelled.len(), 1);
}

#[test]
fn questions_are_read_and_answered() {
    let v = parse_json(r#"{"questions":[{"question":"Q","header":"H","options":[{"label":"A","description":"a"},{"label":"B","description":"b"}]}]}"#).unwrap();
    let q = parse_questions(&v).unwrap();
    assert_eq!((q.len(), q[0].options.len()), (1, 2));
    let note = answers_note(&q, &[vec!["A".to_string()]]);
    assert!(note.contains('Q') && note.contains('A'), "{note}");
    assert!(parse_questions(&parse_json("{}").unwrap()).is_err());
    assert!(parse_questions(&parse_json(r#"{"questions":[]}"#).unwrap()).is_err());
    assert_eq!(render_todos(&[]), "当前没有待办事项");
    assert_eq!(task_duration_label(10, Some(75), 999), "1 分");
}
