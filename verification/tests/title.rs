use pig_core::protocol::{ExecMode, SessionMeta};
use pig_core::title::{
    clean_generated_title, normalize_title_input, strip_think_blocks, title_request,
    title_to_apply, title_tokens,
    TITLE_INPUT_MAX_CHARS, TITLE_MAX_CHARS,
};

#[test]
fn clean_title_from_plain_json() {
    assert_eq!(
        clean_generated_title("{\"title\":\"修复登录超时\"}"),
        Some("修复登录超时".to_string())
    );
}

#[test]
fn clean_title_from_fenced_json_and_think() {
    let raw = "<think>用户想改标题</think>\n```json\n{\"title\":\"重构侧栏布局\"}\n```";
    assert_eq!(clean_generated_title(raw), Some("重构侧栏布局".to_string()));
}

#[test]
fn clean_title_falls_back_to_first_line_and_strips_noise() {
    assert_eq!(
        clean_generated_title("## 优化构建速度。\n\n解释……"),
        Some("优化构建速度".to_string())
    );
    assert_eq!(
        clean_generated_title("“读取 Cargo.toml 总结”，"),
        Some("读取 Cargo.toml 总结".to_string())
    );
}

#[test]
fn clean_title_rejects_junk_and_truncates() {
    assert_eq!(clean_generated_title("   \n"), None, "空白");
    assert_eq!(clean_generated_title("{\"title\":\"!!!\"}"), None, "无文字数字");
    let long: String = "字".repeat(150);
    let cleaned = clean_generated_title(&format!("{{\"title\":\"{long}\"}}")).unwrap();
    assert!(cleaned.chars().count() <= TITLE_MAX_CHARS);
    assert!(cleaned.ends_with('…'), "超长截断应带省略号: {cleaned}");
}

#[test]
fn normalize_input_collapses_and_truncates() {
    assert_eq!(normalize_title_input("  hello   world \n next "), "hello world next");
    let long: String = "a".repeat(TITLE_INPUT_MAX_CHARS + 50);
    assert_eq!(normalize_title_input(&long).chars().count(), TITLE_INPUT_MAX_CHARS);
}

#[test]
fn thoughts_are_left_out() {
    assert_eq!(strip_think_blocks("a<think>b</think>c"), "ac");
    assert_eq!(title_request(true, "x"), None);
    assert!(title_request(false, "请帮我修复登录页面的超时问题，谢谢你了").is_some());
}

#[test]
fn a_chosen_title_stays() {
    let mut meta = SessionMeta {
        id: "s".to_string(),
        title: "mine".to_string(),
        title_custom: false,
        cwd: "/w".to_string(),
        created_at: 0,
        updated_at: 0,
        pinned: false,
        archived: false,
        provider_id: None,
        model_id: None,
        reasoning_level: None,
        exec_mode: ExecMode::Plan,
        fs_read_outside: false,
        fs_write_outside: false,
    };
    let raw = "{\"title\":\"修复登录超时\"}";
    assert_eq!(title_to_apply(Some(&meta), raw), Some("修复登录超时".to_string()));
    meta.title_custom = true;
    assert_eq!(title_to_apply(Some(&meta), raw), None);
    assert_eq!(title_to_apply(None, raw), None);
    assert_eq!((title_tokens(100), title_tokens(9000)), (100, 512));
}
