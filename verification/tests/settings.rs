use pig_core::config::{
    choose_config, duplicate_provider_ids, expand_env, expand_env_keys, expand_within, migrate,
    no_config, read_legacy,
};
use pig_core::project::{ProjectMeta, ProjectStore};
use pig_core::prompt::{
    agents_md, civil, git_info, system_prompt, today, Surroundings, AGENTS_MD_MAX,
};
use pig_core::protocol::ExecMode;
use pig_core::store::{
    add_workspace, hide_workspace, mode_from_row, mode_to_row, rename_workspace, unhide_workspace,
    WorkspaceMeta,
};

fn env(v: &[(&str, &str)]) -> Vec<(String, String)> {
    v.iter().map(|(a, b)| (a.to_string(), b.to_string())).collect()
}

#[test]
fn references_are_expanded() {
    let e = env(&[("KEY", "k-1"), ("A", "${KEY}"), ("LOOP", "${LOOP}")]);
    assert_eq!(expand_env("x-${KEY}-y", &e), "x-k-1-y");
    assert_eq!(expand_env("${A}", &e), "k-1");
    assert_eq!(expand_env("${NONE}", &e), "");
    assert_eq!(expand_env("${open", &e), "${open");
    assert_eq!(expand_env("plain", &e), "plain");
    assert_eq!(expand_within("${LOOP}", &e, 100), None);
    assert_eq!(expand_within("${A}", &e, 2), Some("k-1".to_string()));
    assert_eq!(expand_within("${A}", &e, 1), None);
}

#[test]
fn an_older_file_is_migrated() {
    let raw = "[provider]\nbase_url = \"http://h/\"\napi_key = \"${KEY}\"\nmodel = \"m\"\n";
    let l = read_legacy(raw).unwrap();
    assert_eq!((l.context_window, l.max_output_tokens), (128_000, 8_192));
    let c = migrate(l);
    assert_eq!(c.default_provider, "default");
    assert_eq!(c.providers[0].models[0].id, "m");
    let loaded = choose_config(raw, "/c", None).unwrap();
    assert!(loaded.migrated);
    let ready = expand_env_keys(loaded.config, &env(&[("KEY", "k")]), 10).unwrap();
    assert_eq!(ready.providers[0].api_key, "k");
    assert_eq!(ready.providers[0].base_url, "http://h");
    assert_eq!(
        choose_config("x = 1", "/c", None).unwrap_err(),
        "解析配置失败 /c: 既不是新格式也不是旧格式"
    );
    assert!(choose_config("[provider]\nmodel = 1", "/c", Some(no_config())).is_err());
    assert!(read_legacy("[provider]\nbase_url='b'\napi_key='k'\nmodel='m'\ncontext_window='x'").is_none());
}

#[test]
fn the_older_provider_may_be_a_list() {
    let l = read_legacy(r#"provider = ["http://h", "k", "m"]"#).unwrap();
    assert_eq!((l.base_url.as_str(), l.api_key.as_str(), l.model.as_str()), ("http://h", "k", "m"));
    assert_eq!((l.context_window, l.max_output_tokens), (128_000, 8_192));
    let l = read_legacy(r#"provider = ["http://h", "k", "m", 5, 6, "more"]"#).unwrap();
    assert_eq!((l.context_window, l.max_output_tokens), (5, 6));
    assert!(read_legacy(r#"provider = ["http://h", "k"]"#).is_none());
    assert!(read_legacy(r#"provider = ["http://h", "k", 1]"#).is_none());
    assert!(read_legacy(r#"provider = ["http://h", "k", "m", "x"]"#).is_none());
    assert!(read_legacy(r#"provider = ["http://h", "k", "m", -1]"#).is_none());
    assert!(read_legacy(r#"provider = "http://h""#).is_none());
}

#[test]
fn a_newer_file_is_taken_as_it_is() {
    let raw = "[provider]\nbase_url = \"b\"\napi_key = \"k\"\nmodel = \"m\"\n";
    let config = migrate(read_legacy(raw).unwrap());
    let loaded = choose_config("anything", "/c", Some(config)).unwrap();
    assert!(!loaded.migrated);
    assert!(duplicate_provider_ids(&loaded.config).is_empty());
    let mut c = loaded.config;
    let again = migrate(read_legacy(raw).unwrap());
    c.providers.extend(again.providers);
    let w = duplicate_provider_ids(&c);
    assert_eq!(w.len(), 1);
    assert!(w[0].contains("\"default\""), "{}", w[0]);
}

#[test]
fn dates_follow_the_calendar() {
    assert_eq!(today(0), "1970-01-01");
    assert_eq!(today(951_782_400), "2000-02-29");
    assert_eq!(today(951_868_800), "2000-03-01");
    assert_eq!(today(1_735_689_599), "2024-12-31");
    assert_eq!(today(4_107_542_400), "2100-03-01");
    assert_eq!(civil(146_097), (2370, 1, 1));
    assert!(today(u64::MAX).contains('-'));
}

#[test]
fn instructions_are_put_together_and_cut() {
    assert_eq!(agents_md(None, None), "");
    assert_eq!(
        agents_md(Some("G"), Some("W")),
        "\n## 全局 AGENTS.md\n\nG\n\n## 工作区 AGENTS.md\n\nW\n"
    );
    let long = "好".repeat(AGENTS_MD_MAX);
    let cut = agents_md(Some(&long), Some("W"));
    assert!(cut.ends_with("\n[AGENTS.md 过长，已截断]"));
    assert!(!cut.contains("工作区"));
    assert!(cut.len() <= AGENTS_MD_MAX + 40);
}

#[test]
fn the_prompt_tells_the_surroundings_and_the_mode() {
    let e = Surroundings {
        cwd: "/w",
        os: "linux",
        arch: "x86_64",
        date: "2026-01-02",
        git: Some("main (有未提交变更)"),
    };
    let p = system_prompt(&e, true, ExecMode::Plan, "\n## X\n");
    assert!(p.starts_with("你是 pig-code"));
    assert!(p.contains("工作目录: /w\n平台: linux-x86_64\n日期: 2026-01-02\ngit: main (有未提交变更)\n</env>"));
    assert!(p.contains("计划模式。你是只读的"));
    assert!(p.contains("\n## X\n\n可用工具:\n- Read: "));
    assert!(p.ends_with("拿到结果后再回答。\n"));
    let q = system_prompt(&e, false, ExecMode::Yolo, "");
    assert!(!q.contains("可用工具") && q.contains("无管制"));
    assert_eq!(git_info(Some("main\n"), Some(b"\n")), Some("main (有未提交变更)".to_string()));
    assert_eq!(git_info(Some("main\n"), Some(b"")), Some("main".to_string()));
    assert_eq!(git_info(Some(" \n"), None), None);
    assert_eq!(git_info(None, Some(b"x")), None);
}

#[test]
fn projects_are_listed_once() {
    let mut s = ProjectStore::load("/d", None);
    assert_eq!(s.path, "/d/projects.json");
    assert!(s.add("/a".to_string(), 1));
    assert!(!s.add("/a".to_string(), 2));
    assert!(s.add("/b".to_string(), 3));
    s.remove("/a");
    assert_eq!(s.projects, vec![ProjectMeta { path: "/b".to_string(), added_at: 3 }]);
    let again = ProjectStore::load("/d", Some(s.projects));
    assert_eq!(again.projects.len(), 1);
}

#[test]
fn modes_are_stored_by_name() {
    for m in [
        ExecMode::ConfirmBeforeEdit,
        ExecMode::AutoEdit,
        ExecMode::Plan,
        ExecMode::FullAccess,
        ExecMode::Yolo,
    ] {
        assert_eq!(mode_from_row(mode_to_row(m)), m);
    }
    assert_eq!(mode_from_row("nonsense"), ExecMode::ConfirmBeforeEdit);
    assert_eq!(mode_from_row("Yol\\u006f"), ExecMode::Yolo);
    assert_eq!(mode_from_row("\","), ExecMode::ConfirmBeforeEdit);
}

#[test]
fn workspaces_come_and_go() {
    let w = add_workspace(None, "/w", 7).unwrap();
    assert_eq!(
        w,
        WorkspaceMeta { path: "/w".to_string(), added_at: 7, alias: None, hidden: false }
    );
    let w = rename_workspace(Some(w), "/w", Some("名".to_string()), 8);
    assert_eq!((w.added_at, w.alias.as_deref()), (7, Some("名")));
    let w = hide_workspace(Some(w), "/w", 9).unwrap();
    assert!(w.hidden && w.alias.as_deref() == Some("名"));
    let w = unhide_workspace(Some(w)).unwrap();
    assert!(!w.hidden);
    assert!(unhide_workspace(None).is_none());
    assert!(add_workspace(Some(w), "/w", 10).is_none());
    assert!(hide_workspace(None, "/x", 1).unwrap().hidden);
    assert!(!rename_workspace(None, "/x", None, 1).hidden);
}
