use pig_core::files::{
    check_fresh, confine, edit_file, home_dir, is_sensitive_file, is_tmp_absolute_path, locate,
    need, parse_edit, read_file, read_io_error, record_read_state, resolve_checked,
    resolve_with_access, sensitive_file_error, write_failure, write_file, BoundFailure, Dirs,
    FileNow, FsAccess, Target,
};
use pig_core::json::{parse_json, Json};

fn json(text: &str) -> Json {
    parse_json(text).expect("JSON")
}

fn dirs(parent: &str) -> Dirs {
    Dirs {
        cwd_real: Ok("/w".to_string()),
        made: None,
        parent_real: Ok(parent.to_string()),
    }
}

fn plain() -> Target {
    Target { is_symlink: false, exists: false, real_path: Err(String::new()) }
}

#[test]
fn a_path_in_the_workspace_is_allowed() {
    assert_eq!(home_dir("/w", "src/a.rs"), "/w/src");
    let found = locate("/w", "src/a.rs", &dirs("/w/src")).unwrap();
    assert_eq!(found, "/w/src/a.rs");
    let found = confine(found, "/w", &plain());
    assert_eq!(resolve_checked(found, "src/a.rs"), Ok("/w/src/a.rs".to_string()));
}

#[test]
fn a_path_out_of_the_workspace_needs_a_switch() {
    let out = || locate("/w", "../x/a", &dirs("/x"));
    assert_eq!(out(), Err(BoundFailure::ParentOutside { resolved: "/x/a".to_string() }));
    assert_eq!(
        resolve_checked(out(), "../x/a"),
        Err("路径越出工作目录: ../x/a".to_string())
    );
    let refused = resolve_with_access(out(), "../x/a", false, false, FsAccess::Read).unwrap_err();
    assert!(refused.contains("允许读取工作区外文件"), "{refused}");
    let refused = resolve_with_access(out(), "../x/a", false, false, FsAccess::Write).unwrap_err();
    assert!(refused.contains("允许写入工作区外文件"), "{refused}");
    assert_eq!(
        resolve_with_access(out(), "../x/a", false, true, FsAccess::Write),
        Ok("/x/a".to_string())
    );
    assert_eq!(
        resolve_with_access(out(), "/tmp/a", true, false, FsAccess::Write),
        Ok("/x/a".to_string())
    );
}

#[test]
fn links_are_followed_with_care() {
    let link = Target {
        is_symlink: true,
        exists: true,
        real_path: Ok("/etc/passwd".to_string()),
    };
    let out = confine("/w/l".to_string(), "/w", &link);
    assert_eq!(out, Err(BoundFailure::TargetOutside { resolved: "/w/l".to_string() }));
    let dangling = Target { is_symlink: true, exists: false, real_path: Err("gone".to_string()) };
    let out = || confine("/w/l".to_string(), "/w", &dangling);
    assert_eq!(out(), Err(BoundFailure::DanglingSymlink));
    assert!(resolve_with_access(out(), "l", true, true, FsAccess::Write).is_err());
    let broken = Target { is_symlink: false, exists: true, real_path: Err("bad".to_string()) };
    assert_eq!(
        confine("/w/l".to_string(), "/w", &broken),
        Err(BoundFailure::Other("路径无效 /w/l: bad".to_string()))
    );
    let inside = Target { is_symlink: true, exists: true, real_path: Ok("/w/b".to_string()) };
    assert_eq!(confine("/w/l".to_string(), "/w", &inside), Ok("/w/l".to_string()));
}

#[test]
fn directories_that_fail_are_reported() {
    let mut d = dirs("/w");
    d.cwd_real = Err("no".to_string());
    assert_eq!(
        locate("/w", "a", &d),
        Err(BoundFailure::Other("工作目录无效 /w: no".to_string()))
    );
    let mut d = dirs("/w");
    d.made = Some("full".to_string());
    assert_eq!(
        locate("/w", "x/a", &d),
        Err(BoundFailure::Other("创建目录失败 /w/x: full".to_string()))
    );
    let mut d = dirs("/w");
    d.parent_real = Err("none".to_string());
    assert_eq!(
        locate("/w", "x/a", &d),
        Err(BoundFailure::Other("目录不存在 /w/x: none".to_string()))
    );
    assert_eq!(
        locate("/w", "x/..", &dirs("/w/x")),
        Err(BoundFailure::Other("无效路径: x/..".to_string()))
    );
}

#[test]
fn only_absolute_paths_lead_to_tmp() {
    let roots = vec!["/tmp".to_string(), "/private/tmp".to_string()];
    assert!(is_tmp_absolute_path("/tmp/x", "/private/tmp/x", &roots));
    assert!(!is_tmp_absolute_path("../tmp/x", "/tmp/x", &roots));
    assert!(!is_tmp_absolute_path("/etc/x", "/etc/x", &roots));
}

#[test]
fn sensitive_files_are_known_by_name() {
    for p in [
        "/w/.env", "/w/.ENV.local", "/h/.ssh/id_rsa", "/h/id_ed25519-work", "/h/.aws/credentials",
        "/h/.gcp/Credentials", "/h/id_dsa.bak",
    ] {
        assert!(is_sensitive_file(p), "{p}");
    }
    for p in [
        "/w/.env.example", "/w/.env.sample", "/w/.env.template", "/h/id_rsa.pub", "/w/credentials",
        "/w/id_rsax", "/w/environment", "/w/..",
    ] {
        assert!(!is_sensitive_file(p), "{p}");
    }
    assert!(sensitive_file_error("/w/.env").starts_with("已拒绝访问敏感文件: .env（"));
}

#[test]
fn lines_are_shown_behind_their_numbers() {
    let (text, partial) = read_file(&json("{}"), b"a\nb\n").unwrap();
    assert_eq!(text, "1\ta\n2\tb");
    assert!(!partial);
    let (text, partial) = read_file(&json(r#"{"offset": 2, "limit": 1}"#), b"a\nb\nc\n").unwrap();
    assert_eq!(text, "2\tb\n\n[已截断: 显示 2-2 行，共 3 行；用 offset 参数继续读取]");
    assert!(!partial);
    assert_eq!(read_file(&json("{}"), b"").unwrap().0, "（空文件）");
    let (text, _) = read_file(&json("{}"), b"a\r\nb\r\n").unwrap();
    assert!(text.contains("行尾=CRLF"), "{text}");
}

#[test]
fn long_lines_and_long_files_are_cut() {
    let long = "x".repeat(2001);
    let (text, _) = read_file(&json("{}"), long.as_bytes()).unwrap();
    assert_eq!(text, format!("1\t{} [...本行已截断，共 2001 字符]", "x".repeat(2000)));
    let many = "y".repeat(1000) + "\n";
    let (text, partial) = read_file(&json("{}"), many.repeat(200).as_bytes()).unwrap();
    assert!(partial);
    assert!(text.contains("用 offset 参数继续读取"));
    assert!(text.chars().count() < 110_000);
    let (_, partial) = read_file(&json(r#"{"offset": 1}"#), many.repeat(200).as_bytes()).unwrap();
    assert!(!partial);
}

#[test]
fn pictures_are_not_shown_as_text() {
    let png = [0x89, 0x50, 0x4E, 0x47, 0x0D, 0x0A, 0x1A, 0x0A, 0, 0, 0, 0];
    let e = read_file(&json("{}"), &png).unwrap_err();
    assert_eq!(e, "这是 PNG 图片，请改用 ReadMediaFile 读取（当前模型需支持图片输入）");
    assert!(read_file(&json("{}"), &[0, 1, 2, 3]).unwrap_err().contains("二进制"));
}

#[test]
fn a_missing_file_comes_with_its_neighbours() {
    let names = vec!["b".to_string(), "a".to_string()];
    assert_eq!(
        read_io_error("x", "/w/x", true, Some(&names), ""),
        "文件不存在: x。目录 /w 下有: a, b"
    );
    assert_eq!(read_io_error("x", "/w/x", true, None, ""), "文件不存在: x");
    assert_eq!(read_io_error("x", "/w/x", false, None, "denied"), "读取失败 /w/x: denied");
    let many: Vec<String> = (0..30).map(|i| format!("f{i:02}")).collect();
    let told = read_io_error("x", "/w/x", true, Some(&many), "");
    assert!(told.contains("f19") && !told.contains("f20"), "{told}");
}

fn now(bytes: &[u8], mtime: i128) -> FileNow {
    FileNow {
        exists: true,
        meta: Ok((Some(mtime), bytes.len() as u64)),
        bytes: Ok(bytes.to_vec()),
    }
}

#[test]
fn only_what_was_seen_is_overwritten() {
    let seen = record_read_state(b"abc", Some(5), false);
    assert_eq!(check_fresh(Some(seen), "/w/f", "写入", &now(b"abc", 5)), Ok(None));
    let touched = check_fresh(Some(seen), "/w/f", "写入", &now(b"abc", 6)).unwrap();
    assert_eq!(touched.unwrap().mtime, Some(6));
    let e = check_fresh(Some(seen), "/w/f", "写入", &now(b"abd", 6)).unwrap_err();
    assert!(e.contains("外部修改"), "{e}");
    let e = check_fresh(None, "/w/f", "修改", &now(b"abc", 5)).unwrap_err();
    assert!(e.ends_with("请先 Read 再修改"), "{e}");
    let part = record_read_state(b"abc", Some(5), true);
    let e = check_fresh(Some(part), "/w/f", "写入", &now(b"abc", 5)).unwrap_err();
    assert!(e.contains("不完整视图"), "{e}");
    let mut gone = now(b"", 0);
    gone.exists = false;
    assert_eq!(check_fresh(None, "/w/f", "写入", &gone), Ok(None));
    let mut bad = now(b"abc", 6);
    bad.bytes = Err("io".to_string());
    let e = check_fresh(Some(seen), "/w/f", "写入", &bad).unwrap_err();
    assert_eq!(e, "读取失败 /w/f: io");
    bad.meta = Err("stat".to_string());
    let e = check_fresh(Some(seen), "/w/f", "写入", &bad).unwrap_err();
    assert_eq!(e, "读取文件状态失败 /w/f: stat");
}

#[test]
fn a_file_keeps_its_form_when_it_is_written() {
    let w = write_file("a.txt", "x\ny\n", Some(b"1\r\n2\r\n"));
    assert_eq!(w.bytes.unwrap(), b"x\r\ny\r\n");
    assert_eq!(w.before, "1\n2\n");
    assert_eq!(w.after, "x\ny\n");
    assert_eq!(w.output, "已写入 a.txt（6 字节）（保留原行尾 CRLF）");
    let w = write_file("a.txt", "x", None);
    assert_eq!(w.bytes.unwrap(), b"x");
    assert_eq!(w.output, "已写入 a.txt（1 字节）");
    let w = write_file("a.txt", "x", Some(&[0, 1, 2]));
    assert!(w.output.ends_with("（原文件编码无法识别，已按 UTF-8 覆盖）"));
    let gbk = [0xC4, 0xE3, 0xBA, 0xC3];
    let w = write_file("a.txt", "好", Some(&gbk));
    assert_eq!(w.bytes.unwrap(), [0xBA, 0xC3]);
    assert!(w.output.ends_with("（保留原编码 GBK）"), "{}", w.output);
    let w = write_file("a.txt", "😀", Some(&gbk));
    assert!(w.bytes.is_err());
    assert_eq!(write_failure("/w/a", "full"), "写入失败 /w/a: full");
}

#[test]
fn the_arguments_of_an_edit_are_checked() {
    let e = parse_edit(&json("{}")).unwrap_err();
    assert_eq!(e, "缺少参数 path");
    let e = parse_edit(&json(r#"{"path": "a", "old_string": "", "new_string": "x"}"#)).unwrap_err();
    assert!(e.starts_with("old_string 不能为空"));
    let e = parse_edit(&json(r#"{"path": "a", "old_string": "x", "new_string": "x"}"#)).unwrap_err();
    assert!(e.contains("无需修改"));
    assert_eq!(need(&json(r#"{"k": 1}"#), "k"), Err("缺少参数 k".to_string()));
}

#[test]
fn an_edit_is_made_or_refused() {
    let c = |old: &str, new: &str, all: bool| {
        parse_edit(&json(&format!(
            r#"{{"path": "a", "old_string": "{old}", "new_string": "{new}", "replace_all": {all}}}"#
        )))
        .unwrap()
    };
    let w = edit_file(&c("b", "B", false), b"a\r\nb\r\n").unwrap();
    assert_eq!(w.bytes.unwrap(), b"a\r\nB\r\n");
    assert_eq!(w.output, "已修改 a");
    let w = edit_file(&c("b", "B", true), b"bb").unwrap();
    assert_eq!(w.output, "已修改 a（替换 2 处）");
    let e = edit_file(&c("b", "B", false), b"bb").unwrap_err();
    assert!(e.contains("出现 2 次"), "{e}");
    let e = edit_file(&c("z", "B", false), b"b\r\n").unwrap_err();
    assert!(e.contains("未找到") && e.contains("CRLF"), "{e}");
    assert!(edit_file(&c("z", "B", false), &[0, 1]).is_err());
}
