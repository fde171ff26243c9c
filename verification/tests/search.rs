use pig_core::json::{parse_json, Json};
use pig_core::ranking::{sort_ranked, Ranked};
use pig_core::search::{
    glob_files, is_skipped_dir, parse_glob, parse_grep, search_files, sort_by_mtime_desc, Grep,
    GrepQuery,
};

fn json(text: &str) -> Json {
    parse_json(text).expect("JSON")
}

fn strings(v: &[&str]) -> Vec<String> {
    v.iter().map(|s| s.to_string()).collect()
}

#[test]
fn names_are_matched_by_name_or_path() {
    let files = strings(&["/w/a.rs", "/w/src/b.rs", "/w/src/c.txt", "/w/.env"]);
    assert_eq!(glob_files("*.rs", &files, "/w", "/w"), Ok("a.rs\nsrc/b.rs".to_string()));
    assert_eq!(glob_files("src/*.rs", &files, "/w", "/w"), Ok("src/b.rs".to_string()));
    assert_eq!(glob_files("*.md", &files, "/w", "/w"), Ok("（无匹配文件）".to_string()));
    assert_eq!(
        glob_files(".e*", &files, "/w", "/w"),
        Ok("[已过滤 1 个敏感文件]".to_string())
    );
    assert!(glob_files("[", &files, "/w", "/w").unwrap_err().starts_with("无效 glob 模式 [: "));
    assert_eq!(parse_glob(&json("{}")), Err("缺少参数 pattern".to_string()));
    assert!(parse_glob(&json(r#"{"pattern": "a**b["}"#)).is_err());
    assert_eq!(parse_glob(&json(r#"{"pattern": "*.rs"}"#)), Ok("*.rs".to_string()));
}

#[test]
fn many_names_are_cut() {
    let files: Vec<String> = (0..300).map(|i| format!("/w/f{i}.rs")).collect();
    let out = glob_files("*.rs", &files, "/w", "/w").unwrap();
    assert_eq!(out.lines().filter(|l| l.ends_with(".rs")).count(), 200);
    assert!(out.ends_with("[结果过多，已截断为前 200 条]"));
}

fn query(pattern: &str, ignore_case: bool, only: Option<&str>) -> GrepQuery {
    GrepQuery {
        pattern: pattern.to_string(),
        ignore_case,
        only: only.map(str::to_string),
    }
}

#[test]
fn lines_are_found_with_their_numbers() {
    let mut g = Grep::new(query("b+", false, None)).unwrap();
    g.search("/w/a.txt", "/w", 9, Some("a\nxbb\nB\n")).unwrap();
    g.search("/w/.env", "/w", 9, Some("b")).unwrap();
    assert_eq!(g.report(), "a.txt:2: xbb\n[已跳过 1 个敏感文件]");
    let mut g = Grep::new(query("b", true, Some("*.rs"))).unwrap();
    assert!(!g.wants("/w/a.txt", 1));
    assert!(g.wants("/w/a.rs", 1));
    assert!(!g.wants("/w/a.rs", 3_000_000));
    g.search("/w/a.txt", "/w", 9, Some("b")).unwrap();
    g.search("/w/a.rs", "/w", 9, Some("B")).unwrap();
    g.search("/w/b.rs", "/w", 9, Some("b\0")).unwrap();
    g.search("/w/c.rs", "/w", 9, None).unwrap();
    assert_eq!(g.report(), "a.rs:1: B");
    let g = Grep::new(query("q", false, None)).unwrap();
    assert_eq!(g.report(), "（无匹配内容）");
}

#[test]
fn bad_patterns_are_refused() {
    assert!(Grep::new(query("(", false, None)).is_err());
    let mut g = Grep::new(query("a", false, Some("["))).unwrap();
    assert!(g.search("/w/a", "/w", 1, Some("a")).unwrap_err().starts_with("无效 include 模式 [: "));
    assert!(parse_grep(&json(r#"{"pattern": "("}"#)).unwrap_err().starts_with("无效正则 (: "));
    assert_eq!(parse_grep(&json("{}")), Err("缺少参数 pattern".to_string()));
    assert_eq!(
        parse_grep(&json(r#"{"pattern": "a", "ignore_case": true, "include": "*.rs"}"#)),
        Ok(query("a", true, Some("*.rs")))
    );
}

#[test]
fn a_search_ends_when_enough_is_found() {
    let mut g = Grep::new(query("x", false, None)).unwrap();
    g.search("/w/a", "/w", 9, Some(&"x\n".repeat(250))).unwrap();
    assert!(g.is_full());
    g.search("/w/b", "/w", 9, Some("x")).unwrap();
    let out = g.report();
    assert_eq!(out.lines().count(), 201);
    assert!(out.ends_with("[结果过多，已截断为前 200 行]"));
}

#[test]
fn the_newest_files_come_first() {
    let files = vec![
        (1, "/w/old".to_string()),
        (5, "/w/b-c".to_string()),
        (5, "/w/b/d".to_string()),
        (9, "/w/new".to_string()),
    ];
    assert_eq!(
        sort_by_mtime_desc(&files),
        strings(&["/w/new", "/w/b/d", "/w/b-c", "/w/old"])
    );
}

#[test]
fn files_to_mention_are_ranked() {
    let files = strings(&["/w/src/Main.rs", "/w/main.rs", "/w/lib.rs", "/x/main.rs"]);
    assert_eq!(search_files(&files, "/w", "MAIN", 10), strings(&["main.rs", "src/Main.rs"]));
    assert_eq!(search_files(&files, "/w", "", 2), strings(&["lib.rs", "main.rs"]));
    assert!(search_files(&files, "/w", "zzz", 10).is_empty());
}

#[test]
fn some_directories_are_never_looked_into() {
    assert!(is_skipped_dir(".git") && is_skipped_dir(".pigcode"));
    assert!(!is_skipped_dir("src"));
}

#[test]
fn sorting_is_by_rank_and_words() {
    let item = |rank: u128, w: &str| Ranked {
        rank,
        words: vec![w.chars().collect()],
        text: format!("{rank}{w}"),
    };
    let v: Vec<Ranked> = vec![item(2, "a"), item(1, "b"), item(1, "a"), item(3, ""), item(0, "z")];
    let sorted: Vec<String> = sort_ranked(&v).into_iter().map(|x| x.text).collect();
    assert_eq!(sorted, strings(&["0z", "1a", "1b", "2a", "3"]));
}
