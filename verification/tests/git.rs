use pig_core::git::{
    branch_list, checkout_result, count_file_lines, current_branch, git_diff, git_output,
    git_status, repository_root, says_nothing,
    parse_numstat, parse_porcelain, truncate_diff, untracked_diff,
};

#[test]
fn parse_porcelain_handles_rename_untracked_and_modified() {
    let out = "R  new.txt\0old.txt\0?? untracked.txt\0 M mod.txt\0M  staged.txt\0";
    let entries = parse_porcelain(out);
    assert_eq!(
        entries,
        vec![
            ('R', ' ', "new.txt".to_string()),
            ('?', '?', "untracked.txt".to_string()),
            (' ', 'M', "mod.txt".to_string()),
            ('M', ' ', "staged.txt".to_string()),
        ]
    );
}

#[test]
fn parse_numstat_handles_rename_binary_and_normal() {
    let out = "3\t1\t\0old.txt\0new.txt\0-\t-\tbin.png\010\t2\tplain.txt\0";
    let map = parse_numstat(out);
    assert_eq!(map.get("new.txt"), Some(&(3, 1)));
    assert_eq!(map.get("bin.png"), Some(&(0, 0)));
    assert_eq!(map.get("plain.txt"), Some(&(10, 2)));
    assert_eq!(map.get("old.txt"), None, "重命名取新路径");
}

#[test]
fn count_file_lines_counts_partial_last_line() {
    assert_eq!(count_file_lines(b"a\nb\nc"), 3);
    assert_eq!(count_file_lines(b"a\nb\n"), 2);
    assert_eq!(count_file_lines(&[b'a', 0, b'b']), 0, "含 NUL 视为二进制");
}

#[test]
fn every_change_of_the_work_tree_is_listed() {
    let files = parse_porcelain("M  a.rs\0 M b.rs\0?? c.rs\0");
    let unstaged = parse_numstat("5\t6\tb.rs\0");
    let staged = parse_numstat("1\t2\ta.rs\0");
    let (left, right) = git_status(&files, &unstaged, &staged, &[0, 0, 7]);
    let names: Vec<&str> = left.iter().map(|c| c.path.as_str()).collect();
    assert_eq!(names, ["b.rs", "c.rs"]);
    assert_eq!((left[0].additions, left[0].deletions), (5, 6));
    assert_eq!((left[1].additions, left[1].deletions), (7, 0));
    let names: Vec<&str> = right.iter().map(|c| c.path.as_str()).collect();
    assert_eq!(names, ["a.rs"]);
    assert_eq!((right[0].additions, right[0].deletions), (1, 2));
}

#[test]
fn branches_are_read_from_what_git_prints() {
    assert_eq!(current_branch("main\n"), Some("main".to_string()));
    assert_eq!(current_branch("\n"), None);
    assert_eq!(branch_list("dev\nmain\n"), vec!["dev".to_string(), "main".to_string()]);
    assert_eq!(checkout_result(true, b"x"), Ok(()));
    let e = checkout_result(false, b" error: \xffdirty\n").unwrap_err();
    assert_eq!(e, "git checkout 失败: error: \u{fffd}dirty");
    assert_eq!(git_output(true, b"a\xff").as_deref(), Some("a\u{fffd}"));
    assert_eq!(git_output(false, b"a"), None);
    assert_eq!(repository_root(Some(" /r\n"), "/w"), "/r");
    assert_eq!(repository_root(None, "/w"), "/w");
    assert!(says_nothing(" \n") && !says_nothing("d"));
}

#[test]
fn a_new_file_is_shown_as_added() {
    let d = untracked_diff("/w/a.txt", "/w", "/w", b"x\ny\n");
    assert!(d.contains("+x") && d.contains("+y"), "{d}");
    assert_eq!(git_diff(Some("D"), false, None), "D");
    assert_eq!(git_diff(Some(""), false, Some("U")), "U");
    let short = "a\n".repeat(3);
    assert_eq!(truncate_diff(&short), short);
}
