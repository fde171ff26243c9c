use pig_core::tracker::{revert_failure, snapshot_from_store, snapshot_to_store, ChangeTracker};

#[test]
fn bytes_are_kept_and_read_back() {
    for b in [&b"text"[..], "你好\r\n".as_bytes(), &[0xFF, 0x00, 0x1A, 0xAB], b""] {
        assert_eq!(snapshot_from_store(&snapshot_to_store(b)), b);
    }
    assert_eq!(snapshot_to_store(&[0xFF, 0x0A]), "pigcode:hex:ff0a");
    assert_eq!(snapshot_from_store("pigcode:hex:FF0Azz11"), [0xFF, 0x0A]);
    assert_eq!(snapshot_from_store("pigcode:hex:f"), Vec::<u8>::new());
    assert_eq!(snapshot_from_store("plain"), b"plain");
}

#[test]
fn the_first_state_of_a_file_counts() {
    let mut t = ChangeTracker::new();
    assert!(t.wants("/w/a"));
    t.snapshot("/w/a", Ok(Some(b"one\n".to_vec()))).unwrap();
    assert!(!t.wants("/w/a"));
    t.snapshot("/w/a", Ok(Some(b"two\n".to_vec()))).unwrap();
    t.snapshot("/w/a", Err("ignored".to_string())).unwrap();
    assert_eq!(t.original("/w/a"), Some(Some("one\n".to_string())));
    assert_eq!(t.original("/w/b"), None);
    t.snapshot("/w/new", Ok(None)).unwrap();
    assert_eq!(t.original("/w/new"), Some(None));
    assert_eq!(
        t.snapshot("/w/bad", Err("io".to_string())),
        Err("读取失败 /w/bad: io".to_string())
    );
    assert_eq!(t.take_dirty(), vec!["/w/a".to_string(), "/w/new".to_string()]);
    assert!(t.take_dirty().is_empty());
    assert_eq!(t.tracked_paths(), vec!["/w/a".to_string(), "/w/new".to_string()]);
}

#[test]
fn a_change_is_counted_from_the_start_of_the_session() {
    let mut t = ChangeTracker::new();
    t.snapshot("/w/a", Ok(Some(b"one\ntwo\n".to_vec()))).unwrap();
    let c = t.diff("/w/a", "/w", "/w", Ok(b"one\n2\n3\n".to_vec())).unwrap();
    assert_eq!((c.path.as_str(), c.additions, c.deletions), ("a", 2, 1));
    t.snapshot("/w/b", Ok(None)).unwrap();
    t.diff("/w/b", "/w", "/w", Ok(b"x\n".to_vec())).unwrap();
    assert_eq!(t.totals(), (3, 1));
    t.diff("/w/a", "/w", "/w", Ok(b"one\ntwo\n".to_vec())).unwrap();
    assert_eq!(t.totals(), (1, 0));
    assert_eq!(t.diff("/w/z", "/w", "/w", Ok(vec![])).unwrap_err(), "文件未追踪");
    assert_eq!(
        t.diff("/w/a", "/w", "/w", Err("gone".to_string())).unwrap_err(),
        "读取失败 /w/a: gone"
    );
}

#[test]
fn a_file_is_put_back_once() {
    let mut t = ChangeTracker::new();
    t.snapshot("/w/a", Ok(Some(vec![0xFF, 0xFE, 1]))).unwrap();
    t.snapshot("/w/new", Ok(None)).unwrap();
    assert_eq!(t.revert("/w/a"), Ok(Some(vec![0xFF, 0xFE, 1])));
    assert_eq!(t.revert("/w/a"), Err("文件未被修改过，无法撤销".to_string()));
    assert_eq!(t.revert("/w/new"), Ok(None));
    assert_eq!(revert_failure(true, "/w/a", "x"), "恢复失败 /w/a: x");
    assert_eq!(revert_failure(false, "/w/a", "x"), "删除新建文件失败 /w/a: x");
}

#[test]
fn what_was_kept_on_disk_comes_back() {
    let mut t = ChangeTracker::new();
    t.restore(vec![
        ("/w/a".to_string(), Some("pigcode:hex:ff00".to_string())),
        ("/w/b".to_string(), None),
        ("/w/a".to_string(), Some("x".to_string())),
    ]);
    assert_eq!(t.original("/w/a"), Some(Some("x".to_string())));
    assert_eq!(t.original("/w/b"), Some(None));
    assert!(t.take_dirty().is_empty());
}

#[test]
fn the_changes_of_a_turn_are_net_and_in_order() {
    let mut t = ChangeTracker::new();
    for p in ["/w/z", "/w/a", "/w/same", "/w/gone"] {
        t.snapshot(p, Ok(Some(b"1\n".to_vec()))).unwrap();
    }
    assert_eq!(t.turn_paths().len(), 4);
    let now = [Some(b"2\n".to_vec()), Some(b"1\n3\n".to_vec()), Some(b"1\n".to_vec()), None];
    let changes = t.take_turn_changes("/w", "/w", &now);
    let names: Vec<&str> = changes.iter().map(|c| c.path.as_str()).collect();
    assert_eq!(names, ["a", "z"]);
    assert!(t.turn_paths().is_empty());
    assert!(t.wants("/w/a"));
}
