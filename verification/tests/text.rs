use pig_core::diff::{diff_preview, fallback_edit_diff, file_change, unified_file_diff};
use pig_core::edit::{compute_edit, EditMatchError};
use pig_core::text::{decode, decoded_view, encode, FileEncoding, LineEnding};

#[test]
fn encodings_are_told_apart() {
    let d = decode(b"a\nb\n").unwrap();
    assert_eq!((d.encoding, d.bom, d.line_ending, d.lossy), (FileEncoding::Utf8, false, LineEnding::Lf, false));
    let d = decode(&[0xEF, 0xBB, 0xBF, b'a', b'\r', b'\n']).unwrap();
    assert_eq!((d.text.as_str(), d.bom, d.line_ending), ("a\n", true, LineEnding::Crlf));
    let d = decode(&[0xFF, 0xFE, b'a', 0, b'\n', 0]).unwrap();
    assert_eq!((d.text.as_str(), d.encoding), ("a\n", FileEncoding::Utf16Le));
    let d = decode(&[0xFE, 0xFF, 0, b'a']).unwrap();
    assert_eq!((d.text.as_str(), d.encoding), ("a", FileEncoding::Utf16Be));
    let d = decode(&[0xC4, 0xE3, 0xBA, 0xC3]).unwrap();
    assert_eq!((d.text.as_str(), d.encoding, d.encoding.label()), ("你好", FileEncoding::Gbk, "GBK"));
    assert!(decode(&[0, 1, 2, 3]).unwrap_err().contains("二进制"));
    assert!(decode(&[0xFF, 0x80, 0x81]).unwrap_err().contains("无法识别"));
}

#[test]
fn what_is_written_is_read_back() {
    for (encoding, bom) in [
        (FileEncoding::Utf8, false),
        (FileEncoding::Utf8, true),
        (FileEncoding::Utf16Le, true),
        (FileEncoding::Utf16Be, true),
        (FileEncoding::Gbk, false),
    ] {
        for ending in [LineEnding::Lf, LineEnding::Crlf] {
            let bytes = encode("你\n好\n", encoding, bom, ending).unwrap();
            let d = decode(&bytes).unwrap();
            assert_eq!(d.text, "你\n好\n");
            assert_eq!((d.encoding, d.bom, d.line_ending), (encoding, bom, ending));
            assert_eq!(encode(&d.text, d.encoding, d.bom, d.line_ending).unwrap(), bytes);
        }
    }
    assert!(encode("😀", FileEncoding::Gbk, false, LineEnding::Lf).is_err());
    assert_eq!(decoded_view(&[0xFF, 0x80, b'a']), "\u{FFFD}\u{FFFD}a");
}

#[test]
fn an_edit_tolerates_line_numbers_and_quotes() {
    let o = compute_edit("a\nb\nc", "b", "B", false).unwrap();
    assert_eq!((o.after.as_str(), o.replaced, o.tier_note), ("a\nB\nc", 1, None));
    let o = compute_edit("let x = 1;\nlet y = 2;\n", "1\tlet x = 1;\n2\tlet y = 2;", "z", false).unwrap();
    assert!(o.tier_note.unwrap().contains("行号"));
    assert_eq!(o.after, "z\n");
    let o = compute_edit("say “hi”\nend", "say \"hi\"", "say \"yo\"", false).unwrap();
    assert!(o.tier_note.unwrap().contains("引号"));
    assert_eq!(o.after, "say “yo”\nend");
    assert_eq!(compute_edit("aa", "a", "b", true).unwrap().after, "bb");
    assert!(matches!(compute_edit("aa", "a", "b", false), Err(EditMatchError::NotUnique { count: 2 })));
    assert!(matches!(compute_edit("aa", "z", "b", false), Err(EditMatchError::NotFound)));
    assert_eq!(compute_edit("a\nb\nc\n", "b", "", false).unwrap().after, "a\nc\n");
}

#[test]
fn a_change_is_counted_and_shown() {
    let c = file_change("a.txt", "one\ntwo\n", "one\n2\n3\n");
    assert_eq!((c.additions, c.deletions), (2, 1));
    assert!(c.unified_diff.starts_with("--- a/a.txt\n+++ b/a.txt\n"), "{}", c.unified_diff);
    assert!(c.unified_diff.contains("-two\n+2\n+3\n"));
    assert_eq!(unified_file_diff("a.txt", "one\ntwo\n", "one\n2\n3\n"), c.unified_diff);
    assert!(diff_preview("a.txt", "x\n", "y\n").starts_with("a.txt\n\n---"));
    let same = file_change("a.txt", "x\n", "x\n");
    assert_eq!((same.additions, same.deletions), (0, 0));
}

#[test]
fn a_change_is_told_from_its_call() {
    let c = fallback_edit_diff("/w", "/w", "Edit", r#"{"path":"a","old_string":"x","new_string":"y"}"#).unwrap();
    assert_eq!((c.path.as_str(), c.additions, c.deletions), ("a", 1, 1));
    let c = fallback_edit_diff("/w", "/w", "Write", r#"{"path":"a","content":"x\ny\n"}"#).unwrap();
    assert_eq!((c.additions, c.deletions), (2, 0));
    assert!(fallback_edit_diff("/w", "/w", "Bash", r#"{"path":"a"}"#).is_none());
    assert!(fallback_edit_diff("/w", "/w", "Edit", "no json").is_none());
}
