use mass_replace::rewrite::{FileOutcome, LineRewriter};
use mass_replace::text::{line_contains, replace_line};

/// Cuts `content` into lines the way a buffered reader does: each line
/// keeps its `\n`, and a last line without one is still a line.
fn split_lines(content: &[u8]) -> Vec<Vec<u8>> {
    let mut lines = Vec::new();
    let mut cur = Vec::new();
    for &b in content {
        cur.push(b);
        if b == b'\n' {
            lines.push(std::mem::take(&mut cur));
        }
    }
    if !cur.is_empty() {
        lines.push(cur);
    }
    lines
}

/// Runs one file's content through a rewriter, as the tool does.
fn rewrite(content: &str, original: &str, replacement: &str) -> (Vec<u8>, FileOutcome) {
    let mut rw = LineRewriter::new(original.as_bytes(), replacement.as_bytes());
    let mut out = Vec::new();
    for line in split_lines(content.as_bytes()) {
        out.extend_from_slice(&rw.rewrite_line(&line));
    }
    (out, rw.outcome())
}

fn scans_as_match(content: &str, original: &str) -> bool {
    split_lines(content.as_bytes())
        .iter()
        .any(|l| line_contains(l, original.as_bytes()))
}

#[test]
fn matching_file_rewritten_and_other_untouched() {
    assert!(scans_as_match("foo bar\nbaz\n", "foo"));
    let (out, outcome) = rewrite("foo bar\nbaz\n", "foo", "qux");
    assert_eq!(out, b"qux bar\nbaz\n".to_vec());
    assert!(matches!(outcome, FileOutcome::Rewritten(1)));

    assert!(!scans_as_match("no match\n", "foo"));
    let (out, outcome) = rewrite("no match\n", "foo", "qux");
    assert_eq!(out, b"no match\n".to_vec());
    assert!(matches!(outcome, FileOutcome::Unchanged));
}

#[test]
fn last_line_without_newline() {
    assert!(scans_as_match("baz\nfoo", "foo"));
    let (out, outcome) = rewrite("baz\nfoo", "foo", "qux");
    assert_eq!(out, b"baz\nqux".to_vec());
    assert!(matches!(outcome, FileOutcome::Rewritten(1)));
}

#[test]
fn lines_changed_counts_lines_not_occurrences() {
    let (out, outcome) = rewrite("foo foo\nbar\nxfoo\n", "foo", "q");
    assert_eq!(out, b"q q\nbar\nxq\n".to_vec());
    assert!(matches!(outcome, FileOutcome::Rewritten(2)));
}

#[test]
fn empty_file_does_not_match() {
    assert!(!scans_as_match("", "foo"));
    let (out, outcome) = rewrite("", "foo", "qux");
    assert!(out.is_empty());
    assert!(matches!(outcome, FileOutcome::Unchanged));
}

#[test]
fn file_without_match_keeps_its_bytes() {
    let content = "alpha\r\nbeta\n\ngamma";
    let (out, outcome) = rewrite(content, "delta", "x");
    assert_eq!(out, content.as_bytes().to_vec());
    assert!(matches!(outcome, FileOutcome::Unchanged));
}

#[test]
fn line_terminators_are_kept() {
    let (out, _) = rewrite("foo\r\nfoo\n", "foo", "bar");
    assert_eq!(out, b"bar\r\nbar\n".to_vec());
}

#[test]
fn second_run_with_single_byte_needle_is_no_op() {
    let (first, outcome) = rewrite("a-b-c\n--\n", "-", "+");
    assert_eq!(first, b"a+b+c\n++\n".to_vec());
    assert!(matches!(outcome, FileOutcome::Rewritten(2)));
    let first = String::from_utf8(first).unwrap();
    assert!(!scans_as_match(&first, "-"));
    let (second, outcome) = rewrite(&first, "-", "+");
    assert_eq!(second, first.as_bytes().to_vec());
    assert!(matches!(outcome, FileOutcome::Unchanged));
}

#[test]
fn second_run_can_find_new_occurrences() {
    let (first, _) = rewrite("aabb\n", "ab", "");
    assert_eq!(first, b"ab\n".to_vec());
    let (second, outcome) = rewrite("ab\n", "ab", "");
    assert_eq!(second, b"\n".to_vec());
    assert!(matches!(outcome, FileOutcome::Rewritten(1)));
}

#[test]
fn replacement_is_left_to_right_without_overlap() {
    assert_eq!(replace_line(b"aaa", b"aa", b"b"), b"ba".to_vec());
    assert_eq!(replace_line(b"aaaa", b"aa", b"b"), b"bb".to_vec());
    assert_eq!(replace_line(b"xyz", b"xyz", b""), Vec::<u8>::new());
    assert_eq!(replace_line(b"ab", b"abc", b"z"), b"ab".to_vec());
}

#[test]
fn replacement_may_be_longer_or_hold_the_needle() {
    assert_eq!(replace_line(b"a.a", b"a", b"aa"), b"aa.aa".to_vec());
    assert_eq!(replace_line("é-é".as_bytes(), "é".as_bytes(), b"e"), b"e-e".to_vec());
}

#[test]
fn contains_finds_needle_anywhere() {
    assert!(line_contains(b"hello world\n", b"world"));
    assert!(line_contains(b"world", b"world"));
    assert!(line_contains(b"xworld", b"world"));
    assert!(!line_contains(b"worl", b"world"));
    assert!(!line_contains(b"", b"w"));
    assert!(!line_contains(b"hello\n", b"o\nx"));
}

#[test]
fn rewriter_hands_back_unmatched_line_as_is() {
    let mut rw = LineRewriter::new(b"needle", b"pin");
    assert_eq!(rw.rewrite_line(b"hay\n"), b"hay\n".to_vec());
    assert_eq!(rw.lines_changed(), 0);
    assert_eq!(rw.rewrite_line(b"a needle\n"), b"a pin\n".to_vec());
    assert_eq!(rw.lines_changed(), 1);
}

#[test]
fn non_text_bytes_pass_through_deterministically() {
    let mut rw = LineRewriter::new(b"\xff", b"?");
    assert_eq!(rw.rewrite_line(b"\x00\xff\xfe\n"), b"\x00?\xfe\n".to_vec());
    assert_eq!(rw.rewrite_line(b"\x00\xfe\n"), b"\x00\xfe\n".to_vec());
    assert_eq!(rw.lines_changed(), 1);
}
