// The search engine of the grep command.
use cli_rust::grep::{select_lines, GrepEngine};

fn lines(text: &str) -> Vec<String> {
    text.lines().map(|l| l.to_string()).collect()
}

fn grep(pattern: &str, input: &str, word: bool, ignore_case: bool, after: Option<usize>) -> Vec<String> {
    let engine = GrepEngine::new(pattern, word, ignore_case, after, false).unwrap();
    engine.process_lines(lines(input), None)
}

#[test]
fn test_grep_basic_pattern() {
    let out = grep("test", "line1\nline with test\nline3\ntest line\n", false, false, None);
    assert_eq!(out.len(), 2);
    assert!(out[0].contains("line with test"));
    assert!(out[1].contains("test line"));
}

#[test]
fn test_grep_regex_pattern() {
    let out = grep(r"test\d+", "test123\ntest456\nno match\n", false, false, None);
    assert_eq!(out, vec!["test123", "test456"]);
}

#[test]
fn test_grep_case_insensitive() {
    let out = grep("test", "Test\nTEST\ntest\nNoMatch\n", false, true, None);
    assert_eq!(out, vec!["Test", "TEST", "test"]);
}

#[test]
fn test_grep_word_boundary() {
    let out = grep("test", "test\ntesting\ntest123\ntest_word\nno test here\n", true, false, None);
    assert_eq!(out, vec!["test", "no test here"]);
}

#[test]
fn test_grep_after_context() {
    let out = grep("match", "line1\nmatch\nline3\nline4\nmatch\nline6\n", false, false, Some(1));
    assert_eq!(out, vec!["match", "line3", "--", "match", "line6"]);
}

#[test]
fn test_grep_after_context_zero() {
    let out = grep("match", "line1\nmatch\nline3\n", false, false, Some(0));
    assert_eq!(out, vec!["match"]);
}

#[test]
fn test_grep_overlapping_context() {
    let out = grep("match", "match1\ncontext1\nmatch2\ncontext2\n", false, false, Some(2));
    assert_eq!(out, vec!["match1", "context1", "match2", "context2"]);
}

#[test]
fn test_grep_multiple_files() {
    let engine = GrepEngine::from_args("test", false, false, None, 2).unwrap();
    let a = engine.process_lines(lines("test in file1\n"), Some("file1.txt"));
    let b = engine.process_lines(lines("test in file2\n"), Some("file2.txt"));
    assert_eq!(a, vec!["file1.txt:test in file1"]);
    assert_eq!(b, vec!["file2.txt:test in file2"]);
}

#[test]
fn single_file_has_no_prefix() {
    let engine = GrepEngine::from_args("test", false, false, None, 1).unwrap();
    assert_eq!(engine.process_lines(lines("a test\n"), Some("f.txt")), vec!["a test"]);
}

#[test]
fn test_grep_invalid_regex() {
    let err = GrepEngine::new("[invalid", false, false, None, false).err().unwrap();
    assert!(err.contains("Invalid regex pattern"));
    assert!(err.starts_with("Invalid regex pattern '[invalid': "));
    assert!(err.len() > "Invalid regex pattern '[invalid': ".len());
}

#[test]
fn test_grep_empty_pattern() {
    let err = GrepEngine::from_args("", false, false, None, 1).err().unwrap();
    assert!(err.contains("empty pattern"));
}

#[test]
fn test_grep_unicode_support() {
    assert_eq!(grep("мир", "hello мир\ntest 世界\n", false, false, None), vec!["hello мир"]);
}

#[test]
fn test_grep_case_insensitive_unicode() {
    let out = grep("мир", "HELLO мир\nhello МИР\ntest\n", false, true, None);
    assert_eq!(out, vec!["HELLO мир", "hello МИР"]);
}

#[test]
fn test_grep_line_anchors() {
    let out = grep("^test", "test at start\nmiddle test\nend test", false, false, None);
    assert_eq!(out, vec!["test at start"]);
}

#[test]
fn test_grep_end_anchor() {
    let out = grep("test$", "start test\ntest middle\ntest", false, false, None);
    assert_eq!(out, vec!["start test", "test"]);
}

#[test]
fn test_grep_complex_regex() {
    let out = grep(
        r"\b[A-Za-z0-9._%+-]+@[A-Za-z0-9.-]+\.[A-Z|a-z]{2,}\b",
        "email@test.com\ninvalid-email\nuser+tag@domain.org\n@domain.com",
        false,
        false,
        None,
    );
    assert_eq!(out, vec!["email@test.com", "user+tag@domain.org"]);
}

#[test]
fn test_grep_no_matches() {
    assert!(grep("nomatch", "line1\nline2\nline3", false, false, None).is_empty());
}

#[test]
fn test_grep_context_with_separator() {
    let out = grep("match", "before1\nmatch1\nafter1\nbefore2\nmatch2\nafter2", false, false, Some(1));
    assert_eq!(out, vec!["match1", "after1", "--", "match2", "after2"]);
}

#[test]
fn test_grep_multiple_patterns_same_line() {
    let out = grep("test", "test test\ntest other\ntest", false, false, None);
    assert_eq!(out, vec!["test test", "test other", "test"]);
}

#[test]
fn test_grep_case_insensitive_with_regex() {
    let out = grep("test\\d+", "Test123\ntest456\nTEST789", false, true, None);
    assert_eq!(out, vec!["Test123", "test456", "TEST789"]);
}

#[test]
fn test_grep_word_boundary_unicode() {
    let out = grep("привет", "привет\nприветмир\nмир привет\nтест", true, false, None);
    assert_eq!(out, vec!["привет", "мир привет"]);
}

#[test]
fn test_grep_word_boundary_with_alternation() {
    let out = grep("cat|dog", "cat\ndog\nhotdog\nscat\ncatdog\ncat dog\n", true, false, None);
    assert_eq!(out, vec!["cat", "dog", "cat dog"]);
}

#[test]
fn trailing_separator_after_block_before_end() {
    let out = grep("match", "line1\nmatch\nline3\nline4", false, false, Some(1));
    assert_eq!(out, vec!["match", "line3", "--"]);
}

#[test]
fn adjacent_blocks_get_a_separator() {
    let sel = select_lines(&vec![true, false, true, false], 1);
    assert_eq!(sel, vec![Some(0), Some(1), None, Some(2), Some(3)]);
}

#[test]
fn context_lines_are_those_after_matches() {
    let ms = vec![false, true, false, false, false, true, false, false];
    let sel = select_lines(&ms, 2);
    assert_eq!(sel, vec![Some(1), Some(2), Some(3), None, Some(5), Some(6), Some(7)]);
    assert_eq!(select_lines(&ms, 0), vec![Some(1), Some(5)]);
    assert_eq!(select_lines(&vec![], 3), vec![]);
}

#[test]
fn matching_is_by_regex() {
    let engine = GrepEngine::new("a.c", false, false, None, false).unwrap();
    assert!(engine.is_match("xabcx"));
    assert!(!engine.is_match("ac"));
}

#[test]
fn context_example_with_separator() {
    let out = grep("error", "line1\nerror line2\nline3\nerror line4", false, false, Some(1));
    assert_eq!(out, vec!["error line2", "line3", "--", "error line4"]);
}

#[test]
fn cyrillic_examples() {
    let text = "Минимальный синтаксис grep\nдругая строка";
    assert_eq!(grep("Минимальный", text, false, false, None), vec!["Минимальный синтаксис grep"]);
    assert!(grep("Минимальный$", text, false, false, None).is_empty());
    assert_eq!(grep("^Минимальный", text, false, false, None), vec!["Минимальный синтаксис grep"]);
    assert_eq!(grep("минимальный", text, false, true, None), vec!["Минимальный синтаксис grep"]);
    assert!(grep("Минимал", text, true, false, None).is_empty());
}

#[test]
fn invalid_pattern_message_carries_regex_error_text() {
    let err = GrepEngine::new("[invalid", false, false, None, false).err().unwrap();
    let text = regex::RegexBuilder::new("[invalid").build().unwrap_err().to_string();
    assert_eq!(err, format!("Invalid regex pattern '[invalid': {}", text));
    let err = GrepEngine::new("(a", true, true, None, false).err().unwrap();
    let text = regex::RegexBuilder::new("\\b(?:(a)\\b").case_insensitive(true).build().unwrap_err().to_string();
    assert_eq!(err, format!("Invalid regex pattern '(a': {}", text));
}
