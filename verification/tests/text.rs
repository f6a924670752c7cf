use cargo_stub::text::{join, split_lines, trim};

#[test]
fn lines_split_at_newlines_and_crlf() {
    let lines = split_lines("foo\r\nbar\n\nbaz\r");
    assert_eq!(lines, vec!["foo".to_string(), "bar".to_string(), String::new(), "baz\r".to_string()]);
}

#[test]
fn lines_of_empty_text() {
    assert!(split_lines("").is_empty());
}

#[test]
fn final_newline_gives_no_empty_line() {
    assert_eq!(split_lines("a\n"), vec!["a".to_string()]);
    assert_eq!(split_lines("\n"), vec![String::new()]);
    assert_eq!(split_lines("a\n\n"), vec!["a".to_string(), String::new()]);
}

#[test]
fn lines_agree_with_std() {
    let texts = ["", "x", "x\ny", "x\r\ny\r\n", "\r\n\r\n", "a\rb\n", "ünï\ncödé\n", "\n\nz"];
    for t in texts.iter() {
        let expected: Vec<String> = t.lines().map(|l| l.to_string()).collect();
        assert_eq!(split_lines(t), expected, "text {:?}", t);
    }
}

#[test]
fn join_puts_separator_between_parts() {
    let parts = vec!["a".to_string(), "b".to_string(), "c".to_string()];
    assert_eq!(join(&parts, ", "), "a, b, c");
    assert_eq!(join(&vec!["one".to_string()], "\n"), "one");
    assert_eq!(join(&Vec::new(), "\n"), "");
}

#[test]
fn split_then_join_gives_text_back() {
    let text = "fn main() {\n    run();\n\n}";
    assert_eq!(join(&split_lines(text), "\n"), text);
}

#[test]
fn split_then_join_loses_final_newline() {
    assert_eq!(join(&split_lines("a\nb\n"), "\n"), "a\nb");
}

#[test]
fn trim_removes_white_space_at_both_ends() {
    assert_eq!(trim("  /usr/lib/rust\n"), "/usr/lib/rust");
    assert_eq!(trim("\u{3000}x y\u{a0}\t"), "x y");
    assert_eq!(trim(" \n\t "), "");
    assert_eq!(trim("plain"), "plain");
}

#[test]
fn trim_agrees_with_std() {
    let texts = ["", " a ", "\u{85}b\u{2028}", "\u{200b}c\u{200b}", "\r\nd e\r\n"];
    for t in texts.iter() {
        assert_eq!(trim(t), t.trim(), "text {:?}", t);
    }
}
