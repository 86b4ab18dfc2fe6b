use sessionly::session_store::record_text;
use sessionly::text::{
    char_is_whitespace, chars_of, str_contains, str_ends_with, str_eq, str_is_blank,
    str_replace_char, str_split_on, str_starts_with, str_trim, take_chars,
};

#[test]
fn blank_text_is_recognised() {
    assert!(str_is_blank(""));
    assert!(str_is_blank(" \t\n\u{3000}"));
    assert!(str_is_blank("\u{85}\u{a0}\u{1680}\u{2000}\u{200a}\u{2028}\u{2029}\u{202f}\u{205f}"));
    assert!(!str_is_blank("  x "));
    assert!(!str_is_blank("\u{200b}"));
}

#[test]
fn whitespace_agrees_with_the_standard_library() {
    let mut code: u32 = 0;
    while code < 0x3100 {
        if let Some(c) = char::from_u32(code) {
            assert_eq!(char_is_whitespace(c), c.is_whitespace(), "code point {:x}", code);
        }
        code += 1;
    }
}

#[test]
fn take_chars_counts_characters_not_bytes() {
    assert_eq!(take_chars("héllo", 2), "hé");
    assert_eq!(take_chars("hi", 200), "hi");
    assert_eq!(take_chars("hi", 2), "hi");
    assert_eq!(take_chars("hi", 0), "");
}

#[test]
fn substring_search_finds_the_needle() {
    assert!(str_contains("curl -s http://localhost:19823/sessionly -d @-", "localhost:19823/sessionly"));
    assert!(!str_contains("abc", "abcd"));
    assert!(str_contains("abc", ""));
    assert!(str_contains("", ""));
    assert!(str_contains("aab", "ab"));
    assert!(!str_contains("aab", "ba"));
}

#[test]
fn prefixes_and_suffixes() {
    assert!(str_starts_with("agent-7.jsonl", "agent-"));
    assert!(!str_starts_with("agen", "agent-"));
    assert!(str_starts_with("x", ""));
    assert!(str_ends_with("agent-7.jsonl", ".jsonl"));
    assert!(!str_ends_with("jsonl", ".jsonl"));
    assert!(str_ends_with(".jsonl", ".jsonl"));
}

#[test]
fn equality_is_by_characters() {
    assert!(str_eq("user", "user"));
    assert!(!str_eq("user", "users"));
    assert!(!str_eq("User", "user"));
    assert!(str_eq("", ""));
}

#[test]
fn chars_of_lists_the_characters() {
    assert_eq!(chars_of("aé-"), vec!['a', 'é', '-']);
    assert_eq!(chars_of(""), Vec::<char>::new());
}

#[test]
fn replace_char_replaces_every_occurrence() {
    assert_eq!(str_replace_char("-Users-alice-my-project", '-', '/'), "/Users/alice/my/project");
    assert_eq!(str_replace_char("", '-', '/'), "");
    assert_eq!(str_replace_char("abc", '-', '/'), "abc");
}

#[test]
fn split_keeps_empty_pieces() {
    assert_eq!(str_split_on("Users-alice-my-project", '-'), vec!["Users", "alice", "my", "project"]);
    assert_eq!(str_split_on("", '-'), vec![""]);
    assert_eq!(str_split_on("a--b", '-'), vec!["a", "", "b"]);
    assert_eq!(str_split_on("-a-", '-'), vec!["", "a", ""]);
    assert_eq!(str_split_on("abc", '-'), vec!["abc"]);
}

#[test]
fn trim_takes_whitespace_off_both_ends() {
    assert_eq!(str_trim("  a b \t\n"), "a b");
    assert_eq!(str_trim("a"), "a");
    assert_eq!(str_trim(""), "");
    assert_eq!(str_trim(" \u{a0}\u{2028} "), "");
    assert_eq!(str_trim("\u{3000}é \u{200b}\u{85}"), "é \u{200b}");
}

#[test]
fn trim_agrees_with_the_standard_library() {
    for text in ["", " ", "a", " a", "a ", "\r\n{\"x\": 1}\r\n", "\u{a0}x\u{a0}y\u{1680}", "\t\t"] {
        assert_eq!(str_trim(text), text.trim());
    }
}

#[test]
fn a_blank_line_holds_no_record() {
    assert_eq!(record_text(""), None);
    assert_eq!(record_text("   \t"), None);
    assert_eq!(record_text("\r"), None);
    assert_eq!(record_text(" {\"type\":\"user\"} \r"), Some("{\"type\":\"user\"}".to_string()));
    assert_eq!(record_text("x"), Some("x".to_string()));
}
