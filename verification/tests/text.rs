use cozyutils::commit::split_commit_message;
use cozyutils::text::{
    copy_range, has_part, has_prefix, has_suffix, index_of_char, index_of_char_from, join,
    matches_at, remove_char, replace, same_text, split_lines, trim, trim_end_of,
};

fn cs(s: &str) -> Vec<char> {
    s.chars().collect()
}

fn st(v: Vec<char>) -> String {
    v.into_iter().collect()
}

#[test]
fn replace_goes_left_to_right_without_overlap() {
    assert_eq!(st(replace(&cs("aaa"), &cs("aa"), &cs("b"))), "ba");
    assert_eq!(st(replace(&cs("a\r\nb\r\n"), &cs("\r\n"), &cs("\n"))), "a\nb\n");
    assert_eq!(st(replace(&cs("abc"), &cs(""), &cs("x"))), "abc");
    assert_eq!(st(replace(&cs("ab"), &cs("abc"), &cs("x"))), "ab");
    assert_eq!(st(replace(&cs("a b"), &cs(" "), &cs(""))), "ab");
    assert_eq!(st(replace(&cs(""), &cs("a"), &cs("b"))), "");
}

#[test]
fn lines_follow_the_line_feeds() {
    let texts = |s: &str| -> Vec<String> { split_lines(&cs(s)).into_iter().map(st).collect() };
    for s in ["", "a", "a\n", "a\n\n", "\n", "a\r\nb\r", "a\n\rb", "a\r\n\r\nb", "\r\n", "x\r"] {
        let expected: Vec<String> = s.lines().map(|l| l.to_string()).collect();
        assert_eq!(texts(s), expected, "{:?}", s);
    }
    assert_eq!(texts("a\r\nb\r"), vec!["a", "b\r"]);
}

#[test]
fn trimming_follows_white_space() {
    for s in ["", " ", " a ", "\t a b \r\n", "\u{a0}x\u{2003}", "a", " \u{1c} "] {
        assert_eq!(st(trim(&cs(s))), s.trim(), "{:?}", s);
        assert_eq!(st(trim_end_of(&cs(s))), s.trim_end(), "{:?}", s);
    }
}

#[test]
fn joining_sets_the_separator_between() {
    assert_eq!(st(join(&vec![], &cs(", "))), "");
    assert_eq!(st(join(&vec![cs("a")], &cs(", "))), "a");
    assert_eq!(st(join(&vec![cs("a"), cs(""), cs("b")], &cs(", "))), "a, , b");
}

#[test]
fn searching() {
    assert!(has_prefix(&cs("</g>"), &cs("</")));
    assert!(!has_prefix(&cs("<"), &cs("</")));
    assert!(has_prefix(&cs("x"), &cs("")));
    assert!(has_suffix(&cs("a?>"), &cs("?>")));
    assert!(!has_suffix(&cs(">"), &cs("?>")));
    assert!(has_part(&cs("<a/>"), &cs("/>")));
    assert!(has_part(&cs("/>"), &cs("/>")));
    assert!(!has_part(&cs("/ >"), &cs("/>")));
    assert!(has_part(&cs(""), &cs("")));
    assert!(matches_at(&cs("abc"), &cs("bc"), 1));
    assert!(!matches_at(&cs("abc"), &cs("bc"), 2));
    assert!(!matches_at(&cs("abc"), &cs("bc"), usize::MAX));
    assert!(same_text(&cs("ab"), &cs("ab")));
    assert!(!same_text(&cs("ab"), &cs("abc")));
    assert_eq!(index_of_char(&cs("a.b.c"), '.'), 1);
    assert_eq!(index_of_char(&cs("abc"), '.'), 3);
    assert_eq!(index_of_char_from(&cs("a.b.c"), '.', 2), 3);
    assert_eq!(st(copy_range(&cs("abcd"), 1, 3)), "bc");
    assert_eq!(st(remove_char(&cs(" a b "), ' ')), "ab");
}

#[test]
fn commit_message_with_a_body() {
    let parts = split_commit_message("\n feat: add scan \n\n- one\n- two\n\n");
    assert_eq!(parts.subject, "feat: add scan");
    assert_eq!(parts.body, "- one\n- two");
}

#[test]
fn commit_message_without_a_blank_line_keeps_all_lines() {
    let parts = split_commit_message("fix: x\n- one\n- two");
    assert_eq!(parts.subject, "fix: x");
    assert_eq!(parts.body, "- one\n- two");
}

#[test]
fn commit_message_body_begins_behind_the_first_blank_line() {
    let parts = split_commit_message("s\nlead\n \nbody\n\nmore");
    assert_eq!(parts.subject, "s");
    assert_eq!(parts.body, "body\n\nmore");
}

#[test]
fn commit_message_of_one_line_or_none() {
    let parts = split_commit_message("  only  ");
    assert_eq!(parts.subject, "only");
    assert_eq!(parts.body, "");
    let parts = split_commit_message(" \n ");
    assert_eq!(parts.subject, "");
    assert_eq!(parts.body, "");
}
