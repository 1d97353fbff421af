use ezproxy::text::{contains, find, join_chars, replace_all_chars, split_chars, trim_chars};

fn chars(s: &str) -> Vec<char> {
    s.chars().collect()
}

#[test]
fn split_keeps_empty_pieces() {
    assert_eq!(split_chars(&chars("a  b"), ' '), vec!["a", "", "b"]);
    assert_eq!(split_chars(&chars(""), ' '), vec![""]);
}

#[test]
fn join_puts_separator_between() {
    let words = vec!["x".to_string(), "y".to_string(), "z".to_string()];
    assert_eq!(join_chars(&words, ' '), chars("x y z"));
    assert_eq!(join_chars(&[], ' '), chars(""));
}

#[test]
fn search_and_replace() {
    assert!(contains(&chars("a{ALL}b"), &chars("{ALL}")));
    assert!(!contains(&chars("a{AL}b"), &chars("{ALL}")));
    assert_eq!(find(&chars("a = b = c"), &chars(" = ")), Some(1));
    assert_eq!(find(&chars("a=b"), &chars(" = ")), None);
    assert_eq!(replace_all_chars(&chars("aXbXc"), &chars("X"), &chars("yy")), chars("ayybyyc"));
}

#[test]
fn trim_strips_unicode_space() {
    assert_eq!(trim_chars(&chars("\u{3000} a b\t\r\n")), chars("a b"));
    assert_eq!(trim_chars(&chars("   ")), chars(""));
}
