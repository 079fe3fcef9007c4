use todo_lib::tfilter::str_matches;

#[test]
fn matches() {
    assert!(!str_matches("abcd", "abc"));
    assert!(str_matches("abcd", "abcd"));
    assert!(!str_matches("abcd", "abcde"));
    assert!(str_matches("abcd", "abc*"));
    assert!(str_matches("abcd", "*bcd"));
    assert!(str_matches("abcd", "*b*"));
    assert!(!str_matches("abcd", "bc*"));
    assert!(!str_matches("abcd", "*bc"));
    assert!(!str_matches("abcd", ""));
    assert!(!str_matches("", "abcd"));
    assert!(str_matches("abcd", "*d*"));
    assert!(str_matches("abcd", "*a*"));
}
