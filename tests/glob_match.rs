use toprompt::pattern::GitIgnorePattern;

#[test]
fn lone_star_stops_at_slash() {
    assert!(GitIgnorePattern::simple_glob_match("*", "abc"));
    assert!(GitIgnorePattern::simple_glob_match("*", ""));
    assert!(!GitIgnorePattern::simple_glob_match("*", "a/b"));
}

#[test]
fn star_inside_glob() {
    assert!(GitIgnorePattern::simple_glob_match("*.rs", "main.rs"));
    assert!(!GitIgnorePattern::simple_glob_match("*.rs", "main.rsx"));
    assert!(GitIgnorePattern::simple_glob_match("a*c", "ac"));
    assert!(GitIgnorePattern::simple_glob_match("a*c", "abbbc"));
    assert!(GitIgnorePattern::simple_glob_match("a*b*c", "axxbyyc"));
    assert!(!GitIgnorePattern::simple_glob_match("a*b*c", "axxcyyb"));
    assert!(GitIgnorePattern::simple_glob_match("a**", "a"));
}

#[test]
fn question_mark_takes_one_char() {
    assert!(GitIgnorePattern::simple_glob_match("?.py", "a.py"));
    assert!(!GitIgnorePattern::simple_glob_match("?.py", ".py"));
    assert!(!GitIgnorePattern::simple_glob_match("?", ""));
}

#[test]
fn empty_glob_matches_empty_text_only() {
    assert!(GitIgnorePattern::simple_glob_match("", ""));
    assert!(!GitIgnorePattern::simple_glob_match("", "a"));
}

#[test]
fn literal_glob_is_exact_and_case_sensitive() {
    assert!(GitIgnorePattern::simple_glob_match("Makefile", "Makefile"));
    assert!(!GitIgnorePattern::simple_glob_match("Makefile", "makefile"));
    assert!(!GitIgnorePattern::simple_glob_match("abc", "abcd"));
}
