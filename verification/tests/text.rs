use myrustutils::text::{chars_of, contains_chars, find_chars, join_chars, trim_both_chars, trim_end_chars, trim_start_chars};

fn s(v: Vec<char>) -> String {
    v.into_iter().collect()
}

#[test]
fn trims() {
    assert_eq!(s(trim_start_chars(&chars_of("//a/b//"), '/')), "a/b//");
    assert_eq!(s(trim_end_chars(&chars_of("//a/b//"), '/')), "//a/b");
    assert_eq!(s(trim_both_chars(&chars_of("//a/b//"), '/')), "a/b");
    assert_eq!(s(trim_both_chars(&chars_of("////"), '/')), "");
}

#[test]
fn finds_first_occurrence() {
    assert_eq!(find_chars(&chars_of("abcabc"), &chars_of("bc")), Some(1));
    assert_eq!(find_chars(&chars_of("abc"), &chars_of("x")), None);
    assert_eq!(find_chars(&chars_of("abc"), &chars_of("")), Some(0));
    assert!(contains_chars(&chars_of("hello"), &chars_of("ll")));
    assert!(!contains_chars(&chars_of("hello"), &chars_of("lll")));
}

#[test]
fn joins_with_spaces() {
    let words = vec![chars_of("curl"), chars_of("-X"), chars_of("GET")];
    assert_eq!(s(join_chars(&words)), "curl -X GET");
    assert_eq!(s(join_chars(&vec![])), "");
}
