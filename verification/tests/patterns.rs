use task_tester::pattern::{chars_of, find, substitute};

#[test]
fn find_gives_the_first_offset() {
    assert_eq!(find("in/sum{test}.in", "{test}"), Some(6));
    assert_eq!(find("{test}", "{test}"), Some(0));
    assert_eq!(find("a{test}b{test}c", "{test}"), Some(1));
    assert_eq!(find("aaa", "aa"), Some(0));
    assert_eq!(find("xaab", "ab"), Some(2));
}

#[test]
fn find_gives_none_without_an_occurrence() {
    assert_eq!(find("in/sum.in", "{test}"), None);
    assert_eq!(find("", "{test}"), None);
    assert_eq!(find("{test", "{test}"), None);
    assert_eq!(find("{tes}t", "{test}"), None);
    assert_eq!(find("ab", "abc"), None);
}

#[test]
fn find_of_the_empty_pattern_is_the_start() {
    assert_eq!(find("abc", ""), Some(0));
    assert_eq!(find("", ""), Some(0));
}

#[test]
fn find_counts_characters_not_bytes() {
    // Each of the two letters before the slot takes two bytes.
    assert_eq!(find("\u{e9}\u{e9}{test}", "{test}"), Some(2));
    assert_eq!("\u{e9}\u{e9}{test}".find("{test}"), Some(4));
}

#[test]
fn substitute_replaces_every_occurrence() {
    assert_eq!(substitute("in/{task}{test}.in", "{task}", "sum"), "in/sum{test}.in");
    assert_eq!(substitute("{task}/{task}.in", "{task}", "ab"), "ab/ab.in");
    assert_eq!(substitute("{task}{task}", "{task}", ""), "");
    assert_eq!(substitute("x{task}", "{task}", "y"), "xy");
    assert_eq!(substitute("{task}x", "{task}", "y"), "yx");
}

#[test]
fn substitute_without_occurrence_copies() {
    assert_eq!(substitute("in/sum.in", "{task}", "x"), "in/sum.in");
    assert_eq!(substitute("", "{task}", "x"), "");
    assert_eq!(substitute("{task", "{task}", "x"), "{task");
}

#[test]
fn substitute_goes_from_left_to_right_without_overlap() {
    assert_eq!(substitute("aaa", "aa", "b"), "ba");
    assert_eq!(substitute("aaaa", "aa", "b"), "bb");
    assert_eq!(substitute("ababa", "aba", "x"), "xba");
}

#[test]
fn substitute_does_not_look_at_what_it_put_in() {
    assert_eq!(substitute("a", "a", "aa"), "aa");
    assert_eq!(substitute("{task}", "{task}", "{task}{task}"), "{task}{task}");
}

#[test]
fn substitute_with_an_empty_pattern_copies() {
    assert_eq!(substitute("abc", "", "x"), "abc");
    assert_eq!(substitute("", "", "x"), "");
}

#[test]
fn substitute_agrees_with_str_replace() {
    let cases = [
        ("in/{task}{test}.in", "{task}", "sum"),
        ("{test}{test}{test}", "{test}", "*"),
        ("a{b}c", "{b}", "\u{e9}"),
        ("\u{4e2d}{test}\u{6587}", "{test}", "01"),
        ("aXbXc", "X", "--"),
        ("abc", "abcd", "x"),
    ];
    for (s, pat, to) in cases {
        assert_eq!(substitute(s, pat, to), s.replace(pat, to));
    }
}

#[test]
fn chars_of_keeps_every_character() {
    assert_eq!(chars_of("a\u{e9}\u{4e2d}"), vec!['a', '\u{e9}', '\u{4e2d}']);
    assert_eq!(chars_of(""), Vec::<char>::new());
}
