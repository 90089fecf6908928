use globber::{
    build_glob_pattern, glob_match, glob_match_all_prebuilt, glob_match_any_prebuilt,
    glob_match_case_sensitive, glob_match_prebuilt, GlobCaseSensitive, GlobIgnoreCase,
    GlobPattern, Multipart,
};

#[test]
fn glob_match_prebuilt_multipart() {
    let pattern = build_glob_pattern("*.*.test.cs").unwrap();
    assert!(glob_match_prebuilt(&pattern, "startling.magic.test.cs"));
}

#[test]
fn glob_match_multipart() {
    assert!(glob_match("*.*.Test.cs", "startling.magic.teSt.cs").unwrap());
}

#[test]
fn glob_match_multipart_case_sensitive() {
    assert!(!glob_match_case_sensitive("*.*.Test.cs", "startling.magic.teSt.cs").unwrap());
    assert!(glob_match_case_sensitive("*.*.Test.cs", "startling.magic.Test.cs").unwrap());
}

#[test]
fn glob_match_multipart_multiple_dots() {
    assert!(glob_match("*.*~", "test.dots.~multiple.~").unwrap());
}

#[test]
fn glob_match_multipart_multiple_dots_chars_before_end() {
    assert!(glob_match("*.*~", "test.dots.~multiple.un~").unwrap());
}

#[test]
fn glob_match_multipart_multiple_dots_chars_before_end_pattern_ends_with_un_tilde() {
    assert!(glob_match("*.un~", "test.dots.un~.un~").unwrap());
}

#[test]
fn glob_match_multipart_exact_end_only_last_char_differs() {
    assert!(!glob_match("*.un~", "test.dots.un~.un").unwrap());
}

#[test]
fn glob_match_multipart_exact_end_only_last_char_differs_no_previous_matches() {
    assert!(!glob_match("*.Un~", "test.un").unwrap());
}

#[test]
fn glob_match_prebuilt_multipart_case_sensitive() {
    let pattern = GlobCaseSensitive::build("*.*.test.cs").unwrap();
    assert!(pattern.is_match("startling.magic.test.cs"));
}

#[test]
fn glob_match_prebuilt_multipart_ignore_case() {
    let pattern = GlobIgnoreCase::build("*.*.test.cs").unwrap();
    assert!(pattern.is_match("startling.MAGIC.test.cs"));
}

#[test]
fn dadada() {
    assert!(glob_match("da*da*da*", "daaadabadmanda").unwrap());
}

#[test]
fn pattern_without_wildcard_matches_only_itself() {
    let pattern = build_glob_pattern("test").unwrap();
    assert!(glob_match_prebuilt(&pattern, "test"));
    assert!(!glob_match_prebuilt(&pattern, "tes"));
    assert!(!glob_match_prebuilt(&pattern, "test "));
    assert!(!glob_match_prebuilt(&pattern, "Test"));
    assert!(!glob_match_prebuilt(&pattern, ""));
    let empty = build_glob_pattern("").unwrap();
    assert!(glob_match_prebuilt(&empty, ""));
    assert!(!glob_match_prebuilt(&empty, "a"));
}

#[test]
fn lone_wildcard_matches_everything() {
    let pattern = build_glob_pattern("*").unwrap();
    assert!(glob_match_prebuilt(&pattern, ""));
    assert!(glob_match_prebuilt(&pattern, "*"));
    assert!(glob_match_prebuilt(&pattern, "anything at all"));
}

#[test]
fn literal_between_wildcards() {
    let pattern = build_glob_pattern("*val*").unwrap();
    assert!(glob_match_prebuilt(&pattern, "val"));
    assert!(glob_match_prebuilt(&pattern, "xvalx"));
    assert!(glob_match_prebuilt(&pattern, "valval"));
    assert!(!glob_match_prebuilt(&pattern, "va"));
    assert!(!glob_match_prebuilt(&pattern, ""));
}

#[test]
fn folding_decides_the_match() {
    assert_eq!(glob_match("*.Test.cs", "startling.magic.TEST.CS"), Ok(true));
    assert_eq!(glob_match_case_sensitive("*.Test.cs", "startling.magic.TEST.CS"), Ok(false));
}

#[test]
fn anchored_end_rejects_near_misses() {
    let pattern = build_glob_pattern("*.un~").unwrap();
    assert!(glob_match_prebuilt(&pattern, "test.dots.un~.un~"));
    assert!(!glob_match_prebuilt(&pattern, "test.dots.un~.un"));
    assert!(!glob_match_prebuilt(&pattern, "test.un"));
}

#[test]
fn trailing_wildcard_ignores_what_follows() {
    let pattern = build_glob_pattern("*val*brawl*").unwrap();
    assert!(glob_match_prebuilt(&pattern, "xvalxbrawlxxxx"));
    assert!(glob_match_prebuilt(&pattern, "valbrawl"));
    assert!(!glob_match_prebuilt(&pattern, "brawlval"));
    assert!(!glob_match_prebuilt(&pattern, "xvalxbraw"));
}

#[test]
fn prefix_and_suffix_patterns() {
    let start = build_glob_pattern("test*").unwrap();
    assert!(glob_match_prebuilt(&start, "test"));
    assert!(glob_match_prebuilt(&start, "testing"));
    assert!(!glob_match_prebuilt(&start, "tes"));
    assert!(!glob_match_prebuilt(&start, "a test"));
    let end = build_glob_pattern("*test").unwrap();
    assert!(glob_match_prebuilt(&end, "test"));
    assert!(glob_match_prebuilt(&end, "a test"));
    assert!(!glob_match_prebuilt(&end, "testing"));
    assert!(!glob_match_prebuilt(&end, "est"));
    let both = build_glob_pattern("x*y").unwrap();
    assert!(glob_match_prebuilt(&both, "xy"));
    assert!(glob_match_prebuilt(&both, "x and y"));
    assert!(!glob_match_prebuilt(&both, "x"));
    assert!(!glob_match_prebuilt(&both, "yx"));
}

#[test]
fn both_ends_may_share_characters() {
    let both = build_glob_pattern("ab*bc").unwrap();
    assert!(glob_match_prebuilt(&both, "abbc"));
    assert!(glob_match_prebuilt(&both, "abc"));
    assert!(!glob_match_prebuilt(&both, "ab"));
    assert!(!glob_match_prebuilt(&both, "bc"));
}

#[test]
fn search_resumes_one_character_after_a_failed_start() {
    let pattern = build_glob_pattern("*ab*").unwrap();
    assert!(glob_match_prebuilt(&pattern, "aab"));
    let pattern = build_glob_pattern("*aab*").unwrap();
    assert!(glob_match_prebuilt(&pattern, "aaab"));
    let pattern = build_glob_pattern("x*aa*b").unwrap();
    assert!(glob_match_prebuilt(&pattern, "xaaab"));
}

#[test]
fn anchored_end_considers_overlapping_starts() {
    let pattern = build_glob_pattern("*x*aa").unwrap();
    assert!(glob_match_prebuilt(&pattern, "xaaa"));
    assert!(glob_match_prebuilt(&pattern, "xaa"));
    assert!(!glob_match_prebuilt(&pattern, "xa"));
    assert!(!glob_match_prebuilt(&pattern, "xaab"));
}

#[test]
fn wildcard_may_stand_for_nothing() {
    let pattern = build_glob_pattern("ab*cd*").unwrap();
    assert!(glob_match_prebuilt(&pattern, "abcd"));
    assert!(glob_match_prebuilt(&pattern, "ab--cd--"));
    assert!(!glob_match_prebuilt(&pattern, "abc"));
    let pattern = build_glob_pattern("ab*cd*ef").unwrap();
    assert!(glob_match_prebuilt(&pattern, "abcdef"));
    assert!(!glob_match_prebuilt(&pattern, "abcdefg"));
}

#[test]
fn exact_start_needs_the_whole_literal() {
    let pattern = build_glob_pattern("abc*d*").unwrap();
    assert!(!glob_match_prebuilt(&pattern, "ab"));
    assert!(!glob_match_prebuilt(&pattern, "abd"));
    assert!(!glob_match_prebuilt(&pattern, ""));
    assert!(glob_match_prebuilt(&pattern, "abcd"));
}

#[test]
fn segments_are_never_reconsidered() {
    // The first "a" is taken at the start; "b" must follow it and end the subject.
    let pattern = build_glob_pattern("*a*b").unwrap();
    assert!(glob_match_prebuilt(&pattern, "ab"));
    assert!(glob_match_prebuilt(&pattern, "aab"));
    assert!(!glob_match_prebuilt(&pattern, "ba"));
}

#[test]
fn empty_segment_list_matches_nothing() {
    let pattern = GlobPattern::Multipart(Vec::new());
    assert!(!glob_match_prebuilt(&pattern, ""));
    assert!(!glob_match_prebuilt(&pattern, "anything"));
}

#[test]
fn hand_built_segments() {
    let pattern = GlobPattern::Multipart(vec![Multipart::AnyEnd]);
    assert!(glob_match_prebuilt(&pattern, ""));
    assert!(glob_match_prebuilt(&pattern, "anything"));
    let pattern = GlobPattern::Multipart(vec![
        Multipart::ExactStart("a".to_string()),
        Multipart::AnyUntil("b".to_string()),
    ]);
    assert!(glob_match_prebuilt(&pattern, "axxbyyy"));
    assert!(!glob_match_prebuilt(&pattern, "axx"));
    let pattern = GlobPattern::Multipart(vec![Multipart::AnyUntilExactEnd("end".to_string())]);
    assert!(glob_match_prebuilt(&pattern, "the end"));
    assert!(!glob_match_prebuilt(&pattern, "the end."));
}

#[test]
fn characters_outside_ascii() {
    let pattern = build_glob_pattern("*é*ü").unwrap();
    assert!(glob_match_prebuilt(&pattern, "aébü"));
    assert!(!glob_match_prebuilt(&pattern, "aebu"));
    assert!(glob_match("*straße", "HAUPTSTRASSE").unwrap());
}

#[test]
fn any_and_all_over_prebuilt_patterns() {
    let patterns = vec![
        build_glob_pattern("hello*").unwrap(),
        build_glob_pattern("*world").unwrap(),
    ];
    assert!(glob_match_any_prebuilt(&patterns, "hello there"));
    assert!(glob_match_any_prebuilt(&patterns, "whole world"));
    assert!(!glob_match_any_prebuilt(&patterns, "neither"));
    assert!(glob_match_all_prebuilt(&patterns, "hello world"));
    assert!(!glob_match_all_prebuilt(&patterns, "hello there"));
    let none: Vec<GlobPattern> = Vec::new();
    assert!(!glob_match_any_prebuilt(&none, "hello"));
    assert!(glob_match_all_prebuilt(&none, "hello"));
}

#[test]
fn matching_reports_the_compile_error() {
    assert_eq!(glob_match("*val**", "val"), Err(()));
    assert_eq!(glob_match_case_sensitive("*val**", "val"), Err(()));
}
