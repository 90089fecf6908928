use globber::{GlobCaseSensitive, GlobIgnoreCase, GlobList};

#[test]
fn empty_glob_list_any_match_never_matches() {
    let glob_list = GlobList::new();
    assert!(!glob_list.any_match(""));
    assert!(!glob_list.any_match("hello nice world"));
    assert!(!glob_list.any_match("world, you are nice, hello"));
    assert!(!glob_list.any_match("HELLO nice world"));
    assert!(!glob_list.any_match("world, you are nice, hELLO"));
}

#[test]
fn empty_glob_list_all_match_always_matches() {
    let glob_list = GlobList::new();
    assert!(glob_list.all_match(""));
    assert!(glob_list.all_match("hello nice world"));
    assert!(glob_list.all_match("world, you are nice, hello"));
    assert!(glob_list.all_match("HELLO nice world"));
    assert!(glob_list.all_match("world, you are nice, hELLO"));
}

#[test]
fn build_glob_list_any_match() {
    let patterns: Vec<String> = vec!["hello*world", "world*hello"]
        .into_iter()
        .map(String::from)
        .collect();
    let glob_list = GlobList::build(&patterns).unwrap();
    assert!(glob_list.any_match("hello nice world"));
    assert!(glob_list.any_match("world, you are nice, hello"));
    assert!(!glob_list.any_match("HELLO nice world"));
    assert!(!glob_list.any_match("world, you are nice, hELLO"));
}

#[test]
fn build_glob_list_all_match() {
    let patterns: Vec<String> = vec!["hello*world", "*world*hello*"]
        .into_iter()
        .map(String::from)
        .collect();
    let glob_list = GlobList::build(&patterns).unwrap();
    assert!(glob_list.all_match("hello nice world hello world"));
    assert!(glob_list.all_match("hello world, you are nice, hello world"));
    assert!(!glob_list.all_match("hELlo nice world hello world"));
    assert!(!glob_list.all_match("hello world, you are nice, hELLO world"));
}

#[test]
fn build_case_insensitive_glob_list_any_match() {
    let patterns: Vec<String> = vec!["hello*world", "world*hello"]
        .into_iter()
        .map(String::from)
        .collect();
    let glob_list = GlobList::build_ignore_case(&patterns).unwrap();
    assert!(glob_list.any_match("hello nice world"));
    assert!(glob_list.any_match("world, you are nice, hello"));
    assert!(glob_list.any_match("HELLO nice world"));
    assert!(glob_list.any_match("world, YOU are nice, hello"));
}

#[test]
fn build_case_insensitive_glob_list_all_match() {
    let patterns: Vec<String> = vec!["hello*world", "*world*hello*"]
        .into_iter()
        .map(String::from)
        .collect();
    let glob_list = GlobList::build_ignore_case(&patterns).unwrap();
    assert!(glob_list.all_match("hello nice world hello world"));
    assert!(glob_list.all_match("hello world, you are nice, hello world"));
    assert!(glob_list.all_match("hELlo nice world hello world"));
    assert!(glob_list.all_match("hello world, you are nice, hELLO world"));
}

#[test]
fn default_list_is_empty() {
    let glob_list = GlobList::default();
    assert!(glob_list.is_empty());
    assert!(!glob_list.any_match("hello"));
    assert!(glob_list.all_match("hello"));
}

#[test]
fn one_bad_pattern_fails_the_list() {
    let patterns: Vec<String> = vec!["hello*world", "a**b", "fine"]
        .into_iter()
        .map(String::from)
        .collect();
    assert!(GlobList::build(&patterns).is_err());
    assert!(GlobList::build_ignore_case(&patterns).is_err());
    let none: Vec<String> = Vec::new();
    assert!(GlobList::build(&none).unwrap().is_empty());
    assert!(GlobList::build_ignore_case(&none).unwrap().is_empty());
}

#[test]
fn added_patterns_are_asked() {
    let mut glob_list = GlobList::new();
    assert!(glob_list.is_empty());
    glob_list.add_case_sensitive(GlobCaseSensitive::build("hello*").unwrap());
    assert!(!glob_list.is_empty());
    assert!(glob_list.any_match("hello world"));
    assert!(!glob_list.any_match("HELLO world"));
    glob_list.add_ignore_case(GlobIgnoreCase::build("*world").unwrap());
    assert!(glob_list.any_match("HELLO world"));
    assert!(glob_list.all_match("hello WORLD"));
    assert!(!glob_list.all_match("HELLO WORLD"));
    assert!(!glob_list.all_match("hello there"));
}

#[test]
fn list_from_patterns_holds_both_groups() {
    let glob_list = GlobList::from_patterns(
        vec![GlobCaseSensitive::build("a*").unwrap()],
        vec![GlobIgnoreCase::build("*z").unwrap()],
    );
    assert!(!glob_list.is_empty());
    assert!(glob_list.all_match("a to Z"));
    assert!(!glob_list.all_match("A to z"));
    assert!(glob_list.any_match("A to z"));
    assert!(!glob_list.any_match("B to y"));
    assert!(GlobList::from_patterns(Vec::new(), Vec::new()).is_empty());
}

#[test]
fn combined_list_holds_every_pattern() {
    let first = GlobList::build(&["a*".to_string()]).unwrap();
    let second = GlobList::build_ignore_case(&["*z".to_string()]).unwrap();
    let third = GlobList::build(&["*m*n*".to_string()]).unwrap();
    let all = GlobList::combine(vec![first, second, third]);
    assert!(!all.is_empty());
    assert!(all.all_match("a man Z"));
    assert!(!all.all_match("a mat z"));
    assert!(all.any_match("only the end Z"));
    assert!(all.any_match("mn"));
    assert!(!all.any_match("nothing"));
    assert!(GlobList::combine(Vec::new()).is_empty());
    assert!(GlobList::combine(vec![GlobList::new(), GlobList::new()]).is_empty());
}
