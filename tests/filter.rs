use flint_steel::{glob_match, TestFilter, TestSpec};

fn make_spec(name: &str, tags: &[&str]) -> TestSpec {
    TestSpec {
        flint_version: Some("0.1".to_string()),
        name: name.to_string(),
        description: None,
        tags: tags.iter().map(|s| s.to_string()).collect(),
        dependencies: vec![],
        setup: None,
        timeline: vec![],
        breakpoints: vec![],
    }
}

#[test]
fn test_filter_all_matches_everything() {
    let filter = TestFilter::all();
    let spec = make_spec("any_test", &["tag1", "tag2"]);
    assert!(filter.matches(&spec));
}

#[test]
fn test_filter_is_empty() {
    assert!(TestFilter::all().is_empty());
    assert!(!TestFilter::by_tags(&["foo"]).is_empty());
    assert!(!TestFilter::by_name("test").is_empty());
    assert!(!TestFilter::by_patterns(&["*"]).is_empty());
}

#[test]
fn test_filter_by_exact_name() {
    let filter = TestFilter::by_name("copper_waxing");

    assert!(filter.matches(&make_spec("copper_waxing", &[])));
    assert!(!filter.matches(&make_spec("copper_oxidation", &[])));
    assert!(!filter.matches(&make_spec("copper_waxing_test", &[])));
}

#[test]
fn test_filter_by_tags_single() {
    let filter = TestFilter::by_tags(&["redstone"]);

    assert!(filter.matches(&make_spec("test1", &["redstone"])));
    assert!(filter.matches(&make_spec("test2", &["redstone", "other"])));
    assert!(!filter.matches(&make_spec("test3", &["copper"])));
    assert!(!filter.matches(&make_spec("test4", &[])));
}

#[test]
fn test_filter_by_tags_multiple() {
    let filter = TestFilter::by_tags(&["redstone", "copper"]);

    assert!(filter.matches(&make_spec("test1", &["redstone"])));
    assert!(filter.matches(&make_spec("test2", &["copper"])));
    assert!(filter.matches(&make_spec("test3", &["redstone", "copper"])));
    assert!(!filter.matches(&make_spec("test4", &["iron"])));
}

#[test]
fn test_filter_by_pattern_star() {
    let filter = TestFilter::by_patterns(&["copper_*"]);

    assert!(filter.matches(&make_spec("copper_waxing", &[])));
    assert!(filter.matches(&make_spec("copper_oxidation", &[])));
    assert!(filter.matches(&make_spec("copper_", &[])));
    assert!(!filter.matches(&make_spec("iron_block", &[])));
    assert!(!filter.matches(&make_spec("coppertest", &[])));
}

#[test]
fn test_filter_by_pattern_question() {
    let filter = TestFilter::by_patterns(&["test_?"]);

    assert!(filter.matches(&make_spec("test_1", &[])));
    assert!(filter.matches(&make_spec("test_a", &[])));
    assert!(!filter.matches(&make_spec("test_12", &[])));
    assert!(!filter.matches(&make_spec("test_", &[])));
}

#[test]
fn test_filter_by_pattern_combined() {
    let filter = TestFilter::by_patterns(&["*_test_*"]);

    assert!(filter.matches(&make_spec("copper_test_1", &[])));
    assert!(filter.matches(&make_spec("redstone_test_basic", &[])));
    assert!(!filter.matches(&make_spec("test_basic", &[])));
}

#[test]
fn test_filter_multiple_patterns() {
    let filter = TestFilter::by_patterns(&["copper_*", "redstone_*"]);

    assert!(filter.matches(&make_spec("copper_waxing", &[])));
    assert!(filter.matches(&make_spec("redstone_repeater", &[])));
    assert!(!filter.matches(&make_spec("iron_block", &[])));
}

#[test]
fn test_filter_combined_tags_and_patterns() {
    let filter = TestFilter::all()
        .with_tags(&["redstone"])
        .with_patterns(&["*_test"]);

    assert!(filter.matches(&make_spec("repeater_test", &["redstone"])));
    assert!(!filter.matches(&make_spec("repeater_test", &["copper"])));
    assert!(!filter.matches(&make_spec("repeater", &["redstone"])));
}

#[test]
fn test_filter_builder_pattern() {
    let filter = TestFilter::all()
        .with_tags(&["a", "b"])
        .with_patterns(&["test_*"])
        .with_exact_name("test_specific");

    assert_eq!(filter.tags, vec!["a", "b"]);
    assert_eq!(filter.name_patterns, vec!["test_*"]);
    assert_eq!(filter.exact_name, Some("test_specific".to_string()));
}

#[test]
fn test_glob_exact_match() {
    assert!(glob_match("hello", "hello"));
    assert!(!glob_match("hello", "world"));
    assert!(!glob_match("hello", "hello_world"));
}

#[test]
fn test_glob_star_end() {
    assert!(glob_match("hello*", "hello"));
    assert!(glob_match("hello*", "hello_world"));
    assert!(glob_match("hello*", "hellooooo"));
    assert!(!glob_match("hello*", "hell"));
}

#[test]
fn test_glob_star_start() {
    assert!(glob_match("*world", "world"));
    assert!(glob_match("*world", "hello_world"));
    assert!(!glob_match("*world", "worldly"));
}

#[test]
fn test_glob_star_middle() {
    assert!(glob_match("hello*world", "helloworld"));
    assert!(glob_match("hello*world", "hello_world"));
    assert!(glob_match("hello*world", "hello_big_world"));
    assert!(!glob_match("hello*world", "hello_worlds"));
}

#[test]
fn test_glob_multiple_stars() {
    assert!(glob_match("*a*b*", "ab"));
    assert!(glob_match("*a*b*", "xaxbx"));
    assert!(glob_match("*a*b*", "aaabbb"));
    assert!(!glob_match("*a*b*", "ba"));
}

#[test]
fn test_glob_question_mark() {
    assert!(glob_match("h?llo", "hello"));
    assert!(glob_match("h?llo", "hallo"));
    assert!(!glob_match("h?llo", "hllo"));
    assert!(!glob_match("h?llo", "heello"));
}

#[test]
fn test_glob_mixed() {
    assert!(glob_match("test_?_*", "test_1_abc"));
    assert!(glob_match("test_?_*", "test_a_"));
    assert!(!glob_match("test_?_*", "test__abc"));
}

#[test]
fn test_glob_empty() {
    assert!(glob_match("", ""));
    assert!(glob_match("*", ""));
    assert!(glob_match("*", "anything"));
    assert!(!glob_match("?", ""));
}

#[test]
fn glob_empty_pattern_rejects_non_empty_name() {
    assert!(!glob_match("", "x"));
    assert!(glob_match("*", "some_long_name_with_?_and_*"));
}

#[test]
fn glob_literal_suffix_keeps_answer() {
    let cases = [("*a*", "xax"), ("h?llo", "hallo"), ("a*b", "ab"), ("?", ""), ("x", "y")];
    for (p, t) in cases {
        let before = glob_match(p, t);
        let longer_pattern = format!("{p}_end");
        let longer_name = format!("{t}_end");
        assert_eq!(glob_match(&longer_pattern, &longer_name), before, "pattern {p} on {t}");
    }
}

#[test]
fn glob_non_ascii_characters() {
    assert!(glob_match("?é", "xé"));
    assert!(!glob_match("é", "e"));
}

#[test]
fn tag_filter_is_intersection() {
    let filter = TestFilter::by_tags(&["a", "b"]);
    assert!(filter.matches(&make_spec("t", &["z", "b"])));
    assert!(!filter.matches(&make_spec("t", &["z", "y"])));
    assert!(!filter.matches(&make_spec("t", &["A"])));
}

#[test]
fn empty_filter_matches_any_spec() {
    let filter = TestFilter::all();
    assert!(filter.matches(&make_spec("", &[])));
    assert!(filter.matches(&make_spec("weird name?*", &["x"])));
}

#[test]
fn exact_name_and_tags_must_both_hold() {
    let filter = TestFilter::by_name("one").with_tags(&["t"]);
    assert!(filter.matches(&make_spec("one", &["t"])));
    assert!(!filter.matches(&make_spec("one", &["u"])));
    assert!(!filter.matches(&make_spec("One", &["t"])));
}

#[test]
fn default_filter_is_empty() {
    assert!(TestFilter::default().is_empty());
}
