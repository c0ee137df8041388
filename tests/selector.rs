use flint_steel::selector::{distinct_sorted, find_by_name, select_matching, sorted_names};
use flint_steel::{TestFilter, TestSpec};

fn named(name: &str, tags: &[&str]) -> TestSpec {
    TestSpec {
        flint_version: None,
        name: name.to_string(),
        description: None,
        tags: tags.iter().map(|s| s.to_string()).collect(),
        dependencies: vec![],
        setup: None,
        timeline: vec![],
        breakpoints: vec![],
    }
}

fn strings(items: &[&str]) -> Vec<String> {
    items.iter().map(|s| s.to_string()).collect()
}

#[test]
fn select_keeps_matching_in_order() {
    let specs = vec![
        named("copper_b", &["copper"]),
        named("iron", &["iron"]),
        named("copper_a", &["copper"]),
    ];
    let kept = select_matching(&TestFilter::by_patterns(&["copper_*"]), specs);
    let names: Vec<&str> = kept.iter().map(|s| s.name.as_str()).collect();
    assert_eq!(names, vec!["copper_b", "copper_a"]);
}

#[test]
fn select_with_empty_filter_keeps_all() {
    let specs = vec![named("x", &[]), named("y", &["t"])];
    assert_eq!(select_matching(&TestFilter::all(), specs).len(), 2);
}

#[test]
fn find_first_by_name() {
    let specs = vec![named("a", &[]), named("b", &[]), named("b", &["second"])];
    assert_eq!(find_by_name(&specs, "b"), Some(1));
    assert_eq!(find_by_name(&specs, "c"), None);
}

#[test]
fn names_sorted_with_repeats() {
    let names = strings(&["copper_waxing", "b", "a", "b", "A", ""]);
    assert_eq!(sorted_names(&names), strings(&["", "A", "a", "b", "b", "copper_waxing"]));
}

#[test]
fn tags_sorted_once_each() {
    let tags = strings(&["redstone", "copper", "redstone", "alpha", "copper"]);
    assert_eq!(distinct_sorted(&tags), strings(&["alpha", "copper", "redstone"]));
    assert!(distinct_sorted(&Vec::new()).is_empty());
}

#[test]
fn prefix_sorts_first() {
    let names = strings(&["abc", "ab", "abd", "b"]);
    assert_eq!(sorted_names(&names), strings(&["ab", "abc", "abd", "b"]));
}
