use jvm_core::regex_cache::RegexCache;

#[test]
fn regex_cache_evicts_least_recently_used_entry() {
    let mut cache = RegexCache::new(2);
    cache.compile("a", 0).expect("compile a");
    cache.compile("b", 0).expect("compile b");
    cache.compile("a", 0).expect("touch a");
    cache.compile("c", 0).expect("compile c");

    assert!(cache.contains("a", 0));
    assert!(cache.contains("c", 0));
    assert!(!cache.contains("b", 0));
}

#[test]
fn invalid_pattern_is_not_cached() {
    let mut cache = RegexCache::new(4);
    assert!(cache.compile("foo(bar", 0).is_none());
    assert!(!cache.contains("foo(bar", 0));
}

#[test]
fn flags_are_part_of_the_key() {
    let mut cache = RegexCache::new(4);
    let re = cache.compile("x+", 1).expect("compile");
    assert!(re.regex().is_match("axxb"));
    assert_eq!(re.source(), "x+");
    assert!(cache.contains("x+", 1));
    assert!(!cache.contains("x+", 2));
}

#[test]
fn zero_capacity_caches_nothing() {
    let mut cache = RegexCache::new(0);
    let re = cache.compile("[0-9]+", 0).expect("compile");
    assert_eq!(re.regex().as_str(), "[0-9]+");
    assert_eq!(re.source(), "[0-9]+");
    assert!(!cache.contains("[0-9]+", 0));
}

#[test]
fn a_hit_returns_the_regex_of_the_pattern() {
    let mut cache = RegexCache::new(4);
    cache.compile("a+", 0).expect("compile a");
    cache.compile("b+", 0).expect("compile b");
    let re = cache.compile("b+", 0).expect("hit b");
    assert_eq!(re.source(), "b+");
    assert!(re.regex().is_match("bb"));
    assert!(!re.regex().is_match("aa"));
}
