use secmanager::search::{filter_secrets, find_match_range, match_tier};

fn names(v: &[&str]) -> Vec<String> {
    v.iter().map(|s| s.to_string()).collect()
}

#[test]
fn filter_scenario_shared_prefix() {
    let ids = names(&["db/password", "db/user", "api/key"]);
    assert_eq!(filter_secrets(&ids, "db"), names(&["db/password", "db/user"]));
}

#[test]
fn filter_empty_query_gives_nothing() {
    let ids = names(&["db/password", "db/user", "api/key"]);
    assert!(filter_secrets(&ids, "").is_empty());
    assert!(filter_secrets(&[], "").is_empty());
}

#[test]
fn filter_blank_query_gives_nothing() {
    let ids = names(&["  ", "a b", "\t"]);
    assert!(filter_secrets(&ids, "   ").is_empty());
    assert!(filter_secrets(&ids, "\t\n").is_empty());
}

#[test]
fn filter_ranks_exact_then_prefix_then_rest() {
    let ids = names(&["xdb", "a/db", "DBX", "db", "dba"]);
    assert_eq!(filter_secrets(&ids, "DB"), names(&["db", "DBX", "dba", "a/db", "xdb"]));
}

#[test]
fn filter_ignores_case_and_drops_non_matches() {
    let ids = names(&["Prod/API", "dev/api", "other"]);
    assert_eq!(filter_secrets(&ids, "api"), names(&["Prod/API", "dev/api"]));
}

#[test]
fn filter_results_are_subset_and_contain_query() {
    let ids = names(&["alpha/one", "beta/two", "Gamma/ONE", "delta"]);
    let q = "one";
    let r = filter_secrets(&ids, q);
    assert_eq!(r.len(), 2);
    for x in &r {
        assert!(ids.contains(x));
        assert!(x.to_lowercase().contains(&q.to_lowercase()));
    }
}

#[test]
fn filter_keeps_duplicates() {
    let ids = names(&["a/x", "a/x", "b"]);
    assert_eq!(filter_secrets(&ids, "x"), names(&["a/x", "a/x"]));
}

#[test]
fn filter_exact_match_before_prefix() {
    let ids = names(&["key/rotation", "key", "my/key"]);
    assert_eq!(filter_secrets(&ids, "Key"), names(&["key", "key/rotation", "my/key"]));
}

#[test]
fn match_range_found_ignoring_case() {
    assert_eq!(find_match_range("db/password", "PASS"), Some((3, 7)));
    assert_eq!(find_match_range("Prod/API/key", "api"), Some((5, 8)));
}

#[test]
fn match_range_first_occurrence() {
    assert_eq!(find_match_range("abcabc", "BC"), Some((1, 3)));
}

#[test]
fn match_range_absent() {
    assert_eq!(find_match_range("db/password", "user"), None);
    assert_eq!(find_match_range("ab", "abc"), None);
}

#[test]
fn match_range_empty_query() {
    assert_eq!(find_match_range("abc", ""), Some((0, 0)));
}

#[test]
fn match_range_counts_characters() {
    let text = "Ünïcode/Straße";
    let r = find_match_range(text, "STRASSE");
    assert_eq!(r, None);
    let r = find_match_range(text, "NÏ").unwrap();
    assert_eq!(r, (1, 3));
    let span: String = text.chars().skip(r.0).take(r.1 - r.0).collect();
    assert_eq!(span.to_lowercase(), "nï");
}

#[test]
fn tier_of_folded_names() {
    assert_eq!(match_tier("db", "db"), Some(0));
    assert_eq!(match_tier("db/user", "db"), Some(1));
    assert_eq!(match_tier("app/db", "db"), Some(2));
    assert_eq!(match_tier("api", "db"), None);
}

#[test]
fn match_range_folds_the_whole_text() {
    assert_eq!(find_match_range("ΑΣ", "Σ"), None);
    assert_eq!(find_match_range("İa", "i\u{307}a"), Some((0, 2)));
    assert_eq!(find_match_range("xİa", "I\u{307}A"), Some((1, 3)));
}
