use huzi::suggest::{closest_name, did_you_mean};

fn names(v: &[&str]) -> Vec<String> {
    v.iter().map(|s| s.to_string()).collect()
}

#[test]
fn closest_visible_name_is_suggested() {
    assert_eq!(did_you_mean("cont", &names(&["main", "count"])), Some("did you mean `count`?".to_string()));
    assert_eq!(closest_name("cont", &names(&["main", "count"])), Some(1));
}

#[test]
fn nothing_close_means_no_hint() {
    assert_eq!(did_you_mean("xyz", &names(&["count", "main"])), None);
    assert_eq!(did_you_mean("x", &names(&[])), None);
    // The name itself is never offered.
    assert_eq!(did_you_mean("count", &names(&["count"])), None);
}

#[test]
fn the_limit_is_a_third_of_the_length() {
    // "abcdefghi" has 9 characters: up to 3 edits are close, 4 are not.
    assert_eq!(closest_name("abcdefghi", &names(&["abcdefxyz"])), Some(0));
    assert_eq!(closest_name("abcdefghi", &names(&["abcdewxyz"])), None);
    // Short names allow one edit.
    assert_eq!(closest_name("ab", &names(&["abc"])), Some(0));
    assert_eq!(closest_name("ab", &names(&["abcd"])), None);
}

#[test]
fn the_first_of_the_closest_wins() {
    assert_eq!(closest_name("cat", &names(&["bat", "cart", "hat"])), Some(0));
    assert_eq!(closest_name("total", &names(&["totals", "tota"])), Some(0));
    assert_eq!(closest_name("total", &names(&["totxyz", "tital"])), Some(1));
}
