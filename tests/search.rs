use space55::search::{first_match_after, last_match_before};
use space55::SearchPattern;

#[test]
fn match_starts_count_characters() {
    let p = SearchPattern::new("abc").unwrap();
    assert_eq!(p.starts_in("héllo abc abc"), vec![6, 10]);
    assert_eq!(p.starts_in("xyz"), Vec::<usize>::new());
}

#[test]
fn invalid_pattern_is_refused() {
    assert!(SearchPattern::new("a(").is_none());
    assert!(SearchPattern::new("a|b").is_some());
}

#[test]
fn first_match_after_a_column() {
    let starts = vec![0, 4, 9];
    assert_eq!(first_match_after(&starts, 1), Some(5));
    assert_eq!(first_match_after(&starts, 0), Some(1));
    assert_eq!(first_match_after(&starts, 10), None);
}

#[test]
fn last_match_before_a_column() {
    let starts = vec![0, 4, 9];
    assert_eq!(last_match_before(&starts, 1), None);
    assert_eq!(last_match_before(&starts, 6), Some(5));
    assert_eq!(last_match_before(&starts, 8), Some(5));
    assert_eq!(last_match_before(&starts, 100), Some(10));
}
