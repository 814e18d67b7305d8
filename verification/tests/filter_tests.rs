use magic_search::filter::{all_valid, is_admissible};

#[test]
fn all_valid_on_known_good_triple() {
    assert!(all_valid((121, 24, 48)));
    assert!(all_valid((121, 96, 24)));
}

#[test]
fn all_valid_rejects_wrong_residue() {
    assert!(!all_valid((121, 24, 49)));
    assert!(!all_valid((120, 24, 48)));
    assert!(!all_valid((121, 25, 48)));
}

#[test]
fn all_valid_ignores_distinctness() {
    // the nine congruences hold even though y == z
    assert!(all_valid((121, 24, 24)));
}

#[test]
fn is_admissible_requires_distinct_positive_entries() {
    assert!(is_admissible((121, 24, 48)));
    assert!(!is_admissible((121, 24, 24)));
    assert!(!is_admissible((121, 0, 48)));
    assert!(!is_admissible((49, 24, 0)));
}
