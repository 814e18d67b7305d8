use magic_search::{is_valid_square, test_squares};

#[test]
fn accepts_squares_congruent_one_mod_24() {
    assert!(is_valid_square(1));
    assert!(is_valid_square(25));
    assert!(is_valid_square(49));
    assert!(is_valid_square(121));
    assert!(is_valid_square(169));
    assert!(is_valid_square(625));
}

#[test]
fn rejects_squares_with_other_residues() {
    // perfect squares, but not 1 mod 24
    assert!(!is_valid_square(0));
    assert!(!is_valid_square(4));
    assert!(!is_valid_square(9));
    assert!(!is_valid_square(16));
    assert!(!is_valid_square(36));
    assert!(!is_valid_square(144));
}

#[test]
fn rejects_non_squares_with_residue_one() {
    // 1 mod 24, but not squares
    assert!(!is_valid_square(73));
    assert!(!is_valid_square(97));
    assert!(!is_valid_square(145));
}

#[test]
fn rejects_other_non_squares() {
    assert!(!is_valid_square(2));
    assert!(!is_valid_square(24));
    assert!(!is_valid_square(26));
    assert!(!is_valid_square(u64::MAX));
}

#[test]
fn test_squares_trivial_fixture() {
    // every combination is 25
    assert!(test_squares((25, 0, 0)));
}

#[test]
fn test_squares_mixed_fixture() {
    // combinations are 49, 1, 25, 1, 49, 25, 49, 1
    assert!(test_squares((25, 24, 0)));
}

#[test]
fn test_squares_mutated_off_square() {
    // x + y - z drops to 48, which is not a square
    assert!(!test_squares((25, 24, 1)));
    // every combination is 26, which is not 1 mod 24
    assert!(!test_squares((26, 0, 0)));
}

#[test]
fn test_squares_negative_combination() {
    // x - y - z would be negative
    assert!(!test_squares((25, 20, 10)));
}
