use magic_search::aks;
use magic_search::aks::fast_exp;

#[test]
fn small_inputs() {
    assert!(!aks(0));
    assert!(!aks(1));
    assert!(aks(2));
}

#[test]
fn small_primes_are_accepted() {
    for p in [3u64, 5, 7, 11, 13, 17, 19, 23, 29, 31, 37, 41, 43, 47, 53, 59, 61, 67,
        71, 73, 79, 83, 89, 97, 101, 103, 107, 109, 113, 127, 131, 137, 139, 149] {
        assert!(aks(p), "{} should be prime", p);
    }
}

#[test]
fn larger_primes_are_accepted() {
    for p in [151u64, 157, 163, 167, 173, 179, 181, 191, 193, 197, 199, 211, 1009] {
        assert!(aks(p), "{} should be prime", p);
    }
}

#[test]
fn larger_composites_are_rejected() {
    for c in [161u64, 169, 187, 209, 221, 1001, 1003] {
        assert!(!aks(c), "{} should be composite", c);
    }
}

#[test]
fn perfect_powers_are_rejected() {
    assert!(!aks(4));
    assert!(!aks(8));
    assert!(!aks(9));
    assert!(!aks(16));
    assert!(!aks(25));
    assert!(!aks(27));
    assert!(!aks(32));
    assert!(!aks(49));
    assert!(!aks(64));
    assert!(!aks(121));
    assert!(!aks(125));
}

#[test]
fn even_composites_are_rejected() {
    assert!(!aks(6));
    assert!(!aks(10));
    assert!(!aks(12));
    assert!(!aks(14));
    assert!(!aks(20));
    assert!(!aks(100));
}

#[test]
fn odd_composites_are_rejected() {
    assert!(!aks(15));
    assert!(!aks(21));
    assert!(!aks(33));
    assert!(!aks(35));
    assert!(!aks(39));
    assert!(!aks(51));
    assert!(!aks(91));
    assert!(!aks(95));
    assert!(!aks(99));
    assert!(!aks(143));
}

#[test]
fn fast_exp_small_powers() {
    assert_eq!(fast_exp(3, 4), 81);
    assert_eq!(fast_exp(2, 10), 1024);
    assert_eq!(fast_exp(7, 0), 1);
    assert_eq!(fast_exp(0, 5), 0);
    assert_eq!(fast_exp(1, 63), 1);
    assert_eq!(fast_exp(2, 63), 1 << 63);
}
