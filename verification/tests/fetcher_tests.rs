use std::sync::{Arc, Mutex};
use magic_search::{TripFetcher, TFError, mt_get_trips};

fn admissible(x: u64, y: u64, z: u64) -> bool {
    x > 0 && y > 0 && z > 0 && y != z
        && (x + y) % 24 == 1 && (x - y - z) % 24 == 1 && (x + z) % 24 == 1
        && (x - y + z) % 24 == 1 && x % 24 == 1 && (x + y - z) % 24 == 1
        && (x - z) % 24 == 1 && (x + y + z) % 24 == 1 && (x - y) % 24 == 1
}

fn reference_stream(max: u64) -> Vec<(u64, u64, u64)> {
    let mut v = Vec::new();
    let mut n = 0u64;
    while n * n < max {
        let x = n * n;
        for y in 0..x {
            for z in 0..x - y {
                if admissible(x, y, z) {
                    v.push((x, y, z));
                }
            }
        }
        n += 1;
    }
    v
}

#[test]
fn first_batch_matches_reference() {
    let reference = reference_stream(200);
    assert_eq!(reference[0], (121, 24, 48));
    let mut f = TripFetcher::new(200, (0, 0, 0));
    let batch = f.get_triplets_vec(3).unwrap();
    assert_eq!(batch, reference[..3].to_vec());
    assert!(f.active);
    assert_eq!(f.start, (11, 24, 97));
}

#[test]
fn successive_batches_cover_stream_exactly() {
    let reference = reference_stream(300);
    let mut f = TripFetcher::new(300, (0, 0, 0));
    let mut collected = Vec::new();
    while f.active {
        match f.get_triplets_vec(4) {
            Ok(mut batch) => collected.append(&mut batch),
            Err(TFError::EmptyReturn) => break,
            Err(e) => panic!("unexpected error: {:?}", e),
        }
    }
    assert_eq!(collected, reference);
}

#[test]
fn short_final_batch_deactivates() {
    let reference = reference_stream(200);
    let mut f = TripFetcher::new(200, (0, 0, 0));
    let batch = f.get_triplets_vec(1000).unwrap();
    assert_eq!(batch, reference);
    assert!(!f.active);
    assert_eq!(f.get_triplets_vec(1), Err(TFError::NotActive));
}

#[test]
fn empty_space_yields_empty_return() {
    // no admissible triple has x below 100
    let mut f = TripFetcher::new(100, (0, 0, 0));
    assert_eq!(f.get_triplets_vec(5), Err(TFError::EmptyReturn));
    assert!(f.active);
    assert_eq!(f.get_triplets_vec(5), Err(TFError::EmptyReturn));
}

#[test]
fn out_of_range_start_is_invalid() {
    let mut f = TripFetcher::new(100, (101, 0, 0));
    assert_eq!(f.get_triplets_vec(5), Err(TFError::InvalidStart));
    assert!(!f.active);
}

#[test]
fn resumes_midway_through_a_row() {
    let reference = reference_stream(200);
    let mut f = TripFetcher::new(200, (0, 0, 0));
    let first = f.get_triplets_vec(2).unwrap();
    let second = f.get_triplets_vec(2).unwrap();
    assert_eq!(first, reference[..2].to_vec());
    assert_eq!(second, reference[2..4].to_vec());
}

#[test]
fn shared_fetcher_serves_batches() {
    let reference = reference_stream(200);
    let shared = Arc::new(Mutex::new(Some(TripFetcher::new(200, (0, 0, 0)))));
    let batch = mt_get_trips(&shared, 3).unwrap();
    assert_eq!(batch, reference[..3].to_vec());
    let rest = mt_get_trips(&shared, 1000).unwrap();
    assert_eq!(rest, reference[3..].to_vec());
    assert_eq!(mt_get_trips(&shared, 1), Err(TFError::NotActive));
}

#[test]
fn shared_fetcher_held_lock_yields_empty_batch() {
    let reference = reference_stream(200);
    let shared = Arc::new(Mutex::new(Some(TripFetcher::new(200, (0, 0, 0)))));
    {
        let _guard = shared.lock().unwrap();
        assert_eq!(mt_get_trips(&shared, 3), Ok(vec![]));
    }
    let batch = mt_get_trips(&shared, 3).unwrap();
    assert_eq!(batch, reference[..3].to_vec());
}
