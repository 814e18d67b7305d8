use magic_search::{TripGenMain, TripGenThread, TGError};

fn admissible(x: u64, y: u64, z: u64) -> bool {
    x > 0 && y > 0 && z > 0 && y != z
        && (x + y) % 24 == 1 && (x - y - z) % 24 == 1 && (x + z) % 24 == 1
        && (x - y + z) % 24 == 1 && x % 24 == 1 && (x + y - z) % 24 == 1
        && (x - z) % 24 == 1 && (x + y + z) % 24 == 1 && (x - y) % 24 == 1
}

fn reference_stream(max: u64) -> Vec<(u64, u64, u64)> {
    let mut v = Vec::new();
    let mut n = 0u64;
    while n * n < max {
        let x = n * n;
        for y in 0..x {
            for z in 0..x - y {
                if admissible(x, y, z) {
                    v.push((x, y, z));
                }
            }
        }
        n += 1;
    }
    v
}

#[test]
fn first_request_returns_smallest_admissible_triple() {
    let mut m = TripGenMain::new();
    let mut tg = TripGenThread::new(200, 50);
    let batch = m.get_data(&mut tg, 1).unwrap();
    assert_eq!(batch, vec![(121, 24, 48)]);
    assert!(m.active);
}

#[test]
fn ceiling_100_is_empty_and_deactivates() {
    let mut m = TripGenMain::new();
    let mut tg = TripGenThread::new(100, 50);
    assert_eq!(m.get_data(&mut tg, 1), Err(TGError::EmptyReturn));
    assert!(!m.active);
    assert_eq!(m.get_data(&mut tg, 1), Err(TGError::NotActive));
    assert_eq!(m.pause(&mut tg), Err(TGError::NotActive));
    assert_eq!(m.progress(&mut tg), Err(TGError::NotActive));
    assert_eq!(m.query_buffer_size(&mut tg), Err(TGError::NotActive));
}

#[test]
fn batches_concatenate_to_the_whole_stream() {
    let reference = reference_stream(300);
    let mut m = TripGenMain::new();
    let mut tg = TripGenThread::new(300, 7);
    let mut collected = Vec::new();
    while m.active {
        match m.get_data(&mut tg, 4) {
            Ok(mut batch) => collected.append(&mut batch),
            Err(TGError::EmptyReturn) => break,
            Err(e) => panic!("unexpected error: {:?}", e),
        }
    }
    assert_eq!(collected, reference);
}

#[test]
fn request_while_paused_is_rejected() {
    let mut m = TripGenMain::new();
    let mut tg = TripGenThread::new(200, 50);
    assert_eq!(m.pause(&mut tg), Ok(true));
    assert_eq!(m.get_data(&mut tg, 1), Err(TGError::Paused));
    assert_eq!(m.pause(&mut tg), Err(TGError::Paused));
    assert_eq!(m.play(&mut tg), Ok(true));
    let batch = m.get_data(&mut tg, 1).unwrap();
    assert_eq!(batch, vec![(121, 24, 48)]);
}

#[test]
fn resume_without_pause_is_why() {
    let mut m = TripGenMain::new();
    let mut tg = TripGenThread::new(200, 50);
    assert_eq!(m.play(&mut tg), Err(TGError::Why));
}

#[test]
fn pause_resume_round_trip_keeps_the_cursor() {
    let mut plain = TripGenMain::new();
    let mut plain_tg = TripGenThread::new(300, 10);
    let mut toggled = TripGenMain::new();
    let mut toggled_tg = TripGenThread::new(300, 10);

    let a1 = plain.get_data(&mut plain_tg, 5).unwrap();
    let b1 = toggled.get_data(&mut toggled_tg, 5).unwrap();
    assert_eq!(a1, b1);

    toggled.pause(&mut toggled_tg).unwrap();
    toggled.play(&mut toggled_tg).unwrap();

    let a2 = plain.get_data(&mut plain_tg, 5).unwrap();
    let b2 = toggled.get_data(&mut toggled_tg, 5).unwrap();
    assert_eq!(a2, b2);
}

#[test]
fn exhaustion_delivers_short_final_batch() {
    let reference = reference_stream(200);
    let mut m = TripGenMain::new();
    let mut tg = TripGenThread::new(200, 50);
    let batch = m.get_data(&mut tg, 1000).unwrap();
    assert_eq!(batch, reference);
    assert!(!m.active);
    assert_eq!(m.get_data(&mut tg, 1), Err(TGError::NotActive));
}

#[test]
fn exact_drain_then_empty_return() {
    let reference = reference_stream(200);
    let mut m = TripGenMain::new();
    let mut tg = TripGenThread::new(200, 50);
    let batch = m.get_data(&mut tg, reference.len()).unwrap();
    assert_eq!(batch, reference);
    assert!(m.active);
    assert_eq!(m.get_data(&mut tg, 1), Err(TGError::EmptyReturn));
    assert!(!m.active);
}

#[test]
fn progress_reports_marker_past_last_delivery() {
    let mut m = TripGenMain::new();
    let mut tg = TripGenThread::new(200, 50);
    assert_eq!(m.progress(&mut tg), Ok((0, 0, 0)));
    m.get_data(&mut tg, 1).unwrap();
    // last delivered was (11 * 11, 24, 48)
    assert_eq!(m.progress(&mut tg), Ok((11, 24, 49)));
    m.get_data(&mut tg, 2).unwrap();
    assert_eq!(m.progress(&mut tg), Ok((11, 24, 97)));
}

#[test]
fn occupancy_never_exceeds_capacity() {
    let mut m = TripGenMain::new();
    let mut tg = TripGenThread::new(300, 3);
    assert_eq!(m.query_buffer_size(&mut tg), Ok(0));
    m.get_data(&mut tg, 2).unwrap();
    let occ = m.query_buffer_size(&mut tg).unwrap();
    assert!(occ <= 3);
    m.get_data(&mut tg, 5).unwrap();
    let occ = m.query_buffer_size(&mut tg).unwrap();
    assert!(occ <= 3);
}

#[test]
fn zero_length_request_is_an_empty_batch() {
    let mut m = TripGenMain::new();
    let mut tg = TripGenThread::new(200, 50);
    assert_eq!(m.get_data(&mut tg, 0), Ok(vec![]));
    assert!(m.active);
    let batch = m.get_data(&mut tg, 1).unwrap();
    assert_eq!(batch, vec![(121, 24, 48)]);
}
