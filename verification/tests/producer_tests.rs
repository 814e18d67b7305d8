use magic_search::{TripGenThread, TGInst, TGTReturn, TGError, RecvMode};

fn admissible(x: u64, y: u64, z: u64) -> bool {
    x > 0 && y > 0 && z > 0 && y != z
        && (x + y) % 24 == 1 && (x - y - z) % 24 == 1 && (x + z) % 24 == 1
        && (x - y + z) % 24 == 1 && x % 24 == 1 && (x + y - z) % 24 == 1
        && (x - z) % 24 == 1 && (x + y + z) % 24 == 1 && (x - y) % 24 == 1
}

fn reference_stream(max: u64) -> Vec<(u64, u64, u64)> {
    let mut v = Vec::new();
    let mut n = 0u64;
    while n * n < max {
        let x = n * n;
        for y in 0..x {
            for z in 0..x - y {
                if admissible(x, y, z) {
                    v.push((x, y, z));
                }
            }
        }
        n += 1;
    }
    v
}

fn pump(tg: &mut TripGenThread) -> TGTReturn {
    loop {
        if let Some(resp) = tg.produce_step() {
            return resp;
        }
    }
}

fn fill_until_idle(tg: &mut TripGenThread) {
    while tg.wants_instruction() == RecvMode::PollRecv {
        tg.produce_step();
    }
}

#[test]
fn filling_respects_capacity_and_reports_occupancy() {
    let mut tg = TripGenThread::new(300, 5);
    assert_eq!(tg.wants_instruction(), RecvMode::PollRecv);
    fill_until_idle(&mut tg);
    assert_eq!(tg.wants_instruction(), RecvMode::BlockRecv);
    match tg.handle_instruction(TGInst::BufferedAmt) {
        Some(TGTReturn::Info(Ok(amt))) => assert_eq!(amt, 5),
        other => panic!("unexpected response: {:?}", other),
    }
}

#[test]
fn buffered_batch_is_delivered_in_order() {
    let reference = reference_stream(300);
    let mut tg = TripGenThread::new(300, 5);
    fill_until_idle(&mut tg);
    assert!(tg.handle_instruction(TGInst::Get(3)).is_none());
    match pump(&mut tg) {
        TGTReturn::Data(Ok(batch)) => assert_eq!(batch, reference[..3].to_vec()),
        other => panic!("unexpected response: {:?}", other),
    }
    match tg.handle_instruction(TGInst::BufferedAmt) {
        Some(TGTReturn::Info(Ok(amt))) => assert_eq!(amt, 2),
        other => panic!("unexpected response: {:?}", other),
    }
}

#[test]
fn pause_rejects_everything_but_play() {
    let mut tg = TripGenThread::new(300, 5);
    match tg.handle_instruction(TGInst::Pause) {
        Some(TGTReturn::EmptyDone) => {},
        other => panic!("unexpected response: {:?}", other),
    }
    assert_eq!(tg.wants_instruction(), RecvMode::BlockRecv);
    match tg.handle_instruction(TGInst::Get(1)) {
        Some(TGTReturn::Data(Err(TGError::Paused))) => {},
        other => panic!("unexpected response: {:?}", other),
    }
    match tg.handle_instruction(TGInst::At) {
        Some(TGTReturn::Data(Err(TGError::Paused))) => {},
        other => panic!("unexpected response: {:?}", other),
    }
    match tg.handle_instruction(TGInst::Play) {
        Some(TGTReturn::EmptyDone) => {},
        other => panic!("unexpected response: {:?}", other),
    }
    assert_eq!(tg.wants_instruction(), RecvMode::PollRecv);
}

#[test]
fn at_reports_marker_without_touching_the_buffer() {
    let mut tg = TripGenThread::new(300, 5);
    match tg.handle_instruction(TGInst::At) {
        Some(TGTReturn::Data(Ok(v))) => assert_eq!(v, vec![(0, 0, 0)]),
        other => panic!("unexpected response: {:?}", other),
    }
    tg.handle_instruction(TGInst::Get(1));
    match pump(&mut tg) {
        TGTReturn::Data(Ok(batch)) => assert_eq!(batch, vec![(121, 24, 48)]),
        other => panic!("unexpected response: {:?}", other),
    }
    match tg.handle_instruction(TGInst::At) {
        Some(TGTReturn::Data(Ok(v))) => assert_eq!(v, vec![(11, 24, 49)]),
        other => panic!("unexpected response: {:?}", other),
    }
}

#[test]
fn unsatisfiable_request_reports_exhaustion() {
    let reference = reference_stream(200);
    let mut tg = TripGenThread::new(200, 5);
    tg.handle_instruction(TGInst::Get(10_000));
    match pump(&mut tg) {
        TGTReturn::Done(Ok(batch)) => assert_eq!(batch, reference),
        other => panic!("unexpected response: {:?}", other),
    }
    assert_eq!(tg.wants_instruction(), RecvMode::BlockRecv);
    match tg.handle_instruction(TGInst::Get(1)) {
        Some(TGTReturn::Data(Err(TGError::NotActive))) => {},
        other => panic!("unexpected response: {:?}", other),
    }
}

#[test]
fn empty_space_reports_empty_exhaustion() {
    let mut tg = TripGenThread::new(100, 5);
    tg.handle_instruction(TGInst::Get(1));
    match pump(&mut tg) {
        TGTReturn::Data(Err(TGError::EmptyReturn)) => {},
        other => panic!("unexpected response: {:?}", other),
    }
    match tg.handle_instruction(TGInst::BufferedAmt) {
        Some(TGTReturn::Data(Err(TGError::NotActive))) => {},
        other => panic!("unexpected response: {:?}", other),
    }
}
