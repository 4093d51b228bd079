use drs_rt::session::{Session, Step};
use drs_rt::types::{Sample, Status};

const TIMEOUT_NS: u128 = 1_000_000_000;

fn reply(seq: u64) -> [u8; 64] {
    let mut buf = [0u8; 64];
    buf[..8].copy_from_slice(&seq.to_le_bytes());
    buf
}

fn seq_of(payload: &[u8]) -> u64 {
    u64::from_le_bytes(payload[..8].try_into().unwrap())
}

/// Runs a session where every measurement reply arrives with `reply_for(seq)`
/// after `rtt_us` microseconds; returns the sequence numbers sent, warm-up first.
fn run_with(session: &mut Session, reply_for: impl Fn(u64) -> Option<u64>, rtt_us: u128) -> Vec<u64> {
    let mut sent = Vec::new();
    let mut t = 0u128;
    loop {
        match session.next_step() {
            Step::WarmupSend { payload } => sent.push(seq_of(&payload)),
            Step::MeasureSend { payload, .. } => {
                let seq = seq_of(&payload);
                sent.push(seq);
                assert!(session.on_sent(true, t));
                match reply_for(seq) {
                    Some(r) => {
                        assert!(!session.on_datagram(&reply(r), 8, rtt_us * 1000, TIMEOUT_NS));
                    }
                    None => {
                        assert!(session.on_would_block(1, TIMEOUT_NS));
                        assert!(!session.on_would_block(TIMEOUT_NS, TIMEOUT_NS));
                    }
                }
                t += 1000;
            }
            Step::InCycle => panic!("cycle left open"),
            Step::Finished => break,
        }
    }
    sent
}

#[test]
fn session_full_cycle_count() {
    let cycles = 20usize;
    let mut s = Session::new(cycles, 0);
    run_with(&mut s, Some, 250);
    assert!(s.is_finished());
    let samples = s.into_samples();
    assert_eq!(samples.len(), cycles, "one sample per cycle");
    for (i, x) in samples.iter().enumerate() {
        assert_eq!(*x, Sample { timestamp_us: i as u64 * 1000, rtt_us: 250, status: Status::Okay });
    }
}

#[test]
fn session_warmup_excluded_from_buffer() {
    let mut s = Session::new(10, 5);
    let sent = run_with(&mut s, Some, 7);
    assert_eq!(sent, (0..15).collect::<Vec<u64>>(), "warm-up takes seq 0..5, cycles 5..15");
    let samples = s.into_samples();
    assert_eq!(samples.len(), 10, "warm-up cycles must not be recorded");
    assert!(samples.iter().all(|x| x.status == Status::Okay && x.rtt_us == 7));
}

#[test]
fn session_timeouts_record_negative_one() {
    let mut s = Session::new(3, 0);
    run_with(&mut s, |_| None, 7);
    let samples = s.into_samples();
    assert_eq!(samples.len(), 3);
    for x in &samples {
        assert_eq!(x.rtt_us, -1, "lost cycle must have rtt_us == -1");
        assert_eq!(x.status, Status::Timeout);
    }
}

#[test]
fn session_mismatched_echo_records_seq_mismatch() {
    let mut s = Session::new(5, 0);
    run_with(&mut s, |seq| Some(seq.wrapping_add(999)), 7);
    let samples = s.into_samples();
    assert!(samples.iter().all(|x| x.rtt_us == -1 && x.status == Status::SeqMismatch));
}

#[test]
fn session_stale_reply_ends_cycle_before_matching_one() {
    let mut s = Session::new(2, 0);
    s.next_step();
    assert!(s.on_sent(true, 0));
    // a short datagram is ignored
    assert!(s.on_datagram(&reply(0), 4, 1_000, TIMEOUT_NS));
    // a stale reply is discarded and the cycle is lost
    assert!(!s.on_datagram(&reply(41), 8, 2_000, TIMEOUT_NS));
    assert_eq!(s.samples()[0], Sample { timestamp_us: 0, rtt_us: -1, status: Status::SeqMismatch });
    // the matching reply that follows belongs to no open cycle and changes nothing
    assert!(!s.on_datagram(&reply(0), 8, 3_000, TIMEOUT_NS));
    assert_eq!(s.samples()[0].status, Status::SeqMismatch);
}

#[test]
fn session_reply_after_timeout_is_timeout() {
    let mut s = Session::new(1, 0);
    s.next_step();
    assert!(s.on_sent(true, 5));
    assert!(!s.on_datagram(&reply(0), 8, 10 * TIMEOUT_NS, TIMEOUT_NS));
    assert_eq!(s.samples()[0], Sample { timestamp_us: 5, rtt_us: -1, status: Status::Timeout });
}

#[test]
fn session_send_failure_records_timeout() {
    let mut s = Session::new(2, 0);
    match s.next_step() {
        Step::MeasureSend { cycle, payload } => {
            assert_eq!(cycle, 0);
            assert_eq!(seq_of(&payload), 0);
        }
        other => panic!("unexpected step {:?}", other),
    }
    assert!(!s.on_sent(false, 1234));
    assert_eq!(s.samples()[0], Sample { timestamp_us: 1234, rtt_us: -1, status: Status::Timeout });
    // second cycle: the receive fails
    match s.next_step() {
        Step::MeasureSend { cycle, .. } => assert_eq!(cycle, 1),
        other => panic!("unexpected step {:?}", other),
    }
    assert!(s.on_sent(true, 2000));
    s.on_recv_error();
    assert_eq!(s.samples()[1], Sample { timestamp_us: 2000, rtt_us: -1, status: Status::Timeout });
    assert!(matches!(s.next_step(), Step::Finished));
}

#[test]
fn session_steps_out_of_order_change_nothing() {
    let mut s = Session::new(1, 0);
    assert!(!s.on_sent(true, 1));
    assert!(!s.on_datagram(&reply(0), 8, 1, TIMEOUT_NS));
    assert!(!s.on_would_block(5, 1));
    s.on_recv_error();
    assert_eq!(s.samples()[0], Sample { timestamp_us: 0, rtt_us: 0, status: Status::Okay });
    assert!(matches!(s.next_step(), Step::MeasureSend { .. }));
    assert!(matches!(s.next_step(), Step::InCycle));
    assert!(s.on_sent(true, 9));
    assert!(s.on_sent(true, 99), "a second send report changes nothing");
    assert!(!s.on_datagram(&reply(0), 8, 3_999, TIMEOUT_NS));
    assert_eq!(s.samples()[0], Sample { timestamp_us: 9, rtt_us: 3, status: Status::Okay });
    assert!(s.is_finished());
}

#[test]
fn session_wide_timestamps_are_truncated() {
    let mut s = Session::new(1, 0);
    s.next_step();
    let ts: u128 = (1u128 << 64) + 5;
    s.on_sent(true, ts);
    s.on_datagram(&reply(0), 8, 3_000, TIMEOUT_NS);
    assert_eq!(s.samples()[0], Sample { timestamp_us: 5, rtt_us: 3, status: Status::Okay });
}

#[test]
fn session_zero_cycles_finishes_after_warmup() {
    let mut s = Session::new(0, 2);
    assert!(!s.is_finished());
    assert!(matches!(s.next_step(), Step::WarmupSend { .. }));
    assert!(matches!(s.next_step(), Step::WarmupSend { .. }));
    assert!(matches!(s.next_step(), Step::Finished));
    assert!(s.is_finished());
    assert_eq!(s.samples().len(), 0);
}
