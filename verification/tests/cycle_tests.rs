use drs_rt::cycle::{warmup_keep_waiting, ReplyWait};
use drs_rt::types::Status;

fn datagram(seq: u64) -> [u8; 64] {
    let mut buf = [0u8; 64];
    buf[..8].copy_from_slice(&seq.to_le_bytes());
    buf
}

#[test]
fn matching_reply_completes_cycle() {
    let w = ReplyWait::new(5);
    assert_eq!(w.on_datagram(&datagram(5), 8, 10, 1000), Some(Status::Okay));
    assert_eq!(w.on_datagram(&datagram(5), 64, 999, 1000), Some(Status::Okay));
}

// UT-6: a reply with another sequence number is discarded and the cycle is lost
#[test]
fn mismatched_reply_ends_cycle_as_seq_mismatch() {
    let w = ReplyWait::new(5);
    assert_eq!(w.on_datagram(&datagram(4), 8, 10, 1000), Some(Status::SeqMismatch));
    assert_eq!(w.on_datagram(&datagram(6), 8, 10, 1000), Some(Status::SeqMismatch));
    assert_eq!(w.expected_seq, 5);
}

#[test]
fn short_datagram_is_ignored() {
    let w = ReplyWait::new(5);
    assert_eq!(w.on_datagram(&datagram(5), 7, 10, 1000), None);
    assert_eq!(w.on_datagram(&datagram(5), 0, 10, 1000), None);
}

#[test]
fn datagram_after_timeout_is_a_timeout() {
    let w = ReplyWait::new(5);
    assert_eq!(w.on_datagram(&datagram(5), 8, 1000, 1000), Some(Status::Timeout));
    assert_eq!(w.on_datagram(&datagram(4), 8, 10_000, 1000), Some(Status::Timeout));
    assert_eq!(w.on_datagram(&datagram(4), 3, 10_000, 1000), Some(Status::Timeout));
}

#[test]
fn timeout_decides_lost_status() {
    let w = ReplyWait::new(1);
    assert_eq!(w.on_would_block(999, 1000), None);
    assert_eq!(w.on_would_block(1000, 1000), Some(Status::Timeout));
    assert_eq!(w.on_recv_error(), Status::Timeout);
}

#[test]
fn warmup_waits_only_below_timeout() {
    assert!(warmup_keep_waiting(0, 1));
    assert!(!warmup_keep_waiting(1, 1));
    assert!(!warmup_keep_waiting(2, 1));
}
