//! What the master decides while it waits for the reply of one cycle.
use vstd::prelude::*;
use crate::types::Status;
use crate::wire::{decode_reply_seq, reply_seq};

verus! {

/// How a cycle ends when a datagram of `n` bytes in `data` arrives
/// `elapsed_ns` after the send, or `None` when the wait goes on:
/// - at or past the timeout the cycle is lost as `Timeout`, whatever arrived;
/// - otherwise the first datagram of at least eight bytes ends the cycle:
///   `Okay` when it carries the expected sequence number, `SeqMismatch`
///   (a stale or reordered reply, discarded) when it carries another;
/// - a shorter datagram is ignored.
pub open spec fn datagram_outcome(
    expected_seq: u64,
    data: Seq<u8>,
    n: int,
    elapsed_ns: u128,
    timeout_ns: u128,
) -> Option<Status> {
    if elapsed_ns >= timeout_ns {
        Some(Status::Timeout)
    } else {
        match reply_seq(data, n) {
            Some(s) => if s == expected_seq {
                Some(Status::Okay)
            } else {
                Some(Status::SeqMismatch)
            },
            None => None,
        }
    }
}

/// The reply wait of one measurement cycle.
#[derive(Clone, Copy, Debug, PartialEq, Eq, Structural)]
pub struct ReplyWait {
    /// The sequence number sent in this cycle.
    pub expected_seq: u64,
}

impl ReplyWait {
    /// The wait for the reply to the packet carrying `expected_seq`.
    pub fn new(expected_seq: u64) -> (w: ReplyWait)
        ensures
            w.expected_seq == expected_seq,
    {
        ReplyWait { expected_seq }
    }

    /// A datagram of `n` bytes arrived in `buf`, `elapsed_ns` after the send.
    /// Returns how the cycle ends, or `None` when the wait goes on (see
    /// `datagram_outcome`).
    pub fn on_datagram(&self, buf: &[u8], n: usize, elapsed_ns: u128, timeout_ns: u128) -> (r:
        Option<Status>)
        requires
            n <= buf@.len(),
        ensures
            r == datagram_outcome(self.expected_seq, buf@, n as int, elapsed_ns, timeout_ns),
    {
        if elapsed_ns >= timeout_ns {
            return Some(Status::Timeout);
        }
        match decode_reply_seq(buf, n) {
            Some(s) => {
                if s == self.expected_seq {
                    Some(Status::Okay)
                } else {
                    Some(Status::SeqMismatch)
                }
            },
            None => None,
        }
    }

    /// No datagram was waiting, `elapsed_ns` after the send. The cycle ends
    /// as `Timeout` once that reaches `timeout_ns`; before that the wait goes
    /// on.
    pub fn on_would_block(&self, elapsed_ns: u128, timeout_ns: u128) -> (r: Option<Status>)
        ensures
            r == if elapsed_ns >= timeout_ns {
                Some(Status::Timeout)
            } else {
                None
            },
    {
        if elapsed_ns >= timeout_ns {
            Some(Status::Timeout)
        } else {
            None
        }
    }

    /// The receive failed with another error: the cycle ends as `Timeout`.
    pub fn on_recv_error(&self) -> (r: Status)
        ensures
            r == Status::Timeout,
    {
        Status::Timeout
    }
}

/// Whether the master keeps waiting for a warm-up reply: only while the time
/// since the warm-up send is below the timeout.
pub fn warmup_keep_waiting(elapsed_ns: u128, timeout_ns: u128) -> (r: bool)
    ensures
        r == (elapsed_ns < timeout_ns),
{
    elapsed_ns < timeout_ns
}

} // verus!
