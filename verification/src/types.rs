use vstd::prelude::*;

verus! {

/// Outcome of one measurement cycle.
#[derive(Clone, Copy, Debug, PartialEq, Eq, Structural)]
pub enum Status {
    /// The echo reflected the cycle's sequence number before the timeout.
    Okay,
    /// No reply of at least eight bytes arrived before the timeout, or the
    /// send or the receive failed.
    Timeout,
    /// The first reply of at least eight bytes carried another sequence number
    /// (a stale or reordered reply), so it was discarded and the cycle lost.
    SeqMismatch,
}

/// The text a status is written as in the CSV output and the log.
pub open spec fn status_text(s: Status) -> Seq<char> {
    match s {
        Status::Okay => seq!['o', 'k'],
        Status::Timeout => seq!['t', 'i', 'm', 'e', 'o', 'u', 't'],
        Status::SeqMismatch => seq!['s', 'e', 'q', '_', 'm', 'i', 's', 'm', 'a', 't', 'c', 'h'],
    }
}

impl Status {
    /// The text of the status: `ok`, `timeout` or `seq_mismatch`.
    pub fn as_str(self) -> (r: &'static str)
        ensures
            r@ == status_text(self),
    {
        match self {
            Status::Okay => {
                proof {
                    reveal_strlit("ok");
                }
                "ok"
            },
            Status::Timeout => {
                proof {
                    reveal_strlit("timeout");
                }
                "timeout"
            },
            Status::SeqMismatch => {
                proof {
                    reveal_strlit("seq_mismatch");
                }
                "seq_mismatch"
            },
        }
    }
}

/// One sample per measurement cycle.
#[derive(Clone, Copy, Debug, PartialEq, Eq, Structural)]
pub struct Sample {
    /// Microseconds from the start of the measurement loop to the send.
    pub timestamp_us: u64,
    /// Round-trip time in microseconds, or -1 for a lost cycle.
    pub rtt_us: i64,
    /// Outcome of the cycle.
    pub status: Status,
}

} // verus!
