//! The measurement session: the decisions of the master's warm-up and
//! measurement loops, as a state machine that the caller drives with the
//! outcome of each send and receive.
use vstd::prelude::*;
use crate::types::{Sample, Status};
use crate::cycle::{datagram_outcome, ReplyWait};
use crate::wire::{encode_seq, seq_payload};

verus! {

/// Where the session stands within the current measurement cycle.
#[derive(Clone, Copy, Debug, PartialEq, Eq, Structural)]
pub enum Stage {
    /// No measurement cycle is open.
    Idle,
    /// The packet carrying `seq` is to be sent; its outcome is still unknown.
    Sending { seq: u64 },
    /// The packet was sent `timestamp_us` microseconds after the start of the
    /// measurement loop; the session waits for its reply.
    Waiting { wait: ReplyWait, timestamp_us: u64 },
}

/// What the caller does next.
#[derive(Debug)]
pub enum Step {
    /// Send this warm-up packet, then wait for any reply until the timeout.
    /// Warm-up cycles record nothing.
    WarmupSend { payload: [u8; 8] },
    /// Send the packet of measurement cycle `cycle`, then report the outcome
    /// with `on_sent` and the receives with `on_datagram`, `on_would_block`
    /// and `on_recv_error`.
    MeasureSend { cycle: usize, payload: [u8; 8] },
    /// A measurement cycle is still open: its events come first.
    InCycle,
    /// Every cycle has been recorded.
    Finished,
}

/// The abstract state of a session.
pub struct SessionView {
    /// The sample buffer, allocated with one entry per measurement cycle.
    pub samples: Seq<Sample>,
    /// Number of warm-up cycles to run.
    pub warmup: u64,
    /// Number of warm-up packets handed out so far.
    pub warmup_sent: u64,
    /// Number of measurement cycles recorded so far; they fill
    /// `samples[0..recorded]`.
    pub recorded: usize,
    /// The sequence number of the next packet.
    pub next_seq: u64,
    /// The state of the current measurement cycle.
    pub stage: Stage,
}

/// The entry that fills the buffer before a cycle is recorded.
pub open spec fn placeholder() -> Sample {
    Sample { timestamp_us: 0, rtt_us: 0, status: Status::Okay }
}

/// The sample that a cycle sent `timestamp_us` after the loop start records
/// when it ends with `status`; `rtt_us` (microseconds from send to the
/// matching reply) is kept only for `Okay`, every lost cycle records -1.
pub open spec fn cycle_sample(status: Status, timestamp_us: u64, rtt_us: u128) -> Sample {
    Sample {
        timestamp_us,
        rtt_us: if status == Status::Okay { rtt_us as i64 } else { -1i64 },
        status,
    }
}

/// Whatever status a cycle ends with, the sample it records carries the
/// cycle's send timestamp (microseconds from the loop start to the send) and
/// that status; a cycle that is not `Okay` records `rtt_us == -1`.
pub proof fn lemma_cycle_sample_fields(status: Status, timestamp_us: u64, rtt_us: u128)
    ensures
        cycle_sample(status, timestamp_us, rtt_us).timestamp_us == timestamp_us,
        cycle_sample(status, timestamp_us, rtt_us).status == status,
        status != Status::Okay ==> cycle_sample(status, timestamp_us, rtt_us).rtt_us == -1,
{
}

/// Every sample among the first `n` that is not `Okay` has `rtt_us == -1`.
pub open spec fn lost_marked(samples: Seq<Sample>, n: int) -> bool {
    forall|i: int| 0 <= i < n && #[trigger] samples[i].status != Status::Okay ==> samples[i].rtt_us == -1
}

/// The warm-up and measurement state of one master run.
pub struct Session {
    samples: Vec<Sample>,
    warmup: u64,
    warmup_sent: u64,
    recorded: usize,
    next_seq: u64,
    stage: Stage,
}

impl View for Session {
    type V = SessionView;

    closed spec fn view(&self) -> SessionView {
        SessionView {
            samples: self.samples@,
            warmup: self.warmup,
            warmup_sent: self.warmup_sent,
            recorded: self.recorded,
            next_seq: self.next_seq,
            stage: self.stage,
        }
    }
}

impl Session {
    /// The consistency of a session state: counters within bounds, the
    /// sequence number equal to the number of packets handed out, an open
    /// cycle's index inside the buffer and only after the warm-up, and every
    /// recorded lost cycle marked with -1.
    pub open spec fn valid(v: SessionView) -> bool {
        &&& v.warmup_sent <= v.warmup
        &&& v.recorded <= v.samples.len()
        &&& v.warmup + v.samples.len() <= u64::MAX
        &&& v.next_seq == v.warmup_sent + v.recorded + (if v.stage is Idle {
            0int
        } else {
            1int
        })
        &&& (v.recorded > 0 || !(v.stage is Idle)) ==> v.warmup_sent == v.warmup
        &&& !(v.stage is Idle) ==> v.recorded < v.samples.len()
        &&& (v.stage matches Stage::Sending { seq } ==> seq == v.next_seq - 1)
        &&& (v.stage matches Stage::Waiting { wait, .. } ==> wait.expected_seq == v.next_seq - 1)
        &&& lost_marked(v.samples, v.recorded as int)
    }

    /// The session's internal consistency: its state is `valid`.
    pub open spec fn wf(&self) -> bool {
        Session::valid(self@)
    }

    /// Whether every warm-up and measurement cycle is done.
    pub open spec fn finished(v: SessionView) -> bool {
        &&& v.stage is Idle
        &&& v.warmup_sent == v.warmup
        &&& v.recorded == v.samples.len()
    }

    /// A session of `cycles` measurement cycles after `warmup` unrecorded
    /// warm-up cycles, with its sample buffer allocated up front.
    pub fn new(cycles: usize, warmup: u64) -> (s: Session)
        requires
            warmup + cycles <= u64::MAX,
        ensures
            s.wf(),
            s@.samples == Seq::new(cycles as nat, |i: int| placeholder()),
            s@.warmup == warmup,
            s@.warmup_sent == 0,
            s@.recorded == 0,
            s@.next_seq == 0,
            s@.stage == Stage::Idle,
    {
        let mut samples: Vec<Sample> = Vec::with_capacity(cycles);
        let mut i: usize = 0;
        while i < cycles
            invariant
                i <= cycles,
                samples@ == Seq::new(i as nat, |k: int| placeholder()),
            decreases cycles - i,
        {
            samples.push(Sample { timestamp_us: 0, rtt_us: 0, status: Status::Okay });
            i = i + 1;
            assert(samples@ =~= Seq::new(i as nat, |k: int| placeholder()));
        }
        Session { samples, warmup, warmup_sent: 0, recorded: 0, next_seq: 0, stage: Stage::Idle }
    }

    /// The next thing to do. Warm-up packets come first, then one
    /// measurement cycle at a time; each packet carries the next sequence
    /// number, so measurement cycle `i` carries `warmup + i`.
    pub fn next_step(&mut self) -> (step: Step)
        requires
            old(self).wf(),
        ensures
            final(self).wf(),
            final(self)@.samples == old(self)@.samples,
            final(self)@.warmup == old(self)@.warmup,
            final(self)@.recorded == old(self)@.recorded,
            !(old(self)@.stage is Idle) ==> step is InCycle && final(self)@ == old(self)@,
            old(self)@.stage is Idle && old(self)@.warmup_sent < old(self)@.warmup ==> {
                &&& step matches Step::WarmupSend { payload } && payload@ == seq_payload(old(self)@.next_seq)
                &&& final(self)@.warmup_sent == old(self)@.warmup_sent + 1
                &&& final(self)@.next_seq == old(self)@.next_seq + 1
                &&& final(self)@.stage == Stage::Idle
            },
            old(self)@.stage is Idle && old(self)@.warmup_sent == old(self)@.warmup
                && old(self)@.recorded < old(self)@.samples.len() ==> {
                &&& step matches Step::MeasureSend { cycle, payload }
                    && cycle == old(self)@.recorded
                    && payload@ == seq_payload(old(self)@.next_seq)
                    && old(self)@.next_seq == old(self)@.warmup + cycle
                &&& final(self)@.warmup_sent == old(self)@.warmup_sent
                &&& final(self)@.next_seq == old(self)@.next_seq + 1
                &&& final(self)@.stage == (Stage::Sending { seq: old(self)@.next_seq })
            },
            Session::finished(old(self)@) ==> step is Finished && final(self)@ == old(self)@,
            step is Finished ==> Session::finished(final(self)@),
    {
        if !matches!(self.stage, Stage::Idle) {
            return Step::InCycle;
        }
        if self.warmup_sent < self.warmup {
            let payload = encode_seq(self.next_seq);
            self.warmup_sent = self.warmup_sent + 1;
            self.next_seq = self.next_seq + 1;
            Step::WarmupSend { payload }
        } else if self.recorded < self.samples.len() {
            let seq = self.next_seq;
            let payload = encode_seq(seq);
            self.next_seq = seq + 1;
            self.stage = Stage::Sending { seq };
            Step::MeasureSend { cycle: self.recorded, payload }
        } else {
            Step::Finished
        }
    }

    /// Ends the open cycle with `status`.
    fn record(&mut self, status: Status, timestamp_us: u64, rtt_us: u128)
        requires
            old(self).wf(),
            !(old(self).stage is Idle),
        ensures
            final(self).wf(),
            final(self)@.samples == old(self)@.samples.update(
                old(self)@.recorded as int,
                cycle_sample(status, timestamp_us, rtt_us),
            ),
            final(self)@.samples[old(self)@.recorded as int].timestamp_us == timestamp_us,
            final(self)@.samples[old(self)@.recorded as int].status == status,
            final(self)@.recorded == old(self)@.recorded + 1,
            final(self)@.stage == Stage::Idle,
            final(self)@.warmup == old(self)@.warmup,
            final(self)@.warmup_sent == old(self)@.warmup_sent,
            final(self)@.next_seq == old(self)@.next_seq,
    {
        let rtt: i64 = if status == Status::Okay { rtt_us as i64 } else { -1 };
        let i = self.recorded;
        assert(i < self.samples.len());
        self.samples.set(i, Sample { timestamp_us, rtt_us: rtt, status });
        self.recorded = i + 1;
        self.stage = Stage::Idle;
        assert(lost_marked(self.samples@, self.recorded as int));
    }

    /// The packet of the open cycle was handed to the socket
    /// `since_start_us` microseconds after the start of the measurement loop.
    /// When the send failed the cycle ends at once as `Timeout` with
    /// `rtt_us == -1`; otherwise the session starts waiting for the reply.
    /// Returns whether a reply is now awaited. Outside the sending stage
    /// nothing changes.
    pub fn on_sent(&mut self, sent_ok: bool, since_start_us: u128) -> (waiting: bool)
        requires
            old(self).wf(),
        ensures
            final(self).wf(),
            waiting == (final(self)@.stage is Waiting),
            final(self)@.warmup == old(self)@.warmup,
            final(self)@.warmup_sent == old(self)@.warmup_sent,
            final(self)@.next_seq == old(self)@.next_seq,
            match old(self)@.stage {
                Stage::Sending { seq } => if sent_ok {
                    &&& final(self)@.stage == (Stage::Waiting {
                        wait: ReplyWait { expected_seq: seq },
                        timestamp_us: since_start_us as u64,
                    })
                    &&& final(self)@.samples == old(self)@.samples
                    &&& final(self)@.recorded == old(self)@.recorded
                } else {
                    &&& final(self)@.samples == old(self)@.samples.update(
                        old(self)@.recorded as int,
                        cycle_sample(Status::Timeout, since_start_us as u64, 0),
                    )
                    &&& final(self)@.samples[old(self)@.recorded as int].timestamp_us
                        == since_start_us as u64
                    &&& final(self)@.samples[old(self)@.recorded as int].status == Status::Timeout
                    &&& final(self)@.recorded == old(self)@.recorded + 1
                    &&& final(self)@.stage == Stage::Idle
                },
                _ => final(self)@ == old(self)@,
            },
    {
        match self.stage {
            Stage::Sending { seq } => {
                let timestamp_us = since_start_us as u64;
                if sent_ok {
                    self.stage = Stage::Waiting { wait: ReplyWait::new(seq), timestamp_us };
                    true
                } else {
                    self.record(Status::Timeout, timestamp_us, 0);
                    false
                }
            },
            Stage::Waiting { .. } => true,
            Stage::Idle => false,
        }
    }

    /// A datagram of `n` bytes arrived in `buf`, `elapsed_ns` after the
    /// open cycle's send. At or past `timeout_ns` the cycle is recorded as
    /// `Timeout`. Before that, a datagram of at least eight bytes ends the
    /// cycle: `Okay` with round-trip time `elapsed_ns / 1000` microseconds
    /// when it carries the cycle's sequence number, `SeqMismatch` (discarded,
    /// `rtt_us == -1`) when it carries another; a shorter datagram is ignored
    /// and the wait goes on. Returns whether a reply is still awaited.
    /// Outside the waiting stage nothing changes.
    pub fn on_datagram(&mut self, buf: &[u8], n: usize, elapsed_ns: u128, timeout_ns: u128) -> (waiting: bool)
        requires
            old(self).wf(),
            n <= buf@.len(),
        ensures
            final(self).wf(),
            waiting == (final(self)@.stage is Waiting),
            final(self)@.warmup == old(self)@.warmup,
            final(self)@.warmup_sent == old(self)@.warmup_sent,
            final(self)@.next_seq == old(self)@.next_seq,
            match old(self)@.stage {
                Stage::Waiting { wait, timestamp_us } => match datagram_outcome(
                    wait.expected_seq,
                    buf@,
                    n as int,
                    elapsed_ns,
                    timeout_ns,
                ) {
                    Some(status) => {
                        &&& final(self)@.samples == old(self)@.samples.update(
                            old(self)@.recorded as int,
                            cycle_sample(status, timestamp_us, elapsed_ns / 1000),
                        )
                        &&& final(self)@.samples[old(self)@.recorded as int].timestamp_us
                            == timestamp_us
                        &&& final(self)@.samples[old(self)@.recorded as int].status == status
                        &&& final(self)@.recorded == old(self)@.recorded + 1
                        &&& final(self)@.stage == Stage::Idle
                    },
                    None => final(self)@ == old(self)@,
                },
                _ => final(self)@ == old(self)@,
            },
    {
        match self.stage {
            Stage::Waiting { wait, timestamp_us } => {
                match wait.on_datagram(buf, n, elapsed_ns, timeout_ns) {
                    Some(status) => {
                        self.record(status, timestamp_us, elapsed_ns / 1000);
                        false
                    },
                    None => true,
                }
            },
            _ => false,
        }
    }

    /// No datagram was waiting, `elapsed_ns` after the open cycle's send.
    /// Once that reaches `timeout_ns` the cycle is recorded as `Timeout`
    /// with `rtt_us == -1`. Returns whether a reply is still
    /// awaited. Outside the waiting stage nothing changes.
    pub fn on_would_block(&mut self, elapsed_ns: u128, timeout_ns: u128) -> (waiting: bool)
        requires
            old(self).wf(),
        ensures
            final(self).wf(),
            waiting == (final(self)@.stage is Waiting),
            final(self)@.warmup == old(self)@.warmup,
            final(self)@.warmup_sent == old(self)@.warmup_sent,
            final(self)@.next_seq == old(self)@.next_seq,
            match old(self)@.stage {
                Stage::Waiting { timestamp_us, .. } => if elapsed_ns >= timeout_ns {
                    &&& final(self)@.samples == old(self)@.samples.update(
                        old(self)@.recorded as int,
                        cycle_sample(Status::Timeout, timestamp_us, 0),
                    )
                    &&& final(self)@.samples[old(self)@.recorded as int].timestamp_us
                        == timestamp_us
                    &&& final(self)@.samples[old(self)@.recorded as int].status == Status::Timeout
                    &&& final(self)@.recorded == old(self)@.recorded + 1
                    &&& final(self)@.stage == Stage::Idle
                } else {
                    final(self)@ == old(self)@
                },
                _ => final(self)@ == old(self)@,
            },
    {
        match self.stage {
            Stage::Waiting { wait, timestamp_us } => {
                match wait.on_would_block(elapsed_ns, timeout_ns) {
                    Some(status) => {
                        self.record(status, timestamp_us, 0);
                        false
                    },
                    None => true,
                }
            },
            _ => false,
        }
    }

    /// The receive failed with an error other than "would block": the open
    /// cycle is recorded as `Timeout` with `rtt_us == -1`. Outside the
    /// waiting stage nothing changes.
    pub fn on_recv_error(&mut self)
        requires
            old(self).wf(),
        ensures
            final(self).wf(),
            !(final(self)@.stage is Waiting),
            final(self)@.warmup == old(self)@.warmup,
            final(self)@.warmup_sent == old(self)@.warmup_sent,
            final(self)@.next_seq == old(self)@.next_seq,
            match old(self)@.stage {
                Stage::Waiting { timestamp_us, .. } => {
                    &&& final(self)@.samples == old(self)@.samples.update(
                        old(self)@.recorded as int,
                        cycle_sample(Status::Timeout, timestamp_us, 0),
                    )
                    &&& final(self)@.samples[old(self)@.recorded as int].timestamp_us
                        == timestamp_us
                    &&& final(self)@.samples[old(self)@.recorded as int].status == Status::Timeout
                    &&& final(self)@.recorded == old(self)@.recorded + 1
                    &&& final(self)@.stage == Stage::Idle
                },
                _ => final(self)@ == old(self)@,
            },
    {
        match self.stage {
            Stage::Waiting { wait, timestamp_us } => {
                let status = wait.on_recv_error();
                self.record(status, timestamp_us, 0);
            },
            _ => {},
        }
    }

    /// Whether every cycle is done.
    pub fn is_finished(&self) -> (r: bool)
        requires
            self.wf(),
        ensures
            r == Session::finished(self@),
    {
        matches!(self.stage, Stage::Idle) && self.warmup_sent == self.warmup
            && self.recorded == self.samples.len()
    }

    /// The sample buffer: one entry per measurement cycle, of which the
    /// first `recorded` hold the recorded cycles; every recorded lost cycle
    /// has `rtt_us == -1`.
    pub fn samples(&self) -> (r: &Vec<Sample>)
        requires
            self.wf(),
        ensures
            r@ == self@.samples,
            lost_marked(r@, self@.recorded as int),
    {
        &self.samples
    }

    /// Hands the sample buffer over.
    pub fn into_samples(self) -> (r: Vec<Sample>)
        requires
            self.wf(),
        ensures
            r@ == self@.samples,
            lost_marked(r@, self@.recorded as int),
    {
        self.samples
    }
}

} // verus!
