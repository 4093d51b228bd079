use drs_rt::types::{Sample, Status};

// UT-2: buffer pre-allocated with full capacity before first send
#[test]
fn buffer_preallocated_to_cycle_count() {
    let cycles = 1000usize;
    let mut buf: Vec<Sample> = Vec::new();
    buf.try_reserve(cycles).expect("allocation failed");
    assert_eq!(buf.capacity(), cycles);

    // Simulate insertions — must not reallocate (no capacity growth)
    let cap_before = buf.capacity();
    for i in 0..cycles {
        buf.push(Sample {
            timestamp_us: i as u64,
            rtt_us: 100,
            status: Status::Okay,
        });
    }
    assert_eq!(buf.capacity(), cap_before, "capacity grew: reallocation occurred");
}

// UT-5: packet loss recording — timeout produces -1 with status timeout
#[test]
fn timeout_records_negative_one() {
    let mut samples: Vec<Sample> = Vec::new();
    samples.try_reserve(1).unwrap();
    samples.push(Sample {
        timestamp_us: 0,
        rtt_us: -1,
        status: Status::Timeout,
    });
    assert_eq!(samples.len(), 1);
    assert_eq!(samples[0].rtt_us, -1);
    assert!(matches!(samples[0].status, Status::Timeout));
}

// UT-6: seq mismatch produces -1 with status seq_mismatch
#[test]
fn seq_mismatch_records_negative_one() {
    let mut samples: Vec<Sample> = Vec::new();
    samples.try_reserve(1).unwrap();
    samples.push(Sample {
        timestamp_us: 0,
        rtt_us: -1,
        status: Status::SeqMismatch,
    });
    assert_eq!(samples[0].rtt_us, -1);
    assert!(matches!(samples[0].status, Status::SeqMismatch));
}

// UT-7: warm-up cycles leave RTT buffer empty
#[test]
fn warmup_does_not_populate_buffer() {
    let warmup = 10u64;
    let mut samples: Vec<Sample> = Vec::new();
    samples.try_reserve(50).unwrap();

    let mut seq = 0u64;
    for _ in 0..warmup {
        seq += 1;
    }
    let _ = seq;

    assert_eq!(samples.len(), 0, "warm-up must not populate the RTT buffer");
}

#[test]
fn status_text_values() {
    assert_eq!(Status::Okay.as_str(), "ok");
    assert_eq!(Status::Timeout.as_str(), "timeout");
    assert_eq!(Status::SeqMismatch.as_str(), "seq_mismatch");
}
