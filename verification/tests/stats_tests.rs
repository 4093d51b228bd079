use drs_rt::stats::{checked_rtt_sum, lost_count, lost_cycles, ok_rtts, rtt_summary, RttSummary};
use drs_rt::types::{Sample, Status};

fn s(rtt: i64, status: Status) -> Sample {
    Sample { timestamp_us: 0, rtt_us: rtt, status }
}

#[test]
fn lost_cycles_are_counted_and_listed() {
    let samples = vec![
        s(5, Status::Okay),
        s(-1, Status::Timeout),
        s(7, Status::Okay),
        s(-1, Status::SeqMismatch),
    ];
    assert_eq!(lost_count(&samples), 2);
    assert_eq!(lost_cycles(&samples), vec![1, 3]);
    assert_eq!(ok_rtts(&samples), vec![5, 7]);
    assert_eq!(lost_count(&samples) + ok_rtts(&samples).len(), samples.len());
}

#[test]
fn summary_min_mean_max() {
    assert_eq!(
        rtt_summary(&vec![339, 610, 6161]),
        Some(RttSummary { min: 339, mean: 2370, max: 6161 })
    );
    assert_eq!(rtt_summary(&vec![4]), Some(RttSummary { min: 4, mean: 4, max: 4 }));
    assert_eq!(rtt_summary(&Vec::new()), None);
}

#[test]
fn summary_mean_rounds_toward_zero() {
    assert_eq!(rtt_summary(&vec![-3, -4]), Some(RttSummary { min: -4, mean: -3, max: -3 }));
    assert_eq!(rtt_summary(&vec![3, 4]), Some(RttSummary { min: 3, mean: 3, max: 4 }));
    assert_eq!((-7i64) / 2, -3);
}

#[test]
fn sum_overflow_is_detected() {
    assert_eq!(checked_rtt_sum(&vec![1, 2, 3]), Some(6));
    assert_eq!(checked_rtt_sum(&Vec::new()), Some(0));
    assert_eq!(checked_rtt_sum(&vec![i64::MAX, 1]), None);
    // the running sum overflows before the total comes back in range
    assert_eq!(checked_rtt_sum(&vec![i64::MAX, 1, -1]), None);
    assert_eq!(checked_rtt_sum(&vec![i64::MAX, -1, 1]), Some(i64::MAX));
    assert_eq!(
        rtt_summary(&vec![i64::MAX, -1, 1]),
        Some(RttSummary { min: -1, mean: i64::MAX / 3, max: i64::MAX })
    );
}
