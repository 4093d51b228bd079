use drs_rt::affinity::{affinity_result, pin_result, set_affinity, AffinityError};

#[test]
fn affinity_result_names_the_core() {
    assert_eq!(affinity_result(3, true), Ok(()));
    assert_eq!(affinity_result(3, false), Err(AffinityError { core: 3 }));
}

#[test]
fn unlisted_cores_are_refused() {
    assert_eq!(pin_result(3, None, true), Err(AffinityError { core: 3 }));
    assert_eq!(pin_result(0, None, false), Err(AffinityError { core: 0 }));
}

#[test]
fn pinning_reports_the_core_on_failure() {
    // whether the pin succeeds depends on the machine; a failure names the core
    for core in [0usize, 1, 100, 1023] {
        match set_affinity(core) {
            Ok(()) => {}
            Err(e) => assert_eq!(e.core, core),
        }
    }
}
