use neohtop::fdinfo::{fdinfo_fits, parse_fdinfo};
use neohtop::gpu_process::{engine_times_fit, process_engine_time, GpuProcessMonitor};
use std::collections::HashMap;

/// A single fdinfo block is reduced to its client id and total engine time
#[test]
fn test_parse_fdinfo() {
    let info = "pos:\t0\n\
                drm-driver:\tamdgpu\n\
                drm-client-id:\t495\n\
                drm-memory-vram:\t23240 KiB\n\
                drm-engine-gfx:\t1000000 ns\n\
                drm-engine-compute:\t500000 ns\n";

    assert_eq!(parse_fdinfo(info), Some((495, 1_500_000)));
}

/// Capacity lines describe how many engines exist, not how busy they were
#[test]
fn test_parse_fdinfo_ignores_capacity() {
    let info = "drm-client-id:\t7\n\
                drm-engine-capacity-gfx:\t2\n\
                drm-engine-gfx:\t400 ns\n";

    assert_eq!(parse_fdinfo(info), Some((7, 400)));
}

/// Descriptors that are not DRM clients carry no client id
#[test]
fn test_parse_fdinfo_rejects_non_drm() {
    assert_eq!(parse_fdinfo("pos:\t0\nflags:\t02\n"), None);
}

#[test]
fn fdinfo_last_client_id_wins_and_bad_values_count_nothing() {
    assert_eq!(parse_fdinfo("drm-client-id: 1\ndrm-client-id: 2\n"), Some((2, 0)));
    assert_eq!(parse_fdinfo("drm-client-id: 1\ndrm-client-id: x\n"), None);
    assert_eq!(
        parse_fdinfo("drm-engine-gfx: ten ns\ndrm-client-id:3\r\ndrm-engine-enc:\t  5\n"),
        Some((3, 5))
    );
    assert_eq!(parse_fdinfo("drm-engine-gfx 5\ndrm-client-id 3"), None);
    assert_eq!(parse_fdinfo(""), None);
}

#[test]
fn fdinfo_overflow_is_detected() {
    let big = "drm-client-id: 1\ndrm-engine-a: 18446744073709551615 ns\ndrm-engine-b: 1 ns\n";
    assert!(!fdinfo_fits(big));
    assert!(fdinfo_fits("drm-client-id: 1\ndrm-engine-a: 18446744073709551615 ns\n"));
}

#[test]
fn duplicated_descriptors_count_once() {
    let a = "drm-client-id: 10\ndrm-engine-gfx: 100 ns\n".to_string();
    let b = "drm-client-id: 11\ndrm-engine-gfx: 7 ns\n".to_string();
    let not_drm = "pos: 0\n".to_string();
    let fds = vec![a.clone(), not_drm.clone(), b, a];
    assert!(engine_times_fit(&fds));
    assert_eq!(process_engine_time(&fds), Some(107));
    let none = vec![not_drm];
    assert_eq!(process_engine_time(&none), None);
    assert_eq!(process_engine_time(&Vec::new()), None);
}

/// The first sample only establishes a baseline, so it reports nothing
#[test]
fn test_first_sample_has_no_baseline() {
    let mut monitor = GpuProcessMonitor::new(true);
    let current = HashMap::from([(42u32, 5_000u64), (43, 9)]);
    assert!(monitor.collect(current, 1_000_000).is_empty());
}

/// Percentages must stay non-negative and finite
#[test]
fn test_collected_usage_is_plausible() {
    let mut monitor = GpuProcessMonitor::new(true);
    monitor.collect(HashMap::from([(1u32, 1_000u64), (2, 50_000), (3, 7)]), 10);

    let elapsed: u128 = 1_000_000;
    let usage = monitor.collect(HashMap::from([(1u32, 501_000u64), (2, 40_000), (4, 3)]), elapsed);
    for (_, delta) in &usage {
        let percentage = ((*delta as f64 / elapsed as f64) * 100.0) as f32;
        assert!(percentage.is_finite());
        assert!(percentage >= 0.0);
    }
    assert_eq!(usage, HashMap::from([(1u32, 500_000u64)]));
}

#[test]
fn usage_is_measured_against_the_previous_sample() {
    let mut monitor = GpuProcessMonitor::new(true);
    monitor.collect(HashMap::from([(1u32, 10u64)]), 5);
    monitor.collect(HashMap::from([(1u32, 30u64)]), 5);
    let usage = monitor.collect(HashMap::from([(1u32, 35u64)]), 5);
    assert_eq!(usage, HashMap::from([(1u32, 5u64)]));
    // no time passed: nothing to report, but the sample is kept
    assert!(monitor.collect(HashMap::from([(1u32, 40u64)]), 0).is_empty());
    assert_eq!(monitor.collect(HashMap::from([(1u32, 41u64)]), 1), HashMap::from([(1u32, 1u64)]));
}

#[test]
fn unsupported_machines_report_nothing() {
    let mut monitor = GpuProcessMonitor::new(false);
    assert!(!monitor.is_supported());
    monitor.collect(HashMap::from([(1u32, 10u64)]), 5);
    assert!(monitor.collect(HashMap::from([(1u32, 30u64)]), 5).is_empty());
    assert!(GpuProcessMonitor::new(true).is_supported());
}
