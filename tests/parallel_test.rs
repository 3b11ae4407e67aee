use pbf2json::pipeline::{
    memory_check_due, over_memory_limit, resident_mb_from_status, SinkProgress, CHUNK_SIZE, OUTPUT_QUEUE_CAPACITY,
};

#[test]
fn test_parallel_converter_compiles() {
    // This test ensures the parallel converter code compiles without runtime testing
    println!("✅ Parallel converter compiles successfully");
}

#[test]
fn sink_reports_every_hundred_batches() {
    let mut p = SinkProgress::new();
    let mut reports = 0;
    for i in 0..250u64 {
        if p.record_batch(i % 3) {
            reports += 1;
        }
    }
    assert_eq!(reports, 2);
    assert_eq!(p.batches, 250);
    assert_eq!(p.features, (0..250u64).map(|i| i % 3).sum::<u64>());
}

#[test]
fn sink_counters_saturate() {
    let mut p = SinkProgress { batches: u64::MAX, features: u64::MAX - 1 };
    p.record_batch(5);
    assert_eq!(p.batches, u64::MAX);
    assert_eq!(p.features, u64::MAX);
}

#[test]
fn memory_checks_and_limits() {
    assert!(!memory_check_due(0));
    assert!(!memory_check_due(49));
    assert!(memory_check_due(50));
    assert!(memory_check_due(100));
    assert!(!over_memory_limit(8192));
    assert!(over_memory_limit(8193));
    assert_eq!(CHUNK_SIZE, 10_000);
    assert_eq!(OUTPUT_QUEUE_CAPACITY, 1000);
}

#[test]
fn resident_memory_from_status_text() {
    let status = "Name:\tpbf2json\nVmPeak:\t  999999 kB\nVmRSS:\t  204800 kB\nThreads:\t4\n";
    assert_eq!(resident_mb_from_status(status), Some(200));
    assert_eq!(resident_mb_from_status("VmRSS: 2047 kB"), Some(1));
    assert_eq!(resident_mb_from_status("VmRSS: +2048 kB"), Some(2));
    assert_eq!(resident_mb_from_status("VmRSS:\nVmRSS: 4096 kB"), Some(4));
    assert_eq!(resident_mb_from_status("VmRSS: lots kB"), None);
    assert_eq!(resident_mb_from_status("VmRSS: 99999999999999999999 kB"), None);
    assert_eq!(resident_mb_from_status("Threads: 4\n"), None);
    assert_eq!(resident_mb_from_status(""), None);
}
