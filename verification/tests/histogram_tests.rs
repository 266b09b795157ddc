use pinger::histogram::{classify, classify_label, rebuild, BUCKET_COUNT};

#[test]
fn classify_boundaries() {
    // latencies are in hundredths of a millisecond
    assert_eq!(classify(0), 0);
    assert_eq!(classify(4999), 0); // 49.99 ms
    assert_eq!(classify(5000), 1); // 50 ms
    assert_eq!(classify(9999), 1); // 99.99 ms
    assert_eq!(classify(10000), 2); // 100 ms
    assert_eq!(classify(44999), 8); // 449.99 ms
    assert_eq!(classify(45000), 9); // 450 ms
    assert_eq!(classify(49999), 9); // 499.99 ms
    assert_eq!(classify(50000), 10); // 500 ms
    assert_eq!(classify(99900), 10); // 999 ms
    assert_eq!(classify(99999), 10); // 999.99 ms
    assert_eq!(classify(100000), 11); // 1000 ms
    assert_eq!(classify(u64::MAX), 11);
}

#[test]
fn classify_is_deterministic() {
    for v in [0u64, 1, 4999, 5000, 123456, u64::MAX] {
        assert_eq!(classify(v), classify(v));
        assert_eq!(classify_label(classify(v)), classify_label(classify(v)));
    }
}

#[test]
fn labels_in_declared_order() {
    let expected = [
        "0-50ms", "50-100ms", "100-150ms", "150-200ms", "200-250ms", "250-300ms", "300-350ms",
        "350-400ms", "400-450ms", "450-500ms", "500-999ms", ">1000ms",
    ];
    for (i, e) in expected.iter().enumerate() {
        assert_eq!(classify_label(i), *e);
    }
}

#[test]
fn rebuild_counts_sum_to_sample_count() {
    let samples: Vec<u64> = vec![2000, 2500, 3000, 120000, 1500, 2200, 1800, 1900, 45000, 99900];
    let counts = rebuild(&samples);
    assert_eq!(counts.len(), BUCKET_COUNT);
    let total: u64 = counts.iter().sum();
    assert_eq!(total, samples.len() as u64);
}

#[test]
fn rebuild_empty_is_all_zero() {
    let counts = rebuild(&Vec::new());
    assert_eq!(counts.len(), BUCKET_COUNT);
    assert!(counts.iter().all(|&c| c == 0));
}

#[test]
fn rebuild_classifies_each_sample_once() {
    // 20, 25, 30, 1200, 15, 22, 18, 19 ms
    let samples: Vec<u64> = vec![2000, 2500, 3000, 120000, 1500, 2200, 1800, 1900];
    let counts = rebuild(&samples);
    assert_eq!(counts[0], 7);
    assert_eq!(counts[11], 1);
    for b in 1..11 {
        assert_eq!(counts[b], 0);
    }
}
