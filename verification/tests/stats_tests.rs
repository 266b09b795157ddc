use pinger::stats::{compute_loss, avg_of, max_of, min_of, PingStats};
use pinger::session::{due_for_flush, more_probes, should_persist_final, Session};

#[test]
fn new_stats_are_empty() {
    let st = PingStats::new("1.2.3.4".to_string());
    assert_eq!(st.target, "1.2.3.4");
    assert_eq!(st.sent, 0);
    assert_eq!(st.received, 0);
    assert_eq!(st.loss_centi_percent, 0);
    assert!(st.min_centi_ms.is_none());
    assert!(st.max_centi_ms.is_none());
    assert!(st.avg_centi_ms.is_none());
    assert_eq!(st.latency_buckets, vec![0u64; 12]);
}

#[test]
fn recompute_empty_samples_yields_absent_extremes() {
    // absent min/max/avg and zero counts, regardless of sent
    let mut st = PingStats::new("1.2.3.4".to_string());
    st.recompute(5, &Vec::new());
    assert_eq!(st.sent, 5);
    assert_eq!(st.received, 0);
    assert!(st.min_centi_ms.is_none());
    assert!(st.max_centi_ms.is_none());
    assert!(st.avg_centi_ms.is_none());
    assert!(st.latency_buckets.iter().all(|&c| c == 0));
    assert_eq!(st.loss_centi_percent, 10000); // 100.00 %
}

#[test]
fn recompute_zero_sent_yields_zero_loss() {
    let mut st = PingStats::new("1.2.3.4".to_string());
    st.recompute(0, &Vec::new());
    assert_eq!(st.loss_percent_text(), "0.00");
    assert_eq!(st.loss_centi_percent, 0);
    assert_eq!(st.received, 0);
}

#[test]
fn loss_percent_formula() {
    // 100 * (sent - received) / sent, in hundredths of a percent
    assert_eq!(compute_loss(10, 8), 2000); // 20.00 %
    assert_eq!(compute_loss(3, 2), 3333); // 33.33 %
    assert_eq!(compute_loss(3, 1), 6667); // 66.67 %
    assert_eq!(compute_loss(4, 4), 0);
    assert_eq!(compute_loss(4, 0), 10000);
    assert_eq!(compute_loss(0, 0), 0);
}

#[test]
fn extremes_and_average() {
    let samples: Vec<u64> = vec![1050, 1225];
    assert_eq!(min_of(&samples), 1050);
    assert_eq!(max_of(&samples), 1225);
    // mean is 11.375 ms; half up at centi-ms resolution gives 11.38 ms
    assert_eq!(avg_of(&samples), 1138);
}

#[test]
fn session_scenario_ten_probes_eight_replies() {
    // 20, 25, 30, 1200, 15, 22, 18, 19 ms recorded; two probes lost
    let samples: Vec<u64> = vec![2000, 2500, 3000, 120000, 1500, 2200, 1800, 1900];
    let mut st = PingStats::new("1.2.3.4".to_string());
    st.recompute(10, &samples);
    assert_eq!(st.received, 8);
    assert_eq!(st.loss_centi_percent, 2000); // 20.0 %
    assert_eq!(st.min_centi_ms, Some(1500)); // 15 ms
    assert_eq!(st.max_centi_ms, Some(120000)); // 1200 ms
    let early: u64 = st.latency_buckets[0] + st.latency_buckets[1];
    assert_eq!(early, 7); // seven samples below 100 ms
    assert_eq!(st.latency_buckets[11], 1); // one sample at 1000 ms or above
}

#[test]
fn interrupt_scenario_three_sent_two_received() {
    let mut session = Session::new("1.2.3.4".to_string());
    session.record_sent();
    session.record_reply(1050); // 10.5 ms
    session.record_sent();
    session.record_reply(1225); // 12.25 ms
    session.record_sent();
    let snap = session.session_snapshot();
    assert_eq!(snap.sent, 3);
    assert_eq!(snap.received, 2);
    assert_eq!(snap.loss_centi_percent, 3333); // about 33.3 %
    assert_eq!(snap.min_centi_ms, Some(1050));
    assert_eq!(snap.max_centi_ms, Some(1225));
    assert_eq!(snap.avg_centi_ms, Some(1138)); // 11.375 ms, rounded
}

#[test]
fn interval_flush_resets_interval_only() {
    let mut session = Session::new("1.2.3.4".to_string());
    session.record_sent();
    session.record_reply(2000);
    session.record_sent();
    let snap = session.flush_interval();
    assert_eq!(snap.sent, 2);
    assert_eq!(snap.received, 1);
    // the interval window is empty and zero again
    assert_eq!(session.interval_sent, 0);
    assert!(session.interval_samples.is_empty());
    // the session-wide window is unaffected
    assert_eq!(session.sent, 2);
    assert_eq!(session.samples, vec![2000]);
    // the next interval accumulates afresh
    session.record_sent();
    session.record_reply(3000);
    assert_eq!(session.interval_sent, 1);
    assert_eq!(session.interval_samples, vec![3000]);
    assert_eq!(session.sent, 3);
    assert_eq!(session.samples, vec![2000, 3000]);
}

#[test]
fn loss_matches_float_arithmetic() {
    // the fixed-point loss is the float percentage rounded to hundredths
    for sent in 1u64..40 {
        for received in 0..=sent {
            let expected = (10000.0 * (sent - received) as f64 / sent as f64).round() as u64;
            assert_eq!(compute_loss(sent, received), expected, "sent={sent} received={received}");
        }
    }
}

#[test]
fn average_matches_float_arithmetic() {
    let cases: Vec<Vec<u64>> = vec![
        vec![1050, 1225],
        vec![2000, 2500, 3000, 120000, 1500, 2200, 1800, 1900],
        vec![1],
        vec![1, 2],
        vec![333, 333, 334],
    ];
    for samples in cases {
        let expected = {
            let sum: u64 = samples.iter().sum();
            let mean = sum as f64 / samples.len() as f64;
            mean.round() as u64
        };
        assert_eq!(avg_of(&samples), expected, "samples={samples:?}");
    }
}

#[test]
fn recompute_stamps_the_moment() {
    let mut st = PingStats::new("1.2.3.4".to_string());
    st.timestamp_ms = 0;
    st.recompute(1, &vec![100]);
    // the wall clock reads far past the epoch
    assert!(st.timestamp_ms > 0);
}

#[test]
fn loop_decisions() {
    assert!(more_probes(0, None));
    assert!(more_probes(u64::MAX - 1, None));
    assert!(more_probes(3, Some(4)));
    assert!(!more_probes(4, Some(4)));
    assert!(!due_for_flush(500, Some(1000)));
    assert!(due_for_flush(1000, Some(1000)));
    assert!(!due_for_flush(99999, None));
    assert!(should_persist_final(1));
    assert!(!should_persist_final(0));
}
