use route_warden::score::{jitter_us, percentile, score_nodes, NodeStats, ScoreWeights};

#[test]
fn availability_beats_latency() {
    let fast_but_unstable = NodeStats {
        node: "NodeA".to_string(),
        total: 10,
        success: 4,
        latencies_ms: vec![20, 22, 19, 18],
        consecutive_failures: 3,
    };

    let slower_but_stable = NodeStats {
        node: "NodeB".to_string(),
        total: 10,
        success: 10,
        latencies_ms: vec![120, 130, 125, 128, 122],
        consecutive_failures: 0,
    };

    let ranked = score_nodes(
        &vec![fast_but_unstable, slower_but_stable],
        ScoreWeights::default_weights(),
    );

    assert_eq!(ranked[0].node, "NodeB");
    assert!(ranked[0].score > ranked[1].score);
}

#[test]
fn score_components_of_one_node() {
    let stats = NodeStats {
        node: "N".to_string(),
        total: 4,
        success: 3,
        latencies_ms: vec![300, 100, 200, 400],
        consecutive_failures: 2,
    };
    let ranked = score_nodes(&vec![stats], ScoreWeights::default_weights());
    let s = &ranked[0];
    assert_eq!(s.availability, 750_000);
    // ascending 100, 200, 300, 400: rank round(3 * 0.5) = 2, round(3 * 0.95) = 3
    assert_eq!(s.p50_ms, Some(300));
    assert_eq!(s.p95_ms, Some(400));
    // population deviation sqrt(12500) ms = 111.803... ms
    assert_eq!(s.jitter_us, 111_803);
    assert_eq!(s.penalty, 200_000i128 * 200_000);
    let expected = 700_000i128 * 750_000
        + 150_000 * (1_000_000_000 / 1_300)
        + 100_000 * (1_000_000_000 / 1_400)
        + 50_000 * (1_000_000_000_000 / 1_111_803)
        - 200_000 * 200_000;
    assert_eq!(s.score, expected);
    assert_eq!(percentile(&vec![], 50), None);
    assert_eq!(percentile(&vec![5], 95), Some(5));
    assert_eq!(jitter_us(&vec![7]), 0);
    assert_eq!(jitter_us(&vec![10, 10, 10]), 0);
    assert_eq!(jitter_us(&vec![0, 2]), 1_000);
}

#[test]
fn ranking_is_descending_and_stable() {
    let node = |name: &str, success: usize| NodeStats {
        node: name.to_string(),
        total: 2,
        success,
        latencies_ms: vec![100, 100],
        consecutive_failures: 0,
    };
    let ranked = score_nodes(
        &vec![node("A", 1), node("B", 2), node("C", 1), node("D", 0)],
        ScoreWeights::default_weights(),
    );
    let names: Vec<&str> = ranked.iter().map(|s| s.node.as_str()).collect();
    assert_eq!(names, vec!["B", "A", "C", "D"]);
    for pair in ranked.windows(2) {
        assert!(pair[0].score >= pair[1].score);
    }
}

#[test]
fn no_probes_means_no_availability_and_unbounded_latency() {
    let ranked = score_nodes(
        &vec![NodeStats {
            node: "X".to_string(),
            total: 0,
            success: 0,
            latencies_ms: vec![],
            consecutive_failures: 20,
        }],
        ScoreWeights::default_weights(),
    );
    assert_eq!(ranked[0].availability, 0);
    assert_eq!(ranked[0].p50_ms, None);
    assert_eq!(ranked[0].jitter_us, 0);
    // jitter scores 1.0 with no samples; the penalty is capped at 1.0 * 0.2
    assert_eq!(ranked[0].score, 50_000i128 * 1_000_000 - 200_000i128 * 1_000_000);
}

#[test]
fn percentile_rank_rounds_half_up_like_the_float_rank() {
    // (111 - 1) * 0.95 is 104.5, which rounds to 105.
    let values: Vec<u64> = (0..111u64).collect();
    assert_eq!(percentile(&values, 95), Some(105));
    // (11 - 1) * 0.95 is 9.5, which rounds to 10.
    let values: Vec<u64> = (0..11u64).collect();
    assert_eq!(percentile(&values, 95), Some(10));
    assert_eq!(percentile(&values, 50), Some(5));
}
