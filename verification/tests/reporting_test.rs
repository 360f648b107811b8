use adverify::reporting::{flagged_total, ReportGenerator, ScoredOutcome};

fn outcome(fraud: bool, reasons: &[&str]) -> ScoredOutcome {
    ScoredOutcome { is_fraudulent: fraud, reasons: reasons.iter().map(|r| r.to_string()).collect() }
}

fn pairs(v: &[adverify::reporting::LabelCount]) -> Vec<(String, u64)> {
    v.iter().map(|c| (c.label.clone(), c.count)).collect()
}

#[test]
fn report_counts_of_one_batch() {
    let batch = vec![
        outcome(true, &["bot"]),
        outcome(false, &[]),
        outcome(true, &["click injection"]),
        outcome(false, &[]),
    ];
    let r = ReportGenerator::new().tally(&vec![batch]);
    assert_eq!(r.total_requests, 4);
    assert_eq!(r.fraudulent_requests, 2);
    assert_eq!(r.top_reasons.len(), 2);
    assert_eq!(r.batches.len(), 1);
    assert_eq!((r.batches[0].batch_index, r.batches[0].count, r.batches[0].fraudulent), (0, 4, 2));
}

#[test]
fn test_empty_report() {
    let generator = ReportGenerator::new();
    let report = generator.tally(&vec![]);
    assert_eq!(report.total_requests, 0);
    assert_eq!(report.fraudulent_requests, 0);
}

#[test]
fn reasons_are_counted_sorted_and_categorised() {
    let b1 = vec![outcome(true, &["violence:war", "bot"]), outcome(true, &["bot"])];
    let b2 = vec![outcome(false, &["violence:gun", "bot"]), outcome(true, &["violence:war"])];
    let r = ReportGenerator::default().tally(&vec![b1, b2]);
    assert_eq!(r.total_requests, 4);
    assert_eq!(r.fraudulent_requests, 3);
    assert_eq!(
        pairs(&r.reason_counts),
        vec![("violence:war".into(), 2), ("bot".into(), 3), ("violence:gun".into(), 1)]
    );
    assert_eq!(
        pairs(&r.top_reasons),
        vec![("bot".into(), 3), ("violence:war".into(), 2), ("violence:gun".into(), 1)]
    );
    // Requests with a violence reason: three; with a bot reason: three.
    assert_eq!(pairs(&r.category_breakdown), vec![("violence".into(), 3), ("bot".into(), 3)]);
    assert_eq!(flagged_total(&r.category_breakdown), 6);
    assert_eq!(r.batches.iter().map(|b| (b.count, b.fraudulent)).collect::<Vec<_>>(), vec![(2, 2), (2, 1)]);
}

#[test]
fn top_reasons_keep_twenty() {
    let reasons: Vec<String> = (0..25).map(|i| format!("r{i}")).collect();
    let outcomes: Vec<ScoredOutcome> = (0..25)
        .map(|i| ScoredOutcome { is_fraudulent: false, reasons: reasons[..=i].to_vec() })
        .collect();
    let r = ReportGenerator::new().tally(&vec![outcomes]);
    assert_eq!(r.reason_counts.len(), 25);
    assert_eq!(r.top_reasons.len(), 20);
    assert_eq!(r.top_reasons[0].label, "r0");
    assert_eq!(r.top_reasons[0].count, 25);
    assert_eq!(r.top_reasons[19].label, "r19");
}

#[test]
fn dashboard_series_has_one_point_per_batch() {
    let batch = vec![outcome(true, &["violence:war"])];
    let r = ReportGenerator::new().tally(&vec![batch]);
    assert_eq!(r.batches.len(), 1);
    assert_eq!(pairs(&r.category_breakdown), vec![("violence".into(), 1)]);
}

#[test]
fn test_report_generation() {
    let batch = vec![
        outcome(true, &["bot"]),
        outcome(false, &[]),
        outcome(true, &["click injection"]),
        outcome(false, &[]),
    ];
    let generator = ReportGenerator::new();
    let report = generator.tally(&vec![batch]);
    assert_eq!(report.total_requests, 4);
    assert_eq!(report.fraudulent_requests, 2);
    let fraud_rate = report.fraudulent_requests as f64 / report.total_requests as f64;
    assert!((fraud_rate - 0.5).abs() < 1e-6);
    assert_eq!(report.top_reasons.len(), 2);
}

#[test]
fn test_dashboard_data() {
    let batch = vec![outcome(true, &["violence:war"])];
    let generator = ReportGenerator::new();
    let data = generator.tally(&vec![batch]);
    // One time-series point per batch.
    assert_eq!(data.batches.len(), 1);
}

#[test]
fn categories_count_requests_not_reasons() {
    // Two requests flagged with the same reason count twice; one request with
    // two reasons of one category counts once.
    let batch = vec![
        outcome(true, &["violence:war"]),
        outcome(true, &["violence:war"]),
        outcome(true, &["violence:gun", "violence:war", "bot"]),
    ];
    let r = ReportGenerator::new().tally(&vec![batch]);
    assert_eq!(pairs(&r.category_breakdown), vec![("violence".into(), 3), ("bot".into(), 1)]);
    assert_eq!(flagged_total(&r.category_breakdown), 4);
}
