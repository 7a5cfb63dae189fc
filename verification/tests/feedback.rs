use latency::feedback::{append_arrival_times, report_fits, RecvDelta, SymbolKind};

fn small(delta: i64) -> RecvDelta {
    RecvDelta { kind: SymbolKind::ReceivedSmallDelta, delta }
}

fn large(delta: i64) -> RecvDelta {
    RecvDelta { kind: SymbolKind::ReceivedLargeDelta, delta }
}

fn missing() -> RecvDelta {
    RecvDelta { kind: SymbolKind::NotReceived, delta: 0 }
}

#[test]
fn small_deltas_accumulate_from_reference_time() {
    let deltas = [small(250), small(1000), small(0)];
    assert!(report_fits(3, &deltas));
    let mut times = Vec::new();
    append_arrival_times(&mut times, 3, &deltas);
    assert_eq!(times, vec![192_250, 193_250, 193_250]);
}

#[test]
fn large_delta_is_lowered_by_offset() {
    let deltas = [large(8_192_000 + 500), large(-32768 * 250)];
    assert!(report_fits(1, &deltas));
    let mut times = Vec::new();
    append_arrival_times(&mut times, 1, &deltas);
    assert_eq!(times, vec![64_500, 64_500 - 8_192_000 - 8_192_000]);
}

#[test]
fn packets_without_delta_get_no_arrival_time() {
    let deltas = [
        missing(),
        small(250),
        RecvDelta { kind: SymbolKind::ReceivedWithoutDelta, delta: 0 },
        missing(),
        small(500),
    ];
    let mut times = vec![7];
    append_arrival_times(&mut times, 0, &deltas);
    assert_eq!(times, vec![7, 250, 750]);
}

#[test]
fn reports_are_appended_in_order() {
    let mut times = Vec::new();
    append_arrival_times(&mut times, 10, &[small(250)]);
    append_arrival_times(&mut times, 11, &[small(250), small(250)]);
    assert_eq!(times, vec![640_250, 704_250, 704_500]);
}

#[test]
fn empty_report_appends_nothing() {
    let mut times = vec![1, 2];
    append_arrival_times(&mut times, 5, &[]);
    assert_eq!(times, vec![1, 2]);
}

#[test]
fn reference_time_limit_of_u32_microseconds() {
    assert!(report_fits(67_108, &[small(250)]));
    assert!(!report_fits(67_109, &[]));
    assert!(!report_fits(16_777_215, &[small(250)]));
    let mut times = Vec::new();
    append_arrival_times(&mut times, 67_108, &[small(250)]);
    assert_eq!(times, vec![67_108 * 64_000 + 250]);
}

#[test]
fn clock_overflow_is_detected() {
    assert!(!report_fits(0, &[small(i64::MAX), small(1)]));
    assert!(report_fits(0, &[small(i64::MAX)]));
    assert!(!report_fits(0, &[large(i64::MIN)]));
    assert!(report_fits(0, &[missing(), small(i64::MAX), missing()]));
}
