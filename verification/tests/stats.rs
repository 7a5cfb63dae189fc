use latency::stats::{
    frame_intervals, intervals_computable, latencies, latencies_computable, latency_report_complete,
    lost_frames, ticks_per_microsecond, FRAME_COUNT,
};

#[test]
fn ticks_per_microsecond_of_common_frequencies() {
    assert_eq!(ticks_per_microsecond(10_000_000), 10);
    assert_eq!(ticks_per_microsecond(3_579_545), 3);
    assert_eq!(ticks_per_microsecond(999_999), 0);
    assert_eq!(ticks_per_microsecond(-1), u64::MAX / 1_000_000);
}

#[test]
fn lost_frames_is_the_difference() {
    assert_eq!(lost_frames(120, 118), 2);
    assert_eq!(lost_frames(120, 120), 0);
}

#[test]
fn latencies_pair_frames_in_order() {
    let sent = [100, 200, 300];
    let received = [130, 260];
    assert!(latencies_computable(&sent, &received, 10));
    assert_eq!(latencies(&sent, &received, 10), vec![3, 6]);
    assert_eq!(latencies(&received, &[135, 269, 1], 1), vec![5, 9]);
}

#[test]
fn latencies_round_down() {
    assert_eq!(latencies(&[0], &[19], 10), vec![1]);
}

#[test]
fn latencies_of_nothing_need_no_divisor() {
    assert!(latencies_computable(&[], &[5], 0));
    assert_eq!(latencies(&[], &[5], 0), Vec::<u64>::new());
    assert!(!latencies_computable(&[1], &[5], 0));
}

#[test]
fn latency_before_sending_is_not_computable() {
    assert!(!latencies_computable(&[10, 20], &[15, 19], 1));
    assert!(latencies_computable(&[10, 20], &[15, 20], 1));
}

#[test]
fn negative_readings_count_as_u64() {
    assert!(latencies_computable(&[5], &[-1], 1));
    assert_eq!(latencies(&[5], &[-1], 1), vec![u64::MAX - 5]);
    assert!(!latencies_computable(&[-1], &[5], 1));
}

#[test]
fn frame_intervals_between_consecutive_frames() {
    let sent = [1_000, 167_000, 333_000, 500_500];
    assert!(intervals_computable(&sent, 10));
    assert_eq!(frame_intervals(&sent, 10), vec![16_600, 16_600, 16_750]);
}

#[test]
fn frame_intervals_of_short_lists() {
    assert_eq!(frame_intervals(&[], 0), Vec::<u64>::new());
    assert_eq!(frame_intervals(&[42], 0), Vec::<u64>::new());
    assert!(intervals_computable(&[42], 0));
    assert!(!intervals_computable(&[1, 2], 0));
}

#[test]
fn decreasing_readings_are_not_computable() {
    assert!(!intervals_computable(&[5, 4], 1));
    assert!(intervals_computable(&[4, 4, 5], 1));
}

#[test]
fn frame_intervals_add_up_to_the_sending_time() {
    let sent = [3, 10, 10, 25, 70];
    let total: u64 = frame_intervals(&sent, 1).iter().sum();
    assert_eq!(total, 67);
}

#[test]
fn latency_report_needs_every_frame() {
    assert_eq!(FRAME_COUNT, 120);
    assert!(latency_report_complete(&vec![0; 120]));
    assert!(!latency_report_complete(&vec![0; 119]));
}
