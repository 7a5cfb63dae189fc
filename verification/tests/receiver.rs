use latency::h264::depacketizable;
use latency::receiver::{find_sequence_gaps, is_frame, scannable_len, RtpReceiver};

#[test]
fn every_packet_is_logged_in_order() {
    let mut r = RtpReceiver::new();
    assert_eq!(r.sequence_numbers(), &[] as &[u16]);
    r.on_rtp(7, &[0x65, 1, 2, 3]);
    r.on_rtp(9, &[]);
    r.on_rtp(8, &[0x7c, 0x85, 1]);
    assert_eq!(r.sequence_numbers(), &[7, 9, 8]);
}

#[test]
fn single_nal_unit_completes_a_frame() {
    let mut r = RtpReceiver::new();
    assert!(r.on_rtp(1, &[0x65, 0x88, 0x84]));
    assert!(r.on_rtp(2, &[0x41, 0x9a, 0x00]));
    assert!(r.on_rtp(3, &[0x09, 0xf0]));
    assert!(!r.on_rtp(4, &[0x41, 0x9a]));
}

#[test]
fn short_payloads_complete_nothing() {
    let mut r = RtpReceiver::new();
    assert!(!r.on_rtp(1, &[]));
    assert!(!r.on_rtp(2, &[0x65]));
    assert!(!r.on_rtp(3, &[0x65, 0x01]));
}

#[test]
fn fragments_complete_a_frame_at_their_end() {
    let mut r = RtpReceiver::new();
    assert!(!r.on_rtp(1, &[0x7c, 0x85, 1, 2, 3]));
    assert!(!r.on_rtp(2, &[0x7c, 0x05, 4, 5, 6]));
    assert!(r.on_rtp(3, &[0x7c, 0x45, 7, 8]));
}

#[test]
fn aggregation_packet_completes_a_frame_when_well_formed() {
    let mut r = RtpReceiver::new();
    assert!(r.on_rtp(1, &[0x78, 0x00, 0x02, 0x67, 0x42, 0x00, 0x01, 0x68]));
    assert!(!r.on_rtp(2, &[0x78, 0x00, 0x05, 0x67, 0x42]));
}

#[test]
fn unhandled_nal_types_complete_nothing() {
    let mut r = RtpReceiver::new();
    assert!(!r.on_rtp(1, &[0x00, 1, 2]));
    assert!(!r.on_rtp(2, &[0x19, 1, 2]));
    assert!(!r.on_rtp(3, &[0x1d, 1, 2]));
}

#[test]
fn dangling_aggregation_byte_is_not_depacketizable() {
    assert!(!depacketizable(&[0x78, 0x00, 0x01, 0x67, 0x42]));
    assert!(!depacketizable(&[0x78, 0x00, 0x00, 0x09]));
    assert!(depacketizable(&[0x78, 0x00, 0x01, 0x67]));
    assert!(depacketizable(&[0x78, 0x00]));
    assert!(depacketizable(&[0x65, 0x00, 0x01, 0x67, 0x42]));
}

#[test]
fn outcome_is_a_frame_only_when_ok_and_non_empty() {
    assert!(is_frame::<()>(&Ok(vec![1])));
    assert!(!is_frame::<()>(&Ok(vec![])));
    assert!(!is_frame::<()>(&Err(())));
}

#[test]
fn gaps_are_numbers_not_following_their_predecessor() {
    assert_eq!(find_sequence_gaps(&[1, 2, 4, 5, 9]), vec![4, 9]);
    assert_eq!(find_sequence_gaps(&[3, 3, 4]), vec![3]);
    assert_eq!(find_sequence_gaps(&[10]), Vec::<u16>::new());
    assert_eq!(find_sequence_gaps(&[65534, 65535]), Vec::<u16>::new());
}

#[test]
fn consecutive_numbers_have_no_gaps() {
    let s: Vec<u16> = (100..200).collect();
    assert_eq!(scannable_len(&s), s.len());
    assert!(find_sequence_gaps(&s).is_empty());
}

#[test]
fn gap_scan_needs_a_first_number_and_no_decrease() {
    assert_eq!(scannable_len(&[]), 0);
    assert_eq!(scannable_len(&[5, 4]), 1);
    assert_eq!(scannable_len(&[65534, 65535, 0, 1]), 2);
    assert_eq!(scannable_len(&[1, 1, 2]), 3);
    assert_eq!(scannable_len(&[7]), 1);
}

#[test]
fn gaps_before_the_first_decrease_are_found() {
    let s = [1u16, 3, 4, 6, 2, 3];
    let n = scannable_len(&s);
    assert_eq!(n, 4);
    assert_eq!(find_sequence_gaps(&s[..n]), vec![3, 6]);
}
