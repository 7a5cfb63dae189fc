use latency::signaling::{IceConnectionState, IceGathererState, PeerConnectionState};

#[test]
fn streaming_starts_only_when_connected() {
    assert!(PeerConnectionState::Connected.starts_streaming());
    for s in [
        PeerConnectionState::Unspecified,
        PeerConnectionState::New,
        PeerConnectionState::Connecting,
        PeerConnectionState::Disconnected,
        PeerConnectionState::Failed,
        PeerConnectionState::Closed,
    ] {
        assert!(!s.starts_streaming());
    }
}

#[test]
fn reception_ends_on_disconnect_failure_or_close() {
    for s in [
        IceConnectionState::Disconnected,
        IceConnectionState::Failed,
        IceConnectionState::Closed,
    ] {
        assert!(s.ends_reception());
    }
    for s in [
        IceConnectionState::Unspecified,
        IceConnectionState::New,
        IceConnectionState::Checking,
        IceConnectionState::Connected,
        IceConnectionState::Completed,
    ] {
        assert!(!s.ends_reception());
    }
}

#[test]
fn gathering_done_only_when_complete() {
    assert!(IceGathererState::Complete.gathering_done());
    for s in [
        IceGathererState::Unspecified,
        IceGathererState::New,
        IceGathererState::Gathering,
        IceGathererState::Closed,
    ] {
        assert!(!s.gathering_done());
    }
}
