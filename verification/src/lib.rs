//! Decision and bookkeeping logic of an RTP latency measurement between two
//! WebRTC peers: the sender turns transport-wide congestion-control feedback
//! into arrival times, the receiver logs sequence numbers and completed H.264
//! frames, and the timestamps of both sides are reduced to integer intervals.

pub mod feedback;
pub mod h264;
pub mod receiver;
pub mod signaling;
pub mod stats;
