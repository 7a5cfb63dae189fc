# latency

Measures the latency of an H.264 stream between two WebRTC peers on one
machine (webrtc-rs). Peer A streams 120 NAL units, one every 16.67 ms, and
timestamps each; peer B timestamps each frame it completes; the program then
prints the sender's frame intervals and the per-frame latency.

- `src/` is the verified library (Verus):
  - `feedback`: arrival times from transport-wide congestion-control reports;
  - `h264`: depacketization through webrtc-rs' `H264Packet`, and when a
    payload completes a frame;
  - `receiver`: the receiver's sequence-number log and its scan for breaks;
  - `stats`: counter readings reduced to microsecond intervals;
  - `signaling`: the connection states the peers act on.
- `app/` is the program: signalling, media I/O, the Windows performance
  counter, and the floating-point mean and deviation.
- `tests/` exercises the library.

The NAL units are read at start-up from `nalus/h264/0.h264` to
`nalus/h264/119.h264`.
