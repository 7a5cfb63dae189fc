//! Reduction of the performance-counter timestamps of both peers to integer
//! microsecond intervals: the sender's frame-to-frame intervals and the
//! per-frame latency from sending to complete reception.
//!
//! Timestamps are counter ticks read as `i64`; each is taken as `u64`, as a
//! Rust `as` cast does, before two of them are subtracted.

use vstd::prelude::*;

verus! {

/// Microseconds in one second.
pub const MICROSECONDS_PER_SECOND: u64 = 1000000;

/// Number of frames the sender streams.
pub const FRAME_COUNT: usize = 120;

/// Counter ticks per microsecond for a counter running at `frequency` ticks
/// per second.
pub fn ticks_per_microsecond(frequency: i64) -> (div: u64)
    ensures
        div == (frequency as u64) / MICROSECONDS_PER_SECOND,
{
    frequency as u64 / MICROSECONDS_PER_SECOND
}

/// Frames sent but never completed at the receiver.
pub fn lost_frames(sent: usize, received: usize) -> (lost: usize)
    requires
        received <= sent,
    ensures
        lost + received == sent,
{
    sent - received
}

pub open spec fn min(a: int, b: int) -> int {
    if a <= b {
        a
    } else {
        b
    }
}

/// Microseconds between two counter readings, `to` not before `from`.
pub open spec fn elapsed(from: i64, to: i64, div: u64) -> int {
    ((to as u64) - (from as u64)) / (div as int)
}

/// Latencies can be computed: the division is by a positive number where one
/// is taken, and each frame is received no earlier than it was sent.
pub open spec fn latencies_defined(sent: Seq<i64>, received: Seq<i64>, div: u64) -> bool {
    let n = min(sent.len() as int, received.len() as int);
    &&& n > 0 ==> div > 0
    &&& forall|i: int| 0 <= i < n ==> (#[trigger] sent[i] as u64) <= (received[i] as u64)
}

/// Latency of each frame in microseconds: frame `i` sent at `sent[i]` and
/// completed at `received[i]`, over the frames both lists hold.
pub fn latencies(sent: &[i64], received: &[i64], div: u64) -> (out: Vec<u64>)
    requires
        latencies_defined(sent@, received@, div),
    ensures
        out@.len() == min(sent@.len() as int, received@.len() as int),
        forall|i: int| 0 <= i < out@.len() ==> #[trigger] out@[i] == elapsed(sent@[i], received@[i], div),
{
    let n: usize = if sent.len() <= received.len() { sent.len() } else { received.len() };
    let mut out: Vec<u64> = Vec::new();
    for i in 0..n
        invariant
            n == min(sent@.len() as int, received@.len() as int),
            latencies_defined(sent@, received@, div),
            out@.len() == i,
            forall|j: int| 0 <= j < i ==> #[trigger] out@[j] == elapsed(sent@[j], received@[j], div),
    {
        let a = sent[i];
        let b = received[i];
        assert((sent@[i as int] as u64) <= (received@[i as int] as u64));
        out.push((b as u64 - a as u64) / div);
    }
    out
}

/// Whether `latencies` can be computed: exactly `latencies_defined`.
pub fn latencies_computable(sent: &[i64], received: &[i64], div: u64) -> (ok: bool)
    ensures
        ok == latencies_defined(sent@, received@, div),
{
    let n: usize = if sent.len() <= received.len() { sent.len() } else { received.len() };
    if n > 0 && div == 0 {
        return false;
    }
    for i in 0..n
        invariant
            n == min(sent@.len() as int, received@.len() as int),
            n > 0 ==> div > 0,
            forall|j: int| 0 <= j < i ==> (#[trigger] sent@[j] as u64) <= (received@[j] as u64),
    {
        if (received[i] as u64) < (sent[i] as u64) {
            return false;
        }
    }
    true
}

/// Frame intervals can be computed: the division is by a positive number
/// where one is taken, and the counter readings never go back.
pub open spec fn intervals_defined(sent: Seq<i64>, div: u64) -> bool {
    &&& sent.len() >= 2 ==> div > 0
    &&& forall|i: int| 1 <= i < sent.len() ==> (sent[i - 1] as u64) <= (#[trigger] sent[i] as u64)
}

/// The frame-to-frame intervals of a list of readings, in microseconds.
pub open spec fn interval_seq(sent: Seq<i64>, div: u64) -> Seq<int> {
    Seq::new(
        if sent.len() == 0 {
            0
        } else {
            (sent.len() - 1) as nat
        },
        |i: int| elapsed(sent[i], sent[i + 1], div),
    )
}

/// Microseconds between consecutive frames sent at the readings `sent`.
pub fn frame_intervals(sent: &[i64], div: u64) -> (out: Vec<u64>)
    requires
        intervals_defined(sent@, div),
    ensures
        out@.map_values(|d: u64| d as int) == interval_seq(sent@, div),
{
    let mut out: Vec<u64> = Vec::new();
    let n = sent.len();
    if n == 0 {
        assert(out@.map_values(|d: u64| d as int) =~= interval_seq(sent@, div));
        return out;
    }
    for i in 1..n
        invariant
            n == sent@.len(),
            n >= 1,
            intervals_defined(sent@, div),
            out@.len() == i - 1,
            forall|j: int| 0 <= j < i - 1 ==> #[trigger] out@[j] == elapsed(sent@[j], sent@[j + 1], div),
    {
        assert((sent@[i - 1] as u64) <= (sent@[i as int] as u64));
        out.push((sent[i] as u64 - sent[i - 1] as u64) / div);
    }
    assert(out@.map_values(|d: u64| d as int) =~= interval_seq(sent@, div));
    out
}

/// Whether `frame_intervals` can be computed: exactly `intervals_defined`.
pub fn intervals_computable(sent: &[i64], div: u64) -> (ok: bool)
    ensures
        ok == intervals_defined(sent@, div),
{
    let n = sent.len();
    if n >= 2 && div == 0 {
        return false;
    }
    if n == 0 {
        return true;
    }
    for i in 1..n
        invariant
            n == sent@.len(),
            n >= 1,
            n >= 2 ==> div > 0,
            forall|j: int| 1 <= j < i ==> (sent@[j - 1] as u64) <= (#[trigger] sent@[j] as u64),
    {
        if (sent[i] as u64) < (sent[i - 1] as u64) {
            return false;
        }
    }
    true
}

/// The latency table is reported only when every streamed frame was matched
/// with its reception.
pub fn latency_report_complete(latencies: &[u64]) -> (complete: bool)
    ensures
        complete == (latencies@.len() == FRAME_COUNT),
{
    latencies.len() == FRAME_COUNT
}

/// Sum of a sequence of integers.
pub open spec fn total(s: Seq<int>) -> int
    decreases s.len(),
{
    if s.len() == 0 {
        0
    } else {
        total(s.drop_last()) + s.last()
    }
}

/// Law: counted in ticks (one tick per unit), the frame intervals add up to
/// the time from the first frame to the last.
pub proof fn lemma_intervals_telescope(sent: Seq<i64>)
    requires
        intervals_defined(sent, 1),
        sent.len() >= 1,
    ensures
        total(interval_seq(sent, 1)) == (sent.last() as u64) - (sent[0] as u64),
    decreases sent.len(),
{
    if sent.len() > 1 {
        let t = sent.drop_last();
        assert(intervals_defined(t, 1)) by {
            assert forall|i: int| 1 <= i < t.len() implies (t[i - 1] as u64) <= (#[trigger] t[i] as u64) by {
                assert(sent[i] == t[i]);
            }
        }
        lemma_intervals_telescope(t);
        assert(interval_seq(sent, 1).drop_last() =~= interval_seq(t, 1));
        let k = sent.len() - 1;
        assert((sent[k - 1] as u64) <= (sent[k] as u64));
    }
}

} // verus!
