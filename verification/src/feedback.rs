//! Arrival times of sent packets, recovered from transport-wide
//! congestion-control (TWCC) feedback reports that the receiver sends back.
//!
//! A report carries a reference time, in units of 64 ms, and one status
//! symbol per packet. Packets received with a small or a large delta advance a
//! running clock, in microseconds, by their delta and are stamped with it.

use vstd::prelude::*;

verus! {

/// Status symbol of one packet in a feedback report.
#[derive(Clone, Copy, Debug, PartialEq, Eq, Structural)]
pub enum SymbolKind {
    NotReceived,
    ReceivedSmallDelta,
    ReceivedLargeDelta,
    ReceivedWithoutDelta,
}

/// One packet of a feedback report: its status and its receive delta in
/// microseconds.
#[derive(Clone, Copy, Debug, PartialEq, Eq, Structural)]
pub struct RecvDelta {
    pub kind: SymbolKind,
    pub delta: i64,
}

/// Microseconds per unit of the report's reference time.
pub const REFERENCE_TIME_UNIT_US: u32 = 64000;

/// What a large delta is lowered by before it is added to the clock.
pub const LARGE_DELTA_OFFSET_US: i64 = 8192000;

/// The largest reference time whose conversion to microseconds fits a `u32`.
pub const MAX_REFERENCE_TIME: u32 = 67108;

/// The clock at the start of a report, in microseconds.
pub open spec fn base_time(reference_time: u32) -> int {
    reference_time * REFERENCE_TIME_UNIT_US
}

/// Whether a packet with this status is given an arrival time.
pub open spec fn has_arrival(kind: SymbolKind) -> bool {
    kind is ReceivedSmallDelta || kind is ReceivedLargeDelta
}

/// How far one packet moves the running clock.
pub open spec fn advance(d: RecvDelta) -> int {
    match d.kind {
        SymbolKind::ReceivedSmallDelta => d.delta as int,
        SymbolKind::ReceivedLargeDelta => d.delta - LARGE_DELTA_OFFSET_US,
        _ => 0,
    }
}

/// The running clock after the packets `ds`, starting from `start`.
pub open spec fn clock(start: int, ds: Seq<RecvDelta>) -> int
    decreases ds.len(),
{
    if ds.len() == 0 {
        start
    } else {
        clock(start, ds.drop_last()) + advance(ds.last())
    }
}

/// The arrival times that the packets `ds` yield, in order.
pub open spec fn arrivals(start: int, ds: Seq<RecvDelta>) -> Seq<int>
    decreases ds.len(),
{
    if ds.len() == 0 {
        Seq::empty()
    } else if has_arrival(ds.last().kind) {
        arrivals(start, ds.drop_last()).push(clock(start, ds))
    } else {
        arrivals(start, ds.drop_last())
    }
}

pub open spec fn fits_i64(x: int) -> bool {
    i64::MIN <= x <= i64::MAX
}

/// Every intermediate value of the accumulation in `i64` stays in range.
pub open spec fn stays_in_range(start: int, ds: Seq<RecvDelta>) -> bool
    decreases ds.len(),
{
    if ds.len() == 0 {
        fits_i64(start)
    } else {
        &&& stays_in_range(start, ds.drop_last())
        &&& (ds.last().kind is ReceivedLargeDelta ==> fits_i64(
            ds.last().delta - LARGE_DELTA_OFFSET_US,
        ))
        &&& fits_i64(clock(start, ds))
    }
}

/// The report can be processed without an arithmetic overflow: the reference
/// time converts to microseconds within `u32`, and the clock stays in `i64`.
pub open spec fn report_in_range(reference_time: u32, ds: Seq<RecvDelta>) -> bool {
    &&& reference_time * REFERENCE_TIME_UNIT_US <= u32::MAX
    &&& stays_in_range(base_time(reference_time), ds)
}

/// A sequence of timestamps as mathematical integers.
pub open spec fn widen(s: Seq<i64>) -> Seq<int> {
    s.map_values(|t: i64| t as int)
}

proof fn lemma_widen_push(s: Seq<i64>, t: i64)
    ensures
        widen(s.push(t)) == widen(s).push(t as int),
{
    assert(widen(s.push(t)) =~= widen(s).push(t as int));
}

proof fn lemma_in_range_prefix(start: int, ds: Seq<RecvDelta>, k: int)
    requires
        stays_in_range(start, ds),
        0 <= k <= ds.len(),
    ensures
        stays_in_range(start, ds.take(k)),
    decreases ds.len(),
{
    if k == ds.len() {
        assert(ds.take(k) =~= ds);
    } else {
        assert(ds.drop_last().take(k) =~= ds.take(k));
        lemma_in_range_prefix(start, ds.drop_last(), k);
    }
}

/// Appends to `times` the arrival time of each packet of one feedback report
/// that was received with a delta, in the order of the report. The clock
/// starts at the reference time and moves by each small delta, and by each
/// large delta lowered by `LARGE_DELTA_OFFSET_US`.
pub fn append_arrival_times(times: &mut Vec<i64>, reference_time: u32, deltas: &[RecvDelta])
    requires
        report_in_range(reference_time, deltas@),
    ensures
        widen(final(times)@) == widen(old(times)@) + arrivals(base_time(reference_time), deltas@),
{
    let ghost start = base_time(reference_time);
    let ghost before = widen(times@);
    let mut arrival_time: i64 = (reference_time * REFERENCE_TIME_UNIT_US) as i64;
    assert(deltas@.take(0) =~= Seq::<RecvDelta>::empty());
    assert(before + arrivals(start, deltas@.take(0)) =~= before);
    let n = deltas.len();
    for i in 0..n
        invariant
            n == deltas@.len(),
            stays_in_range(start, deltas@),
            arrival_time == clock(start, deltas@.take(i as int)),
            widen(times@) == before + arrivals(start, deltas@.take(i as int)),
    {
        let d = deltas[i];
        proof {
            let pre = deltas@.take(i + 1);
            assert(pre.drop_last() =~= deltas@.take(i as int));
            assert(pre.last() == d);
            lemma_in_range_prefix(start, deltas@, i + 1);
        }
        match d.kind {
            SymbolKind::ReceivedSmallDelta => {
                arrival_time = arrival_time + d.delta;
                proof {
                    lemma_widen_push(times@, arrival_time);
                }
                times.push(arrival_time);
            },
            SymbolKind::ReceivedLargeDelta => {
                arrival_time = arrival_time + (d.delta - LARGE_DELTA_OFFSET_US);
                proof {
                    lemma_widen_push(times@, arrival_time);
                }
                times.push(arrival_time);
            },
            _ => {},
        }
    }
    assert(deltas@.take(n as int) =~= deltas@);
}

/// Whether `append_arrival_times` can process the report: exactly
/// `report_in_range`.
pub fn report_fits(reference_time: u32, deltas: &[RecvDelta]) -> (ok: bool)
    ensures
        ok == report_in_range(reference_time, deltas@),
{
    if reference_time > MAX_REFERENCE_TIME {
        return false;
    }
    let ghost start = base_time(reference_time);
    let mut clock_now: i128 = (reference_time * REFERENCE_TIME_UNIT_US) as i128;
    assert(deltas@.take(0) =~= Seq::<RecvDelta>::empty());
    let n = deltas.len();
    for i in 0..n
        invariant
            n == deltas@.len(),
            start == base_time(reference_time),
            reference_time * REFERENCE_TIME_UNIT_US <= u32::MAX,
            clock_now == clock(start, deltas@.take(i as int)),
            stays_in_range(start, deltas@.take(i as int)),
    {
        let d = deltas[i];
        let ghost pre = deltas@.take(i + 1);
        proof {
            assert(pre.drop_last() =~= deltas@.take(i as int));
            assert(pre.last() == d);
        }
        match d.kind {
            SymbolKind::ReceivedSmallDelta => {
                clock_now = clock_now + d.delta as i128;
            },
            SymbolKind::ReceivedLargeDelta => {
                let step: i128 = d.delta as i128 - LARGE_DELTA_OFFSET_US as i128;
                if step < i64::MIN as i128 {
                    proof {
                        if stays_in_range(start, deltas@) {
                            lemma_in_range_prefix(start, deltas@, i + 1);
                        }
                    }
                    return false;
                }
                clock_now = clock_now + step;
            },
            _ => {},
        }
        if clock_now < i64::MIN as i128 || clock_now > i64::MAX as i128 {
            proof {
                if stays_in_range(start, deltas@) {
                    lemma_in_range_prefix(start, deltas@, i + 1);
                }
            }
            return false;
        }
    }
    assert(deltas@.take(n as int) =~= deltas@);
    true
}

/// Law: a report yields exactly one arrival time per packet received with a
/// delta; packets not received, or received without a delta, yield none.
pub proof fn lemma_one_arrival_per_timed_packet(start: int, ds: Seq<RecvDelta>)
    ensures
        arrivals(start, ds).len() == ds.filter(|d: RecvDelta| has_arrival(d.kind)).len(),
    decreases ds.len(),
{
    reveal_with_fuel(Seq::filter, 1);
    if ds.len() > 0 {
        lemma_one_arrival_per_timed_packet(start, ds.drop_last());
    }
}

/// Law: how one more packet extends a report. A packet received with a
/// large delta `d` moves the clock by exactly `d - 8192000` and is stamped
/// with the moved clock, whatever the size of `d`; one received with a small
/// delta moves it by `d` and is stamped likewise; any other packet leaves the
/// clock where it was and is not stamped. An empty report stays at the
/// reference time and stamps nothing.
pub proof fn lemma_one_more_packet(start: int, ds: Seq<RecvDelta>, d: RecvDelta)
    ensures
        clock(start, Seq::empty()) == start,
        arrivals(start, Seq::empty()) == Seq::<int>::empty(),
        d.kind is ReceivedLargeDelta ==> clock(start, ds.push(d)) == clock(start, ds) + d.delta
            - 8192000 && arrivals(start, ds.push(d)) == arrivals(start, ds).push(
            clock(start, ds) + d.delta - 8192000,
        ),
        d.kind is ReceivedSmallDelta ==> clock(start, ds.push(d)) == clock(start, ds) + d.delta
            && arrivals(start, ds.push(d)) == arrivals(start, ds).push(clock(start, ds) + d.delta),
        !(d.kind is ReceivedLargeDelta || d.kind is ReceivedSmallDelta) ==> clock(
            start,
            ds.push(d),
        ) == clock(start, ds) && arrivals(start, ds.push(d)) == arrivals(start, ds),
{
    assert(ds.push(d).drop_last() =~= ds);
}

/// Law: the arrival times of a report of one packet, written out: the
/// reference time in microseconds, moved by the packet's delta (lowered by
/// 8192000 for a large delta), or nothing for a packet without a delta.
pub proof fn lemma_single_packet_report(reference_time: u32, d: RecvDelta)
    ensures
        d.kind is ReceivedSmallDelta ==> arrivals(base_time(reference_time), seq![d]) == seq![
            reference_time * 64000 + d.delta,
        ],
        d.kind is ReceivedLargeDelta ==> arrivals(base_time(reference_time), seq![d]) == seq![
            reference_time * 64000 + d.delta - 8192000,
        ],
        d.kind is NotReceived || d.kind is ReceivedWithoutDelta ==> arrivals(
            base_time(reference_time),
            seq![d],
        ).len() == 0,
{
    lemma_one_more_packet(base_time(reference_time), Seq::empty(), d);
    assert(Seq::<RecvDelta>::empty().push(d) =~= seq![d]);
}

/// Law: each arrival time is the clock at its packet, that is the reference
/// time plus the moves of all packets up to and including that one; a report
/// split in two gives the arrivals of the first part followed by those of the
/// second part started from the clock that the first part reached.
pub proof fn lemma_arrivals_split(start: int, a: Seq<RecvDelta>, b: Seq<RecvDelta>)
    ensures
        arrivals(start, a + b) == arrivals(start, a) + arrivals(clock(start, a), b),
        clock(start, a + b) == clock(clock(start, a), b),
    decreases b.len(),
{
    if b.len() == 0 {
        assert(a + b =~= a);
        assert(arrivals(start, a) + arrivals(clock(start, a), b) =~= arrivals(start, a));
    } else {
        let ab = a + b;
        assert(ab.drop_last() =~= a + b.drop_last());
        assert(ab.last() == b.last());
        lemma_arrivals_split(start, a, b.drop_last());
        if has_arrival(b.last().kind) {
            assert(arrivals(start, a) + arrivals(clock(start, a), b) =~= (arrivals(start, a)
                + arrivals(clock(start, a), b.drop_last())).push(clock(start, ab)));
        }
    }
}

} // verus!
