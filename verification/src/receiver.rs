//! The receiving peer's log: the sequence number of every RTP packet read,
//! the decision whether a packet completes an H.264 frame, and the scan of the
//! logged sequence numbers for breaks.

use vstd::prelude::*;
use webrtc::rtp::codecs::h264::H264Packet;
use crate::h264::{completes_frame, depacketize, depacketize_panics, new_depacketizer};

verus! {

/// Receives the packets of one video track.
pub struct RtpReceiver {
    depacketizer: H264Packet,
    seq_nums: Vec<u16>,
}

impl View for RtpReceiver {
    type V = Seq<u16>;

    /// The sequence numbers of the packets received so far, in order.
    closed spec fn view(&self) -> Seq<u16> {
        self.seq_nums@
    }
}

/// Whether a depacketization outcome is a completed frame: it succeeded and
/// gave at least one byte.
pub fn is_frame<E>(outcome: &Result<Vec<u8>, E>) -> (frame: bool)
    ensures
        frame == (outcome matches Ok(bytes) && bytes@.len() > 0),
{
    match outcome {
        Ok(bytes) => bytes.len() > 0,
        Err(_) => false,
    }
}

impl RtpReceiver {
    /// A receiver that has seen no packet.
    pub fn new() -> (r: Self)
        ensures
            r@ == Seq::<u16>::empty(),
    {
        RtpReceiver { depacketizer: new_depacketizer(), seq_nums: Vec::new() }
    }

    /// Logs the sequence number of a packet and depacketizes its payload;
    /// returns whether the payload completed a frame, on which the caller
    /// stamps the frame's arrival.
    pub fn on_rtp(&mut self, sequence_number: u16, payload: &[u8]) -> (frame: bool)
        requires
            !depacketize_panics(payload@),
        ensures
            final(self)@ == old(self)@.push(sequence_number),
            frame == completes_frame(payload@),
    {
        self.seq_nums.push(sequence_number);
        let outcome = depacketize(&mut self.depacketizer, payload);
        is_frame(&outcome)
    }

    /// The sequence numbers logged so far.
    pub fn sequence_numbers(&self) -> (s: &[u16])
        ensures
            s@ == self@,
    {
        self.seq_nums.as_slice()
    }
}

/// The scan for breaks is defined: there is a first number, and no number is
/// below the one before it (the difference is taken in `u16`), so the numbers
/// never decrease.
pub open spec fn gap_scan_defined(s: Seq<u16>) -> bool {
    &&& s.len() > 0
    &&& forall|i: int, j: int| 0 <= i <= j < s.len() ==> s[i] <= s[j]
}

/// The sequence numbers that do not follow the one before them by exactly one.
pub open spec fn sequence_gaps(s: Seq<u16>) -> Seq<u16>
    decreases s.len(),
{
    if s.len() <= 1 {
        Seq::empty()
    } else if s.last() - s[s.len() - 2] != 1 {
        sequence_gaps(s.drop_last()).push(s.last())
    } else {
        sequence_gaps(s.drop_last())
    }
}

/// Lists, in order, each sequence number that does not follow the one
/// before it by exactly one: where packets were lost or repeated.
pub fn find_sequence_gaps(seq_nums: &[u16]) -> (gaps: Vec<u16>)
    requires
        gap_scan_defined(seq_nums@),
    ensures
        gaps@ == sequence_gaps(seq_nums@),
        gaps@ == successive_pairs(seq_nums@).filter(|pr: (u16, u16)| pr.1 - pr.0 != 1).map_values(
            |pr: (u16, u16)| pr.1,
        ),
{
    let mut gaps: Vec<u16> = Vec::new();
    let n = seq_nums.len();
    let mut prev: u16 = seq_nums[0];
    assert(seq_nums@.take(1).len() == 1);
    let mut i: usize = 1;
    while i < n
        invariant
            n == seq_nums@.len(),
            gap_scan_defined(seq_nums@),
            1 <= i <= n,
            prev == seq_nums@[i - 1],
            gaps@ == sequence_gaps(seq_nums@.take(i as int)),
        decreases n - i,
    {
        let sn = seq_nums[i];
        proof {
            let pre = seq_nums@.take(i + 1);
            assert(pre.drop_last() =~= seq_nums@.take(i as int));
            assert(pre.last() == sn);
            assert(pre[pre.len() - 2] == prev);
        }
        if sn - prev != 1 {
            gaps.push(sn);
        }
        prev = sn;
        i = i + 1;
    }
    assert(seq_nums@.take(n as int) =~= seq_nums@);
    proof {
        lemma_gaps_are_the_breaking_pairs(seq_nums@);
    }
    gaps
}

/// Length of the part of the log that the scan for breaks gets through: the
/// numbers up to, not including, the first one below its predecessor (where
/// the difference in `u16` overflows), or the whole log if none is; 0 for an
/// empty log, whose first number cannot be taken.
pub fn scannable_len(seq_nums: &[u16]) -> (n: usize)
    ensures
        n <= seq_nums@.len(),
        seq_nums@.len() == 0 ==> n == 0,
        seq_nums@.len() > 0 ==> gap_scan_defined(seq_nums@.take(n as int)),
        n < seq_nums@.len() ==> n > 0 && seq_nums@[n as int] < seq_nums@[n - 1],
{
    let len = seq_nums.len();
    if len == 0 {
        return 0;
    }
    let mut i: usize = 1;
    while i < len
        invariant
            len == seq_nums@.len(),
            1 <= i <= len,
            forall|j: int, k: int| 0 <= j <= k < i ==> seq_nums@[j] <= seq_nums@[k],
        decreases len - i,
    {
        if seq_nums[i] < seq_nums[i - 1] {
            assert(gap_scan_defined(seq_nums@.take(i as int)));
            return i;
        }
        i = i + 1;
    }
    assert(seq_nums@.take(len as int) =~= seq_nums@);
    len
}

/// Law: the scan gets through a non-empty log exactly when it is defined on
/// the whole of it.
pub proof fn lemma_scannable_whole_log(s: Seq<u16>, n: int)
    requires
        0 <= n <= s.len(),
        s.len() == 0 ==> n == 0,
        s.len() > 0 ==> gap_scan_defined(s.take(n)),
        n < s.len() ==> n > 0 && s[n] < s[n - 1],
    ensures
        gap_scan_defined(s) <==> s.len() > 0 && n == s.len(),
{
    if n == s.len() && s.len() > 0 {
        assert(s.take(n) =~= s);
    }
    if n < s.len() && gap_scan_defined(s) {
        assert(s[n - 1] <= s[n]);
    }
}

/// Each number of the log after the first, paired with the one before it.
pub open spec fn successive_pairs(s: Seq<u16>) -> Seq<(u16, u16)> {
    Seq::new(
        if s.len() == 0 {
            0
        } else {
            (s.len() - 1) as nat
        },
        |i: int| (s[i], s[i + 1]),
    )
}

/// Law: the breaks are exactly the numbers, in log order, that differ from
/// the number before them by anything but one; each such pair gives one
/// report and no other pair gives any.
pub proof fn lemma_gaps_are_the_breaking_pairs(s: Seq<u16>)
    ensures
        sequence_gaps(s) == successive_pairs(s).filter(|pr: (u16, u16)| pr.1 - pr.0 != 1).map_values(
            |pr: (u16, u16)| pr.1,
        ),
    decreases s.len(),
{
    let pred = |pr: (u16, u16)| pr.1 - pr.0 != 1;
    let second = |pr: (u16, u16)| pr.1;
    reveal_with_fuel(Seq::filter, 1);
    if s.len() <= 1 {
        assert(successive_pairs(s) =~= Seq::<(u16, u16)>::empty());
        assert(successive_pairs(s).filter(pred) =~= Seq::<(u16, u16)>::empty());
        assert(successive_pairs(s).filter(pred).map_values(second) =~= Seq::<u16>::empty());
    } else {
        let t = s.drop_last();
        lemma_gaps_are_the_breaking_pairs(t);
        let ps = successive_pairs(s);
        assert(ps.drop_last() =~= successive_pairs(t));
        assert(ps.last() == (s[s.len() - 2], s.last()));
        let ft = successive_pairs(t).filter(pred);
        if pred(ps.last()) {
            assert(ps.filter(pred) == ft.push(ps.last()));
            assert(ft.push(ps.last()).map_values(second) =~= ft.map_values(second).push(s.last()));
        } else {
            assert(ps.filter(pred) == ft);
        }
    }
}

/// Law: the scan reports nothing exactly when every number follows the one
/// before it by one.
pub proof fn lemma_no_gaps_iff_consecutive(s: Seq<u16>)
    requires
        gap_scan_defined(s),
    ensures
        sequence_gaps(s).len() == 0 <==> forall|i: int| 1 <= i < s.len() ==> #[trigger] s[i] == s[i - 1] + 1,
    decreases s.len(),
{
    if s.len() > 1 {
        let t = s.drop_last();
        assert(gap_scan_defined(t)) by {
            assert forall|i: int, j: int| 0 <= i <= j < t.len() implies t[i] <= t[j] by {
                assert(s[i] <= s[j]);
            }
        }
        lemma_no_gaps_iff_consecutive(t);
        if forall|i: int| 1 <= i < s.len() ==> #[trigger] s[i] == s[i - 1] + 1 {
            assert forall|i: int| 1 <= i < t.len() implies #[trigger] t[i] == t[i - 1] + 1 by {
                assert(s[i] == s[i - 1] + 1);
            }
            assert(s[s.len() - 1] == s[s.len() - 2] + 1);
        } else {
            let k = choose|k: int| 1 <= k < s.len() && #[trigger] s[k] != s[k - 1] + 1;
            if k == s.len() - 1 {
                assert(sequence_gaps(s).len() > 0);
            } else {
                assert(t[k] != t[k - 1] + 1);
            }
        }
    }
}

/// Law: every number the scan reports is one of the scanned numbers, and
/// there are no more of them than numbers after the first.
pub proof fn lemma_gaps_come_from_scan(s: Seq<u16>)
    ensures
        sequence_gaps(s).len() <= if s.len() == 0 { 0 } else { s.len() - 1 },
        forall|j: int| 0 <= j < sequence_gaps(s).len() ==> s.contains(#[trigger] sequence_gaps(s)[j]),
    decreases s.len(),
{
    if s.len() > 1 {
        let t = s.drop_last();
        lemma_gaps_come_from_scan(t);
        assert forall|j: int| 0 <= j < sequence_gaps(s).len() implies s.contains(
            #[trigger] sequence_gaps(s)[j],
        ) by {
            if j < sequence_gaps(t).len() {
                let x = sequence_gaps(t)[j];
                assert(t.contains(x));
                let m = choose|m: int| 0 <= m < t.len() && t[m] == x;
                assert(s[m] == x);
            } else {
                assert(s[s.len() - 1] == sequence_gaps(s)[j]);
            }
        }
    }
}

} // verus!
