//! Depacketization of H.264 RTP payloads (RFC 6184) through webrtc-rs'
//! `H264Packet`, and the payload properties that decide whether a payload
//! completes a frame.

use vstd::prelude::*;
use webrtc::rtp::codecs::h264::H264Packet;
use webrtc::rtp::packetizer::Depacketizer;
use webrtc::rtp::Error as RtpError;

verus! {

#[verifier::external_type_specification]
#[verifier::external_body]
pub struct ExH264Packet(H264Packet);

#[verifier::external_type_specification]
#[verifier::external_body]
pub struct ExRtpError(RtpError);

/// Mask of the NAL unit type in the first payload byte.
pub const NALU_TYPE_BITMASK: u8 = 0x1f;

/// NAL unit type of an access unit delimiter.
pub const AUD_NALU_TYPE: u8 = 9;

/// NAL unit type of a single-time aggregation packet.
pub const STAPA_NALU_TYPE: u8 = 24;

/// NAL unit type of a fragmentation unit.
pub const FUA_NALU_TYPE: u8 = 28;

/// End bit in the header of a fragmentation unit.
pub const FU_END_BITMASK: u8 = 0x40;

/// NAL unit type of a payload.
pub open spec fn nalu_type(p: Seq<u8>) -> u8 {
    p[0] & NALU_TYPE_BITMASK
}

/// Whether the payload is long enough to be depacketized: longer than two
/// bytes, or two bytes holding an access unit delimiter.
pub open spec fn long_enough(p: Seq<u8>) -> bool {
    ||| p.len() > 2
    ||| p.len() == 2 && nalu_type(p) == AUD_NALU_TYPE
}

/// Size of the aggregated unit whose big-endian length prefix is at `off`.
pub open spec fn unit_size(p: Seq<u8>, off: int) -> int {
    p[off] * 256 + p[off + 1]
}

/// Walking the length-prefixed units of an aggregation packet from `off`
/// reaches a lone last byte where a two-byte length prefix should start.
pub open spec fn stap_a_dangles(p: Seq<u8>, off: int) -> bool
    decreases p.len() - off,
{
    if off < 0 || off >= p.len() {
        false
    } else if off + 1 >= p.len() {
        true
    } else if p.len() < off + 2 + unit_size(p, off) {
        false
    } else {
        stap_a_dangles(p, off + 2 + unit_size(p, off))
    }
}

/// Walking the length-prefixed units of an aggregation packet from `off`
/// ends exactly at the end of the payload, every unit fitting in it.
pub open spec fn stap_a_fits(p: Seq<u8>, off: int) -> bool
    decreases p.len() - off,
{
    if off < 0 {
        false
    } else if off >= p.len() {
        true
    } else if off + 1 >= p.len() {
        false
    } else if p.len() < off + 2 + unit_size(p, off) {
        false
    } else {
        stap_a_fits(p, off + 2 + unit_size(p, off))
    }
}

/// Payloads on which `H264Packet::depacketize` panics: an aggregation packet
/// whose units leave a single byte where a length prefix should be.
pub open spec fn depacketize_panics(p: Seq<u8>) -> bool {
    p.len() > 2 && nalu_type(p) == STAPA_NALU_TYPE && stap_a_dangles(p, 1)
}

/// A fragmentation unit that is not the last fragment of its NAL unit.
pub open spec fn fragment_without_end(p: Seq<u8>) -> bool {
    long_enough(p) && nalu_type(p) == FUA_NALU_TYPE && p[1] & FU_END_BITMASK == 0
}

/// A single NAL unit, carried whole.
pub open spec fn single_nal_unit(p: Seq<u8>) -> bool {
    long_enough(p) && 1 <= nalu_type(p) <= 23
}

/// Whether depacketizing the payload gives a non-empty frame: a single NAL
/// unit, a well-formed aggregation packet, or the last fragment of a
/// fragmentation unit.
pub open spec fn completes_frame(p: Seq<u8>) -> bool {
    &&& long_enough(p)
    &&& {
        let t = nalu_type(p);
        if 1 <= t <= 23 {
            true
        } else if t == STAPA_NALU_TYPE {
            stap_a_fits(p, 1)
        } else if t == FUA_NALU_TYPE {
            p[1] & FU_END_BITMASK != 0
        } else {
            false
        }
    }
}

/// The two-byte big-endian length prefix of an aggregated unit.
pub open spec fn length_prefix(unit: Seq<u8>) -> Seq<u8> {
    seq![(unit.len() / 256) as u8, (unit.len() % 256) as u8]
}

/// Units laid out as in an aggregation packet, each behind its length prefix.
pub open spec fn aggregate(units: Seq<Seq<u8>>) -> Seq<u8>
    decreases units.len(),
{
    if units.len() == 0 {
        Seq::empty()
    } else {
        length_prefix(units[0]) + units[0] + aggregate(units.drop_first())
    }
}

/// Every unit is short enough for its length to fit in two bytes.
pub open spec fn units_fit(units: Seq<Seq<u8>>) -> bool {
    forall|i: int| 0 <= i < units.len() ==> #[trigger] units[i].len() < 65536
}

/// Walking over units laid out at `off` lands right behind them, with the
/// same outcome as walking from there.
proof fn lemma_walk_over_units(q: Seq<u8>, off: int, units: Seq<Seq<u8>>)
    requires
        0 <= off,
        units_fit(units),
        off + aggregate(units).len() <= q.len(),
        q.subrange(off, off + aggregate(units).len()) == aggregate(units),
    ensures
        stap_a_dangles(q, off) == stap_a_dangles(q, off + aggregate(units).len()),
        stap_a_fits(q, off) == stap_a_fits(q, off + aggregate(units).len()),
    decreases units.len(),
{
    if units.len() > 0 {
        let u = units[0];
        let rest = units.drop_first();
        let a = aggregate(units);
        let n = u.len();
        assert(a == length_prefix(u) + u + aggregate(rest));
        assert(n < 65536);
        assert(q[off] == a[0]);
        assert(q[off + 1] == a[1]);
        assert(((n / 256) as u8) as int == n / 256);
        assert(((n % 256) as u8) as int == n % 256);
        assert(unit_size(q, off) == n);
        let next = off + 2 + n;
        assert(units_fit(rest)) by {
            assert forall|i: int| 0 <= i < rest.len() implies #[trigger] rest[i].len() < 65536 by {
                assert(rest[i] == units[i + 1]);
            }
        }
        assert(q.subrange(next, next + aggregate(rest).len()) =~= aggregate(rest)) by {
            assert forall|k: int| 0 <= k < aggregate(rest).len() implies q.subrange(
                next,
                next + aggregate(rest).len(),
            )[k] == aggregate(rest)[k] by {
                assert(q[next + k] == a[2 + n + k]);
            }
        }
        lemma_walk_over_units(q, next, rest);
    }
}

/// Law: an aggregation packet whose units, each behind its length prefix,
/// fill the payload exactly is depacketized without panicking and completes
/// a frame.
pub proof fn lemma_full_aggregation_completes(header: u8, units: Seq<Seq<u8>>)
    requires
        header & NALU_TYPE_BITMASK == STAPA_NALU_TYPE,
        units.len() > 0,
        units_fit(units),
    ensures
        !depacketize_panics(seq![header] + aggregate(units)),
        completes_frame(seq![header] + aggregate(units)),
{
    let p = seq![header] + aggregate(units);
    let a = aggregate(units);
    assert(a == length_prefix(units[0]) + units[0] + aggregate(units.drop_first()));
    assert(p.len() > 2);
    assert(p[0] == header);
    assert(p.subrange(1, 1 + a.len() as int) =~= a);
    lemma_walk_over_units(p, 1, units);
}

/// Law: an aggregation packet whose units, each behind its length prefix,
/// are followed by a single stray byte panics the depacketizer: the walk
/// ends on that byte where a length prefix should start.
pub proof fn lemma_stray_byte_dangles(header: u8, units: Seq<Seq<u8>>, stray: u8)
    requires
        header & NALU_TYPE_BITMASK == STAPA_NALU_TYPE,
        units.len() > 0,
        units_fit(units),
    ensures
        depacketize_panics(seq![header] + aggregate(units) + seq![stray]),
{
    let p = seq![header] + aggregate(units) + seq![stray];
    let a = aggregate(units);
    assert(a == length_prefix(units[0]) + units[0] + aggregate(units.drop_first()));
    assert(p.len() > 2);
    assert(p[0] == header);
    assert(p.subrange(1, 1 + a.len() as int) =~= a);
    lemma_walk_over_units(p, 1, units);
}

/// A fresh `H264Packet` from its `Default` impl: Annex B output, no
/// fragment buffered. Nothing is stated of the value, which Verus cannot see.
#[verifier::external_body]
pub(crate) fn new_depacketizer() -> H264Packet {
    H264Packet::default()
}

/// Calls `Depacketizer::depacketize` of `H264Packet` on a copy of `payload`
/// and copies the output out of its `Bytes`. Claimed from the crate's source:
/// a payload that is not `long_enough` is an error; a single NAL unit
/// (types 1 to 23) gives the payload behind a four-byte prefix; a fragment
/// without the end bit gives an empty frame; the output is non-empty exactly
/// when `completes_frame` holds. These hold whatever fragments the packet has
/// buffered; what the packet buffers, and the output's bytes otherwise, are
/// left unsaid. `depacketize` indexes past the end on the payloads of
/// `depacketize_panics`, which are therefore excluded.
#[verifier::external_body]
pub(crate) fn depacketize(depacketizer: &mut H264Packet, payload: &[u8]) -> (r: Result<Vec<u8>, RtpError>)
    requires
        !depacketize_panics(payload@),
    ensures
        (r matches Ok(frame) && frame@.len() > 0) == completes_frame(payload@),
        !long_enough(payload@) ==> r is Err,
        single_nal_unit(payload@) ==> r is Ok && r->Ok_0@.len() == payload@.len() + 4
            && r->Ok_0@.skip(4) == payload@,
        fragment_without_end(payload@) ==> r is Ok && r->Ok_0@.len() == 0,
{
    match depacketizer.depacketize(&bytes::Bytes::copy_from_slice(payload)) {
        Ok(frame) => Ok(frame.to_vec()),
        Err(e) => Err(e),
    }
}

/// Whether `H264Packet::depacketize` can be called on the payload without
/// panicking: exactly the negation of `depacketize_panics`.
pub fn depacketizable(payload: &[u8]) -> (ok: bool)
    ensures
        ok == !depacketize_panics(payload@),
{
    let len = payload.len();
    if len <= 2 || payload[0] & NALU_TYPE_BITMASK != STAPA_NALU_TYPE {
        return true;
    }
    let mut off: usize = 1;
    while off < len
        invariant
            len == payload@.len(),
            len > 2,
            nalu_type(payload@) == STAPA_NALU_TYPE,
            1 <= off <= len,
            stap_a_dangles(payload@, 1) == stap_a_dangles(payload@, off as int),
        decreases len - off,
    {
        if off + 1 >= len {
            return false;
        }
        let size: usize = (payload[off] as usize) * 256 + payload[off + 1] as usize;
        if len - off - 2 < size {
            return true;
        }
        off = off + 2 + size;
    }
    true
}

} // verus!
