//! How a payload maps to frames and back, as mathematics.
//!
//! A payload of up to 6 bytes travels in a single first frame. A longer one
//! travels in a first frame with bytes 0 to 5, followed by frames with seven
//! bytes each: frame `k` carries bytes `7k - 1` to `7k + 5`. Positions beyond
//! the end of the payload hold padding.

use crate::nmea_frame::{header_byte, Frame, MAX_SEQUENCE_COUNTER, PADDING};
use vstd::prelude::*;

verus! {

/// Longest payload that one message can declare.
pub const MAX_NMEA_PACKET_SIZE: usize = 223;

/// Number of frames that carry a payload of `len` bytes: one while the payload
/// fits the six bytes of a first frame, else one more than the number of whole
/// sevens in `len`.
pub open spec fn frame_count(len: u8) -> u8 {
    if len <= 6 {
        1
    } else {
        (len / 7 + 1) as u8
    }
}

/// Byte `i` of a payload, or padding beyond its end.
pub open spec fn payload_byte(payload: Seq<u8>, i: int) -> u8 {
    if 0 <= i < payload.len() {
        payload[i]
    } else {
        PADDING
    }
}

/// The first `n` bytes of `bytes`, with padding where `bytes` ends early: what
/// a buffer of `n` bytes holds once `bytes` was written to its start and
/// padding to the rest.
pub open spec fn padded_to(bytes: Seq<u8>, n: nat) -> Seq<u8> {
    Seq::new(n, |i: int| payload_byte(bytes, i))
}

/// Frame `k` of the frames that carry `payload`.
pub open spec fn segment_frame(payload: Seq<u8>, sequence_counter: u8, k: int) -> Frame {
    if k == 0 {
        Frame {
            bytes: [
                header_byte(sequence_counter, 0),
                payload.len() as u8,
                payload_byte(payload, 0),
                payload_byte(payload, 1),
                payload_byte(payload, 2),
                payload_byte(payload, 3),
                payload_byte(payload, 4),
                payload_byte(payload, 5),
            ],
        }
    } else {
        Frame {
            bytes: [
                header_byte(sequence_counter, k as u8),
                payload_byte(payload, 7 * k - 1),
                payload_byte(payload, 7 * k),
                payload_byte(payload, 7 * k + 1),
                payload_byte(payload, 7 * k + 2),
                payload_byte(payload, 7 * k + 3),
                payload_byte(payload, 7 * k + 4),
                payload_byte(payload, 7 * k + 5),
            ],
        }
    }
}

/// The frames that carry `payload`, in the order in which they are sent.
pub open spec fn segment(payload: Seq<u8>, sequence_counter: u8) -> Seq<Frame> {
    Seq::new(
        frame_count(payload.len() as u8) as nat,
        |k: int| segment_frame(payload, sequence_counter, k),
    )
}

/// The payload bytes of `frames`, one frame after the other.
pub open spec fn reassembled(frames: Seq<Frame>) -> Seq<u8>
    decreases frames.len(),
{
    if frames.len() == 0 {
        Seq::empty()
    } else {
        reassembled(frames.drop_last()) + frames.last().spec_payload()
    }
}

/// The payload of the first `k + 1` frames is that of the first `k` followed
/// by the payload of frame `k`.
pub proof fn lemma_reassembled_step(frames: Seq<Frame>, k: int)
    requires
        0 <= k < frames.len(),
    ensures
        reassembled(frames.take(k + 1)) == reassembled(frames.take(k))
            + frames[k].spec_payload(),
{
    assert(frames.take(k + 1).drop_last() =~= frames.take(k));
}

/// The payload of the first `k` frames is no longer than that of all.
pub proof fn lemma_reassembled_prefix_len(frames: Seq<Frame>, k: int)
    requires
        0 <= k <= frames.len(),
    ensures
        reassembled(frames.take(k)).len() <= reassembled(frames).len(),
    decreases frames.len() - k,
{
    if k == frames.len() {
        assert(frames.take(k) =~= frames);
    } else {
        lemma_reassembled_step(frames, k);
        lemma_reassembled_prefix_len(frames, k + 1);
    }
}

/// No frame carries more than seven payload bytes, so a buffer of seven bytes
/// for each frame takes the payload of all of them.
pub proof fn lemma_reassembled_bound(frames: Seq<Frame>)
    ensures
        reassembled(frames).len() <= 7 * frames.len(),
    decreases frames.len(),
{
    if frames.len() > 0 {
        lemma_reassembled_bound(frames.drop_last());
    }
}

/// A frame with the header of a first frame, the length of `payload` and its
/// first six bytes is frame 0 of the frames that carry `payload`.
pub proof fn lemma_first_is_segment_frame(
    payload: Seq<u8>,
    sequence_counter: u8,
    head: Seq<u8>,
    frame: Frame,
)
    requires
        head.len() == 6,
        forall|i: int| 0 <= i < 6 ==> head[i] == payload_byte(payload, i),
        frame.bytes@ == seq![header_byte(sequence_counter, 0), payload.len() as u8] + head,
    ensures
        frame == segment_frame(payload, sequence_counter, 0),
{
    assert(frame.bytes =~= segment_frame(payload, sequence_counter, 0).bytes);
}

/// A frame with the header of frame `k` and the seven payload bytes that
/// follow the first `6 + 7(k - 1)` is frame `k` of the frames that carry
/// `payload`.
pub proof fn lemma_consecutive_is_segment_frame(
    payload: Seq<u8>,
    sequence_counter: u8,
    k: int,
    chunk: Seq<u8>,
    frame: Frame,
)
    requires
        1 <= k <= 255,
        chunk.len() == 7,
        forall|i: int| 0 <= i < 7 ==> chunk[i] == payload_byte(payload, 6 + (k - 1) * 7 + i),
        frame.bytes@ == seq![header_byte(sequence_counter, k as u8)] + chunk,
    ensures
        frame == segment_frame(payload, sequence_counter, k),
{
    assert(frame.bytes =~= segment_frame(payload, sequence_counter, k).bytes);
}

/// What frame `k` of the frames that carry `payload` holds: its counters, the
/// declared length in frame 0, and its share of the payload.
pub proof fn lemma_segment_frame_fields(payload: Seq<u8>, sequence_counter: u8, k: int)
    requires
        payload.len() <= MAX_NMEA_PACKET_SIZE,
        sequence_counter <= MAX_SEQUENCE_COUNTER,
        0 <= k <= 31,
    ensures
        ({
            let frame = segment_frame(payload, sequence_counter, k);
            &&& frame.spec_sequence_counter() == sequence_counter
            &&& frame.spec_frame_counter() == k
            &&& frame.spec_is_first_frame() <==> k == 0
            &&& k == 0 ==> frame.spec_data_len() == Some(payload.len() as u8)
            &&& k == 0 ==> frame.spec_payload() == Seq::new(6, |i: int| payload_byte(payload, i))
            &&& k > 0 ==> frame.spec_payload() == Seq::new(
                7,
                |i: int| payload_byte(payload, 7 * k - 1 + i),
            )
        }),
{
}

/// The payload bytes of the first `k` frames of a payload are the first
/// `7k - 1` bytes of the payload, with padding beyond its end.
pub proof fn lemma_reassembled_segment(payload: Seq<u8>, sequence_counter: u8, k: int)
    requires
        payload.len() <= MAX_NMEA_PACKET_SIZE,
        sequence_counter <= MAX_SEQUENCE_COUNTER,
        1 <= k <= frame_count(payload.len() as u8),
    ensures
        reassembled(segment(payload, sequence_counter).take(k)) == padded_to(
            payload,
            (7 * k - 1) as nat,
        ),
    decreases k,
{
    let frames = segment(payload, sequence_counter);
    lemma_segment_frame_fields(payload, sequence_counter, k - 1);
    lemma_reassembled_step(frames, k - 1);
    if k > 1 {
        lemma_reassembled_segment(payload, sequence_counter, k - 1);
    }
}

} // verus!
