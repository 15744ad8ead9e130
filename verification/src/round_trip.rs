//! What holds between the two directions: the frames that a payload is split
//! into, offered in order to a message that waits for frames, give the payload
//! back.

use crate::frame_queue::CAPACITY;
use crate::nmea_frame::{Frame, MAX_SEQUENCE_COUNTER};
use crate::nmea_message::{Error, MessageView, TransmissionType};
use crate::segmentation::{
    frame_count, lemma_reassembled_segment, lemma_segment_frame_fields, padded_to, reassembled,
    segment, MAX_NMEA_PACKET_SIZE,
};
use vstd::prelude::*;

verus! {

/// Longest payload whose frames the store holds all at once.
pub const MAX_STORED_PAYLOAD: usize = 216;

/// The frames of a payload fit the store exactly when the payload has at most
/// `MAX_STORED_PAYLOAD` bytes.
pub proof fn lemma_frames_fit(len: u8)
    ensures
        frame_count(len) <= CAPACITY <==> len <= MAX_STORED_PAYLOAD,
{
}

/// The message that has taken the first `k` frames of `payload`.
pub open spec fn receiving(payload: Seq<u8>, sequence_counter: u8, k: int) -> MessageView {
    MessageView {
        frames: segment(payload, sequence_counter).take(k),
        direction: TransmissionType::Rx,
        num_frames: frame_count(payload.len() as u8),
        data_len: payload.len() as u8,
        sequence_counter,
        cur_frame_counter: (k - 1) as u8,
    }
}

/// Offered in order to a new message, each of the first `k` frames of a
/// payload is accepted, and the message then holds exactly these frames, with
/// the frame count, length and sequence counter of the payload. The offer of
/// frame `k - 1` reports completion exactly when it is the last frame.
pub proof fn lemma_receive_in_order(payload: Seq<u8>, sequence_counter: u8, k: int)
    requires
        payload.len() <= MAX_NMEA_PACKET_SIZE,
        sequence_counter <= MAX_SEQUENCE_COUNTER,
        1 <= k <= frame_count(payload.len() as u8),
        k <= CAPACITY,
    ensures
        ({
            let frames = segment(payload, sequence_counter);
            let before = MessageView::empty().rx_all(frames.take(k - 1));
            &&& before.rx_outcome(frames[k - 1]) == Ok::<bool, Error>(k == frames.len())
            &&& MessageView::empty().rx_all(frames.take(k)) == receiving(
                payload,
                sequence_counter,
                k,
            )
        }),
    decreases k,
{
    let frames = segment(payload, sequence_counter);
    let empty = MessageView::empty();
    lemma_segment_frame_fields(payload, sequence_counter, k - 1);
    assert(frames.take(k).drop_last() =~= frames.take(k - 1));
    if k == 1 {
        assert(empty.rx_next(frames[0]).frames =~= frames.take(1));
    } else {
        lemma_receive_in_order(payload, sequence_counter, k - 1);
        let before = receiving(payload, sequence_counter, k - 1);
        assert(before.rx_next(frames[k - 1]).frames =~= frames.take(k));
    }
}

/// A payload whose frames fit the store survives the way through both
/// directions. Built for sending, the message holds every frame of the
/// payload. A new message that is offered these frames in order accepts each
/// of them, reports completion at the last one and at no other, and then
/// declares the length of the payload. Its frames, written to a buffer of `n`
/// bytes that is long enough for them, give the payload followed by padding.
pub proof fn lemma_round_trip(payload: Seq<u8>, sequence_counter: u8, n: nat)
    requires
        payload.len() <= MAX_STORED_PAYLOAD,
        sequence_counter <= MAX_SEQUENCE_COUNTER,
        n >= 7 * frame_count(payload.len() as u8) - 1,
    ensures
        ({
            let sent = MessageView::for_payload(payload, sequence_counter);
            let received = MessageView::empty().rx_all(sent.frames);
            &&& sent.frames == segment(payload, sequence_counter)
            &&& forall|k: int|
                0 <= k < sent.frames.len() ==> MessageView::empty().rx_all(
                    #[trigger] sent.frames.take(k),
                ).rx_outcome(sent.frames[k]) == Ok::<bool, Error>(k + 1 == sent.frames.len())
            &&& received.frames == sent.frames
            &&& received.num_frames == sent.num_frames
            &&& received.sequence_counter == sequence_counter
            &&& received.data_len == payload.len()
            &&& reassembled(received.frames).len() <= n
            &&& padded_to(reassembled(received.frames), n) == padded_to(payload, n)
            &&& padded_to(payload, n).take(payload.len() as int) == payload
        }),
{
    let frames = segment(payload, sequence_counter);
    let count = frames.len() as int;
    lemma_frames_fit(payload.len() as u8);
    assert forall|k: int| 0 <= k < count implies MessageView::empty().rx_all(
        #[trigger] frames.take(k),
    ).rx_outcome(frames[k]) == Ok::<bool, Error>(k + 1 == count) by {
        lemma_receive_in_order(payload, sequence_counter, k + 1);
    }
    lemma_receive_in_order(payload, sequence_counter, count);
    lemma_reassembled_segment(payload, sequence_counter, count);
    assert(frames.take(count) =~= frames);
}

/// A payload of more than `MAX_STORED_PAYLOAD` bytes has one frame more than
/// the store holds. The message built for sending it declares 32 frames and
/// keeps the first 31, which carry the first 216 bytes of the payload. A new
/// message that is offered these frames accepts them and stays incomplete.
pub proof fn lemma_long_payload_is_cut(payload: Seq<u8>, sequence_counter: u8)
    requires
        MAX_STORED_PAYLOAD < payload.len() <= MAX_NMEA_PACKET_SIZE,
        sequence_counter <= MAX_SEQUENCE_COUNTER,
    ensures
        ({
            let sent = MessageView::for_payload(payload, sequence_counter);
            let received = MessageView::empty().rx_all(sent.frames);
            &&& sent.num_frames == 32
            &&& sent.frames == segment(payload, sequence_counter).take(CAPACITY as int)
            &&& received == receiving(payload, sequence_counter, CAPACITY as int)
            &&& MessageView::empty().rx_all(sent.frames.drop_last()).rx_outcome(sent.frames.last())
                == Ok::<bool, Error>(false)
            &&& reassembled(received.frames) == padded_to(payload, MAX_STORED_PAYLOAD as nat)
        }),
{
    let frames = segment(payload, sequence_counter);
    let kept = frames.take(CAPACITY as int);
    lemma_receive_in_order(payload, sequence_counter, CAPACITY as int);
    lemma_reassembled_segment(payload, sequence_counter, CAPACITY as int);
    assert(kept.drop_last() =~= frames.take(CAPACITY - 1));
}

/// A message changes nothing and reports `FullQueue` when it is offered a frame
/// after it has taken every frame of a payload.
pub proof fn lemma_complete_message_is_full(payload: Seq<u8>, sequence_counter: u8, extra: Frame)
    requires
        payload.len() <= MAX_STORED_PAYLOAD,
        sequence_counter <= MAX_SEQUENCE_COUNTER,
    ensures
        ({
            let complete = MessageView::empty().rx_all(segment(payload, sequence_counter));
            &&& complete.rx_outcome(extra) == Err::<bool, Error>(Error::FullQueue)
            &&& complete.rx_next(extra) == complete
        }),
{
    let frames = segment(payload, sequence_counter);
    lemma_frames_fit(payload.len() as u8);
    lemma_receive_in_order(payload, sequence_counter, frames.len() as int);
    assert(frames.take(frames.len() as int) =~= frames);
}

/// A message built for sending changes nothing and reports
/// `TransmissionTypeMismatch` when it is offered a frame.
pub proof fn lemma_sending_message_takes_no_frame(
    payload: Seq<u8>,
    sequence_counter: u8,
    frame: Frame,
)
    ensures
        ({
            let sent = MessageView::for_payload(payload, sequence_counter);
            &&& sent.rx_outcome(frame) == Err::<bool, Error>(Error::TransmissionTypeMismatch)
            &&& sent.rx_next(frame) == sent
        }),
{
}

/// The number of frames that a message built for sending declares is the one
/// that a receiving message derives from the length in the first frame; and the
/// message built for sending holds that many frames, up to the capacity.
pub proof fn lemma_frame_count_agrees(payload: Seq<u8>, sequence_counter: u8, receiver: MessageView)
    requires
        payload.len() <= MAX_NMEA_PACKET_SIZE,
        sequence_counter <= MAX_SEQUENCE_COUNTER,
        receiver.rx_outcome(segment(payload, sequence_counter)[0]) is Ok,
    ensures
        ({
            let sent = MessageView::for_payload(payload, sequence_counter);
            let first = segment(payload, sequence_counter)[0];
            &&& sent.num_frames == if payload.len() <= 6 {
                1
            } else {
                payload.len() / 7 + 1
            }
            &&& receiver.rx_next(first).num_frames == sent.num_frames
            &&& sent.frames.len() == if sent.num_frames <= CAPACITY {
                sent.num_frames as int
            } else {
                CAPACITY as int
            }
        }),
{
    lemma_segment_frame_fields(payload, sequence_counter, 0);
}

/// While a message is being received, a frame that is not a first frame is
/// refused with `SequenceCountError` if it carries another sequence counter,
/// and with `SequenceMismatch` if it carries the right one but is not the
/// frame that comes next.
pub proof fn lemma_out_of_order_is_refused(
    payload: Seq<u8>,
    sequence_counter: u8,
    k: int,
    frame: Frame,
)
    requires
        payload.len() <= MAX_NMEA_PACKET_SIZE,
        sequence_counter <= MAX_SEQUENCE_COUNTER,
        1 <= k < frame_count(payload.len() as u8),
        k <= CAPACITY,
        !frame.spec_is_first_frame(),
    ensures
        ({
            let partial = MessageView::empty().rx_all(segment(payload, sequence_counter).take(k));
            &&& frame.spec_sequence_counter() != sequence_counter ==> partial.rx_outcome(frame)
                == Err::<bool, Error>(Error::SequenceCountError)
            &&& frame.spec_sequence_counter() == sequence_counter && frame.spec_frame_counter()
                != k ==> partial.rx_outcome(frame) == Err::<bool, Error>(Error::SequenceMismatch)
            &&& partial.rx_outcome(frame) is Err ==> partial.rx_next(frame) == partial
        }),
{
    lemma_receive_in_order(payload, sequence_counter, k);
}

} // verus!
