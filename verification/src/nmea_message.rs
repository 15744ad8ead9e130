//! A Fast Packet message: a bounded queue of frames with the state needed to
//! reassemble a payload from frames as they arrive, or to hand out the frames
//! of a payload one by one.

use crate::frame_queue::{
    queue_clear, queue_frames, queue_is_empty, queue_len, queue_new, queue_pop_front,
    queue_push_back, CAPACITY,
};
use crate::nmea_frame::{Frame, MAX_SEQUENCE_COUNTER, PADDING};
pub use crate::segmentation::MAX_NMEA_PACKET_SIZE;
use crate::segmentation::{
    frame_count, lemma_consecutive_is_segment_frame, lemma_first_is_segment_frame,
    lemma_reassembled_bound, lemma_reassembled_prefix_len, lemma_reassembled_step, padded_to,
    payload_byte, reassembled, segment,
};
use vstd::pervasive::unreached;
use vstd::prelude::*;

verus! {

/// Whether a message is being received or was built for sending.
#[derive(Clone, Copy, Debug, PartialEq, Eq, Structural)]
pub enum TransmissionType {
    Rx,
    Tx,
}

/// Why a message refused an operation.
#[derive(Clone, Copy, Debug, PartialEq, Eq, Structural)]
pub enum Error {
    /// Nothing is stored. No operation reports it at present.
    EmptyQueue,
    /// The message already holds as many frames as it expects.
    FullQueue,
    /// The operation does not belong to the direction of the message.
    TransmissionTypeMismatch,
    /// The frame's sequence counter is not that of the message.
    SequenceCountError,
    /// The frame's counter does not follow the last accepted one.
    SequenceMismatch,
}

/// What a message is, apart from how it is stored.
pub struct MessageView {
    /// The stored frames, oldest first.
    pub frames: Seq<Frame>,
    /// The direction that the message was made for.
    pub direction: TransmissionType,
    /// Number of frames expected while receiving, or made from the payload.
    pub num_frames: u8,
    /// Length of the whole payload in bytes.
    pub data_len: u8,
    /// Sequence counter that every frame of the message carries.
    pub sequence_counter: u8,
    /// Counter of the frame accepted last.
    pub cur_frame_counter: u8,
}

impl MessageView {
    /// The message that is built for sending `payload`.
    pub open spec fn for_payload(payload: Seq<u8>, sequence_counter: u8) -> MessageView {
        MessageView {
            frames: stored(segment(payload, sequence_counter)),
            direction: TransmissionType::Tx,
            num_frames: frame_count(payload.len() as u8),
            data_len: payload.len() as u8,
            sequence_counter,
            cur_frame_counter: 0,
        }
    }

    /// What offering `frame` to the message returns.
    ///
    /// A message built for sending takes no frame, nor does one that already
    /// holds as many frames as it expects. A first frame is then always
    /// accepted. Any other frame must carry the sequence counter of the message
    /// and the counter that follows the last accepted one. An accepted frame
    /// completes the message when its counter has reached that of the last
    /// frame expected, which for a first frame means that no other is expected.
    pub open spec fn rx_outcome(self, frame: Frame) -> Result<bool, Error> {
        if self.direction == TransmissionType::Tx {
            Err(Error::TransmissionTypeMismatch)
        } else if self.frames.len() > 0 && self.frames.len() == self.num_frames {
            Err(Error::FullQueue)
        } else if frame.spec_is_first_frame() {
            Ok(frame_count(frame.bytes[1]) == 1)
        } else if frame.spec_sequence_counter() != self.sequence_counter {
            Err(Error::SequenceCountError)
        } else if frame.spec_frame_counter() != self.cur_frame_counter + 1 {
            Err(Error::SequenceMismatch)
        } else {
            Ok(frame.spec_frame_counter() + 1 >= self.num_frames)
        }
    }

    /// The message after `frame` was offered to it.
    ///
    /// A refused frame changes nothing. A first frame sets what the message
    /// expects: the number of frames, the length and the sequence counter. Every
    /// accepted frame is stored and its counter remembered.
    pub open spec fn rx_next(self, frame: Frame) -> MessageView {
        if self.rx_outcome(frame) is Err {
            self
        } else if frame.spec_is_first_frame() {
            MessageView {
                frames: store(self.frames, frame),
                num_frames: frame_count(frame.bytes[1]),
                data_len: frame.bytes[1],
                sequence_counter: frame.spec_sequence_counter(),
                cur_frame_counter: 0,
                ..self
            }
        } else {
            MessageView {
                frames: store(self.frames, frame),
                cur_frame_counter: frame.spec_frame_counter(),
                ..self
            }
        }
    }

    /// The message after `frames` were offered to it one after the other.
    pub open spec fn rx_all(self, frames: Seq<Frame>) -> MessageView
        decreases frames.len(),
    {
        if frames.len() == 0 {
            self
        } else {
            self.rx_all(frames.drop_last()).rx_next(frames.last())
        }
    }

    /// The message after its oldest frame was taken out.
    pub open spec fn popped(self) -> MessageView {
        if self.frames.len() > 0 {
            MessageView { frames: self.frames.drop_first(), ..self }
        } else {
            self
        }
    }

    /// The message with every stored frame taken out.
    pub open spec fn drained(self) -> MessageView {
        MessageView { frames: Seq::empty(), ..self }
    }

    /// A message that holds nothing and waits for frames.
    pub open spec fn empty() -> MessageView {
        MessageView {
            frames: Seq::empty(),
            direction: TransmissionType::Rx,
            num_frames: 0,
            data_len: 0,
            sequence_counter: 0,
            cur_frame_counter: 0,
        }
    }
}

/// How many of `n` frames, stored one after the other, the store keeps.
pub open spec fn stored_len(n: int) -> int {
    if n <= CAPACITY {
        n
    } else {
        CAPACITY as int
    }
}

/// The store after `frame` was offered to it: below capacity the frame is
/// appended, at capacity it is dropped.
pub open spec fn store(frames: Seq<Frame>, frame: Frame) -> Seq<Frame> {
    if frames.len() < CAPACITY {
        frames.push(frame)
    } else {
        frames
    }
}

/// What the store keeps of `frames` when they are stored one after the other:
/// all of them up to its capacity, and none beyond.
pub open spec fn stored(frames: Seq<Frame>) -> Seq<Frame> {
    frames.take(stored_len(frames.len() as int))
}

/// Storing frame `k` after the frames before it keeps the first `k + 1`
/// frames, up to the capacity.
proof fn lemma_store_extends(frames: Seq<Frame>, k: int)
    requires
        0 <= k < frames.len(),
    ensures
        store(frames.take(stored_len(k)), frames[k]) == frames.take(stored_len(k + 1)),
        frames.len() == k + 1 ==> frames.take(stored_len(k + 1)) == stored(frames),
{
}

/// `num_integer::div_floor` on bytes: the quotient rounded down, which for
/// unsigned operands is the quotient of `/`. The divisor is not zero.
#[verifier::external_body]
fn div_floor(x: u8, y: u8) -> (quotient: u8)
    requires
        y != 0,
    ensures
        quotient == x / y,
{
    num_integer::div_floor(x, y)
}

/// Copies `N` bytes of `payload` from `start` on, with padding where the
/// payload ends early.
fn padded_chunk<const N: usize>(payload: &[u8], start: usize) -> (chunk: [u8; N])
    requires
        start + N <= usize::MAX,
    ensures
        forall|i: int| 0 <= i < N ==> chunk[i] == payload_byte(payload@, start + i),
{
    let mut chunk: [u8; N] = [PADDING; N];
    let mut i: usize = 0;
    while i < N
        invariant
            i <= N,
            start + N <= usize::MAX,
            forall|j: int| 0 <= j < i ==> chunk[j] == payload_byte(payload@, start + j),
        decreases N - i,
    {
        if start + i < payload.len() {
            chunk[i] = payload[start + i];
        } else {
            chunk[i] = PADDING;
        }
        i += 1;
    }
    chunk
}

/// Builds frame `frame_counter` of the frames that carry `payload` and offers
/// it to the store, which holds the frames before it.
fn push_consecutive_frame(
    queue: &mut fixed_queue::VecDeque<Frame, CAPACITY>,
    payload: &[u8],
    sequence_counter: u8,
    frame_counter: u8,
)
    requires
        payload@.len() <= MAX_NMEA_PACKET_SIZE,
        sequence_counter <= MAX_SEQUENCE_COUNTER,
        1 <= frame_counter < frame_count(payload@.len() as u8),
        queue_frames(*old(queue)) == segment(payload@, sequence_counter).take(
            stored_len(frame_counter as int),
        ),
    ensures
        queue_frames(*final(queue)) == segment(payload@, sequence_counter).take(
            stored_len(frame_counter + 1),
        ),
        frame_counter + 1 == frame_count(payload@.len() as u8) ==> queue_frames(*final(queue))
            == stored(segment(payload@, sequence_counter)),
{
    let chunk: [u8; 7] = padded_chunk::<7>(payload, 6 + (frame_counter as usize - 1) * 7);
    match Frame::consecutive_frame(&chunk, sequence_counter, frame_counter) {
        Ok(frame) => {
            proof {
                lemma_consecutive_is_segment_frame(
                    payload@,
                    sequence_counter,
                    frame_counter as int,
                    chunk@,
                    frame,
                );
                lemma_store_extends(segment(payload@, sequence_counter), frame_counter as int);
            }
            let _ = queue_push_back(queue, frame);
        },
        Err(_) => unreached(),
    }
}

/// A Fast Packet message: the frames it holds and what it expects.
///
/// A message made by `new` waits for frames and takes them with `add_frame`
/// until it is complete; `get_payload` then joins the payload. A message made
/// by `from_payload` holds the frames of a payload, which `pop_frame` hands out
/// one by one.
pub struct Message {
    queue: fixed_queue::VecDeque<Frame, CAPACITY>,
    transmission_type: TransmissionType,
    pub num_frames: u8,
    pub data_len: u8,
    pub sequence_counter: u8,
    cur_frame_counter: u8,
}

impl Message {
    /// The store never holds more frames than its capacity.
    pub open spec fn wf(&self) -> bool {
        self@.frames.len() <= CAPACITY
    }

    /// An empty message that waits for frames.
    pub fn new() -> (message: Message)
        ensures
            message.wf(),
            message@ == MessageView::empty(),
    {
        let queue = queue_new();
        Message {
            queue,
            transmission_type: TransmissionType::Rx,
            num_frames: 0,
            data_len: 0,
            sequence_counter: 0,
            cur_frame_counter: 0,
        }
    }

    /// Offers one received frame to the message. Returns whether the frame
    /// completed the message.
    pub fn add_frame(&mut self, payload: &[u8; 8]) -> (result: Result<bool, Error>)
        ensures
            result == old(self)@.rx_outcome((Frame { bytes: *payload })),
            final(self)@ == old(self)@.rx_next((Frame { bytes: *payload })),
            old(self).wf() ==> final(self).wf(),
    {
        if self.transmission_type == TransmissionType::Tx {
            return Err(Error::TransmissionTypeMismatch);
        }
        if !queue_is_empty(&self.queue) && queue_len(&self.queue) == self.num_frames as usize {
            return Err(Error::FullQueue);
        }
        let frame = Frame::from_bytes(payload);
        assert(frame.bytes =~= *payload);
        if frame.is_first_frame() {
            let len: u8 = frame.bytes[1];
            if len <= 6 {
                self.num_frames = 1;
            } else {
                self.num_frames = div_floor(len, 7) + 1;
            }
            self.sequence_counter = frame.sequence_counter();
            self.data_len = len;
            let _ = queue_push_back(&mut self.queue, frame);
            self.cur_frame_counter = 0;
            Ok(self.num_frames == 1)
        } else {
            if self.sequence_counter != frame.sequence_counter() {
                return Err(Error::SequenceCountError);
            }
            let frame_counter: u8 = frame.frame_counter();
            if self.cur_frame_counter != frame_counter - 1 {
                return Err(Error::SequenceMismatch);
            }
            let _ = queue_push_back(&mut self.queue, frame);
            self.cur_frame_counter = frame_counter;
            Ok(frame_counter + 1 >= self.num_frames)
        }
    }

    /// Splits a payload into frames, ready to be handed out one by one.
    ///
    /// A payload of up to six bytes gives a single first frame. A longer one
    /// gives a first frame with its first six bytes and one further frame for
    /// every seven bytes that follow, the last of them padded. The store keeps
    /// the frames up to its capacity, so of a payload above 216 bytes the last
    /// frame is dropped, though `num_frames` counts it.
    pub fn from_payload(payload: &[u8], sequence_counter: u8) -> (message: Message)
        requires
            payload@.len() <= MAX_NMEA_PACKET_SIZE,
            sequence_counter <= MAX_SEQUENCE_COUNTER,
        ensures
            message.wf(),
            message@ == MessageView::for_payload(payload@, sequence_counter),
    {
        let mut queue = queue_new();
        let len: u8 = payload.len() as u8;
        let ghost frames = segment(payload@, sequence_counter);
        let head: [u8; 6] = padded_chunk::<6>(payload, 0);
        let first_frame = Frame::first_frame(&head, len, sequence_counter);
        proof {
            lemma_first_is_segment_frame(payload@, sequence_counter, head@, first_frame);
            lemma_store_extends(frames, 0);
            assert(queue_frames(queue) =~= frames.take(stored_len(0)));
        }
        let _ = queue_push_back(&mut queue, first_frame);
        if payload.len() <= 6 {
            return Message {
                queue,
                transmission_type: TransmissionType::Tx,
                num_frames: 1,
                data_len: len,
                sequence_counter,
                cur_frame_counter: 0,
            };
        }
        let num_chunks: u8 = div_floor(len - 6, 7);
        let remaining_bytes: u8 = (len - 6) - 7 * num_chunks;
        let mut frame_counter: u8 = 1;
        let mut i: u8 = 0;
        while i < num_chunks
            invariant
                i <= num_chunks,
                frame_counter == i + 1,
                6 < payload@.len() <= MAX_NMEA_PACKET_SIZE,
                len == payload@.len(),
                num_chunks == (len - 6) / 7,
                sequence_counter <= MAX_SEQUENCE_COUNTER,
                queue_frames(queue) == segment(payload@, sequence_counter).take(
                    stored_len(frame_counter as int),
                ),
            decreases num_chunks - i,
        {
            push_consecutive_frame(&mut queue, payload, sequence_counter, frame_counter);
            frame_counter += 1;
            i += 1;
        }
        if remaining_bytes > 0 {
            push_consecutive_frame(&mut queue, payload, sequence_counter, frame_counter);
        }
        Message {
            queue,
            transmission_type: TransmissionType::Tx,
            num_frames: div_floor(len, 7) + 1,
            data_len: len,
            sequence_counter,
            cur_frame_counter: 0,
        }
    }

    /// Takes the oldest stored frame out of the message.
    pub fn pop_frame(&mut self) -> (frame: Option<Frame>)
        ensures
            frame == if old(self)@.frames.len() > 0 {
                Some(old(self)@.frames.first())
            } else {
                None
            },
            final(self)@ == old(self)@.popped(),
            old(self).wf() ==> final(self).wf(),
    {
        queue_pop_front(&mut self.queue)
    }

    /// A buffer of seven bytes for each frame that the store can hold is long
    /// enough for `get_payload`, whatever the message holds.
    pub proof fn lemma_payload_fits(&self)
        requires
            self.wf(),
        ensures
            reassembled(self@.frames).len() <= 7 * CAPACITY,
    {
        lemma_reassembled_bound(self@.frames);
    }

    /// Writes the payload bytes of the stored frames to the start of `buf`, one
    /// frame after the other, and padding to the rest of it. The frames leave
    /// the message. Returns the length that the message declares.
    pub fn get_payload(&mut self, buf: &mut [u8]) -> (len: usize)
        requires
            reassembled(old(self)@.frames).len() <= old(buf)@.len(),
        ensures
            final(self)@ == old(self)@.drained(),
            final(self).wf(),
            final(buf)@ == padded_to(reassembled(old(self)@.frames), old(buf)@.len()),
            len == old(self)@.data_len,
    {
        let n: usize = buf.len();
        let mut j: usize = 0;
        while j < n
            invariant
                j <= n,
                buf@.len() == n,
                forall|k: int| 0 <= k < j ==> buf@[k] == PADDING,
            decreases n - j,
        {
            buf[j] = PADDING;
            j += 1;
        }
        let ghost before = self@;
        let ghost frames = self@.frames;
        let ghost mut taken: int = 0;
        let mut i: usize = 0;
        assert(frames.skip(0) =~= frames);
        while !queue_is_empty(&self.queue)
            invariant
                0 <= taken <= frames.len(),
                self@ == (MessageView { frames: frames.skip(taken), ..before }),
                i == reassembled(frames.take(taken)).len(),
                reassembled(frames).len() <= n,
                buf@.len() == n,
                buf@ == padded_to(reassembled(frames.take(taken)), n as nat),
            decreases frames.len() - taken,
        {
            let ghost done = reassembled(frames.take(taken));
            let frame = self.pop_frame().unwrap();
            let part = frame.payload();
            proof {
                lemma_reassembled_step(frames, taken);
                lemma_reassembled_prefix_len(frames, taken + 1);
                assert(frames.skip(taken).drop_first() =~= frames.skip(taken + 1));
            }
            let m: usize = part.len();
            let mut k: usize = 0;
            while k < m
                invariant
                    k <= m,
                    m == part@.len(),
                    i + m <= n,
                    i == done.len(),
                    buf@.len() == n,
                    buf@ == padded_to(done + part@.take(k as int), n as nat),
                decreases m - k,
            {
                buf[i + k] = part[k];
                k += 1;
            }
            i += m;
            proof {
                taken = taken + 1;
            }
        }
        assert(self@.frames =~= Seq::<Frame>::empty());
        self.data_len as usize
    }

    /// Brings the message back to the state of a new one.
    pub fn clear(&mut self)
        ensures
            final(self).wf(),
            final(self)@ == MessageView::empty(),
    {
        queue_clear(&mut self.queue);
        self.transmission_type = TransmissionType::Rx;
        self.num_frames = 0;
        self.data_len = 0;
        self.sequence_counter = 0;
        self.cur_frame_counter = 0;
    }

    /// Number of frames that the message expects, or that its payload was
    /// split into.
    pub fn num_frames(&self) -> (count: u8)
        ensures
            count == self@.num_frames,
    {
        self.num_frames
    }

    /// Length in bytes of the payload that the message declares.
    pub fn data_len(&self) -> (len: u8)
        ensures
            len == self@.data_len,
    {
        self.data_len
    }

    /// Sequence counter that every frame of the message carries.
    pub fn sequence_counter(&self) -> (id: u8)
        ensures
            id == self@.sequence_counter,
    {
        self.sequence_counter
    }
}

impl View for Message {
    type V = MessageView;

    closed spec fn view(&self) -> MessageView {
        MessageView {
            frames: queue_frames(self.queue),
            direction: self.transmission_type,
            num_frames: self.num_frames,
            data_len: self.data_len,
            sequence_counter: self.sequence_counter,
            cur_frame_counter: self.cur_frame_counter,
        }
    }
}

} // verus!
