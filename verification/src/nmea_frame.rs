//! Bit layout of one Fast Packet CAN frame.
//!
//! Byte 0 carries the sequence counter in its top three bits and the frame
//! counter in its low five bits. A frame whose frame counter is zero is a first
//! frame: byte 1 holds the length of the whole message and bytes 2 to 7 hold six
//! payload bytes. Every other frame holds seven payload bytes in bytes 1 to 7.

use vstd::prelude::*;

verus! {

/// Largest sequence counter that fits the three bits of the header byte.
pub const MAX_SEQUENCE_COUNTER: u8 = 7;

/// Largest frame counter that fits the five bits of the header byte.
pub const MAX_FRAME_COUNTER: u8 = 31;

/// Filler for payload positions that carry no data.
pub const PADDING: u8 = 0xFF;

/// Header byte of a frame: `sequence_counter` in bits 7 to 5, `frame_counter`
/// in bits 4 to 0. Counters that do not fit their field are reduced to it.
pub open spec fn header_byte(sequence_counter: u8, frame_counter: u8) -> u8 {
    ((sequence_counter % 8) * 32 + frame_counter % 32) as u8
}

/// The eight bytes that a frame holds when it is made from `bytes`: a copy of
/// the first eight of them, with zeros where `bytes` ends early.
pub open spec fn raw_frame_bytes(bytes: Seq<u8>) -> Seq<u8> {
    Seq::new(
        8,
        |i: int|
            if i < bytes.len() {
                bytes[i]
            } else {
                0u8
            },
    )
}

/// Failure of frame construction.
#[derive(Debug, Clone, Copy, PartialEq, Eq, Structural)]
pub enum Error {
    /// A sequence counter above 7 or a frame counter above 31.
    InvalidParameter,
}

/// One CAN data frame of a Fast Packet sequence.
#[derive(Clone, Debug, PartialEq, Eq)]
pub struct Frame {
    pub bytes: [u8; 8],
}

impl View for Frame {
    type V = Seq<u8>;

    open spec fn view(&self) -> Seq<u8> {
        self.bytes@
    }
}

impl Frame {
    /// The sequence counter: the top three bits of byte 0.
    pub open spec fn spec_sequence_counter(&self) -> u8 {
        self.bytes[0] / 32
    }

    /// The frame counter: the low five bits of byte 0.
    pub open spec fn spec_frame_counter(&self) -> u8 {
        self.bytes[0] % 32
    }

    /// A first frame is one whose frame counter is zero.
    pub open spec fn spec_is_first_frame(&self) -> bool {
        self.spec_frame_counter() == 0
    }

    /// The declared length of the whole message, which only a first frame
    /// carries, in byte 1.
    pub open spec fn spec_data_len(&self) -> Option<u8> {
        if self.spec_is_first_frame() {
            Some(self.bytes[1])
        } else {
            None
        }
    }

    /// The payload bytes of the frame: bytes 2 to 7 of a first frame, bytes 1
    /// to 7 of any other.
    pub open spec fn spec_payload(&self) -> Seq<u8> {
        if self.spec_is_first_frame() {
            self.bytes@.subrange(2, 8)
        } else {
            self.bytes@.subrange(1, 8)
        }
    }

    /// Builds the first frame of a message of `len` bytes from its first six
    /// payload bytes.
    pub fn first_frame(bytes: &[u8; 6], len: u8, sequence_counter: u8) -> (frame: Frame)
        ensures
            frame.bytes@ == seq![header_byte(sequence_counter, 0), len] + bytes@,
            frame.spec_is_first_frame(),
            frame.spec_sequence_counter() == sequence_counter % 8,
            frame.spec_data_len() == Some(len),
            frame.spec_payload() == bytes@,
    {
        let mut buf: [u8; 8] = [PADDING; 8];
        assert(sequence_counter << 5 == ((sequence_counter % 8) * 32) as u8) by (bit_vector);
        buf[0] = sequence_counter << 5;
        buf[1] = len;
        let mut i: usize = 0;
        while i < 6
            invariant
                i <= 6,
                buf[0] == header_byte(sequence_counter, 0),
                buf[1] == len,
                forall|j: int| 0 <= j < i ==> buf[j + 2] == bytes[j],
            decreases 6 - i,
        {
            buf[i + 2] = bytes[i];
            i += 1;
        }
        let frame = Frame { bytes: buf };
        frame
    }

    /// Builds a frame that carries seven payload bytes and no length.
    ///
    /// Fails if either counter does not fit its field of the header byte.
    pub fn consecutive_frame(
        bytes: &[u8; 7],
        sequence_counter: u8,
        frame_counter: u8,
    ) -> (result: Result<Frame, Error>)
        ensures
            result is Err <==> sequence_counter > MAX_SEQUENCE_COUNTER || frame_counter
                > MAX_FRAME_COUNTER,
            result matches Err(e) ==> e == Error::InvalidParameter,
            result matches Ok(frame) ==> {
                &&& frame.bytes@ == seq![header_byte(sequence_counter, frame_counter)] + bytes@
                &&& frame.spec_sequence_counter() == sequence_counter
                &&& frame.spec_frame_counter() == frame_counter
                &&& frame.spec_payload() == if frame_counter == 0 {
                    bytes@.subrange(1, 7)
                } else {
                    bytes@
                }
            },
    {
        let mut buf: [u8; 8] = [PADDING; 8];
        if sequence_counter > MAX_SEQUENCE_COUNTER || frame_counter > MAX_FRAME_COUNTER {
            return Err(Error::InvalidParameter);
        }
        assert((sequence_counter << 5) | frame_counter == (sequence_counter % 8) * 32
            + frame_counter % 32) by (bit_vector)
            requires
                sequence_counter <= 7,
                frame_counter <= 31,
        ;
        buf[0] = (sequence_counter << 5) | frame_counter;
        let mut i: usize = 0;
        while i < 7
            invariant
                i <= 7,
                buf[0] == header_byte(sequence_counter, frame_counter),
                forall|j: int| 0 <= j < i ==> buf[j + 1] == bytes[j],
            decreases 7 - i,
        {
            buf[i + 1] = bytes[i];
            i += 1;
        }
        let frame = Frame { bytes: buf };
        assert(frame.spec_payload() =~= if frame_counter == 0 {
            bytes@.subrange(1, 7)
        } else {
            bytes@
        });
        Ok(frame)
    }

    /// Wraps raw bytes as a frame without judging them. Input shorter than a
    /// frame is completed with zeros; bytes beyond the eighth are ignored.
    pub fn from_bytes(bytes: &[u8]) -> (frame: Frame)
        ensures
            frame.bytes@ == raw_frame_bytes(bytes@),
            bytes@.len() == 8 ==> frame.bytes@ == bytes@,
    {
        let mut buf: [u8; 8] = [0; 8];
        let n: usize = if bytes.len() < 8 {
            bytes.len()
        } else {
            8
        };
        let mut i: usize = 0;
        while i < n
            invariant
                i <= n <= 8,
                n <= bytes@.len(),
                forall|j: int| 0 <= j < i ==> buf[j] == bytes[j],
                forall|j: int| i <= j < 8 ==> buf[j] == 0,
            decreases n - i,
        {
            buf[i] = bytes[i];
            i += 1;
        }
        let frame = Frame { bytes: buf };
        frame
    }

    /// The declared length of the whole message, if this is a first frame.
    #[verifier::when_used_as_spec(spec_data_len)]
    pub fn data_len(&self) -> (len: Option<u8>)
        ensures
            len == self.spec_data_len(),
    {
        if !self.is_first_frame() {
            return None;
        }
        Some(self.bytes[1])
    }

    /// The payload as a view into the frame.
    pub fn payload(&self) -> (view: &[u8])
        ensures
            view@ == self.spec_payload(),
    {
        if !self.is_first_frame() {
            return &self.bytes[1..8];
        }
        &self.bytes[2..8]
    }

    /// The sequence counter that the frame carries.
    #[verifier::when_used_as_spec(spec_sequence_counter)]
    pub fn sequence_counter(&self) -> (id: u8)
        ensures
            id == self.spec_sequence_counter(),
            id <= MAX_SEQUENCE_COUNTER,
    {
        let head: u8 = self.bytes[0];
        assert((head & 0xE0) >> 5 == head / 32) by (bit_vector);
        (head & 0xE0) >> 5
    }

    /// The position of the frame in its sequence.
    #[verifier::when_used_as_spec(spec_frame_counter)]
    pub fn frame_counter(&self) -> (index: u8)
        ensures
            index == self.spec_frame_counter(),
            index <= MAX_FRAME_COUNTER,
    {
        let head: u8 = self.bytes[0];
        assert(head & 0x1F == head % 32) by (bit_vector);
        head & 0x1F
    }

    /// Whether this is the first frame of a sequence.
    #[verifier::when_used_as_spec(spec_is_first_frame)]
    pub fn is_first_frame(&self) -> (first: bool)
        ensures
            first == self.spec_is_first_frame(),
    {
        self.frame_counter() == 0
    }
}

impl AsRef<[u8]> for Frame {
    /// The eight bytes of the frame.
    fn as_ref(&self) -> (bytes: &[u8])
        ensures
            bytes@ == self.bytes@,
    {
        &self.bytes
    }
}

} // verus!
