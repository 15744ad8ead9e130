//! The bounded store of frames that a message keeps.
//!
//! The store is `fixed_queue::VecDeque`, an array-backed ring buffer that
//! never allocates. Nothing in this module is proved: each function states what
//! the ring buffer's source shows of one of its methods, over the sequence of
//! frames that the buffer holds, oldest first.

use crate::nmea_frame::Frame;
use vstd::prelude::*;

verus! {

/// Number of frames that the store can hold.
pub const CAPACITY: usize = 31;

/// `fixed_queue::VecDeque`, taken as an opaque type.
#[verifier::external_type_specification]
#[verifier::external_body]
#[verifier::reject_recursive_types(T)]
pub struct ExVecDeque<T, const N: usize>(fixed_queue::VecDeque<T, N>);

/// The frames that a store holds, from the oldest to the newest.
pub uninterp spec fn queue_frames(queue: fixed_queue::VecDeque<Frame, CAPACITY>) -> Seq<Frame>;

/// `VecDeque::new`: a store that holds nothing.
#[verifier::external_body]
pub(crate) fn queue_new() -> (queue: fixed_queue::VecDeque<Frame, CAPACITY>)
    ensures
        queue_frames(queue) == Seq::<Frame>::empty(),
{
    fixed_queue::VecDeque::new()
}

/// `VecDeque::len`: the number of frames held.
#[verifier::external_body]
pub(crate) fn queue_len(queue: &fixed_queue::VecDeque<Frame, CAPACITY>) -> (len: usize)
    ensures
        len == queue_frames(*queue).len(),
{
    queue.len()
}

/// `VecDeque::is_empty`: whether no frame is held.
#[verifier::external_body]
pub(crate) fn queue_is_empty(queue: &fixed_queue::VecDeque<Frame, CAPACITY>) -> (empty: bool)
    ensures
        empty == (queue_frames(*queue).len() == 0),
{
    queue.is_empty()
}

/// `VecDeque::push_back`: below capacity the frame becomes the newest one held;
/// at capacity the store keeps what it has and hands the frame back.
#[verifier::external_body]
pub(crate) fn queue_push_back(
    queue: &mut fixed_queue::VecDeque<Frame, CAPACITY>,
    frame: Frame,
) -> (result: Result<(), Frame>)
    ensures
        match result {
            Ok(()) => queue_frames(*old(queue)).len() < CAPACITY && queue_frames(*final(queue))
                == queue_frames(*old(queue)).push(frame),
            Err(back) => queue_frames(*old(queue)).len() >= CAPACITY && back == frame
                && queue_frames(*final(queue)) == queue_frames(*old(queue)),
        },
{
    queue.push_back(frame)
}

/// `VecDeque::pop_front`: removes and returns the oldest frame held, or
/// returns nothing and changes nothing when no frame is held.
#[verifier::external_body]
pub(crate) fn queue_pop_front(
    queue: &mut fixed_queue::VecDeque<Frame, CAPACITY>,
) -> (front: Option<Frame>)
    ensures
        match front {
            Some(frame) => queue_frames(*old(queue)).len() > 0 && frame == queue_frames(
                *old(queue),
            ).first() && queue_frames(*final(queue)) == queue_frames(*old(queue)).drop_first(),
            None => queue_frames(*old(queue)).len() == 0 && queue_frames(*final(queue))
                == queue_frames(*old(queue)),
        },
{
    queue.pop_front()
}

/// `VecDeque::clear`: afterwards the store holds nothing.
#[verifier::external_body]
pub(crate) fn queue_clear(queue: &mut fixed_queue::VecDeque<Frame, CAPACITY>)
    ensures
        queue_frames(*final(queue)) == Seq::<Frame>::empty(),
{
    queue.clear()
}

} // verus!
