//! A bounded first-in first-out queue of frames, for a worker that computes
//! frames ahead of the loop that draws them.
//!
//! The queue never holds more than its capacity. A producer that finds it
//! full gets its frame back and has to wait; a consumer that finds it empty
//! gets nothing and has to wait. The waiting is the caller's.

use vstd::prelude::*;
use std::collections::VecDeque;

verus! {

/// Frames in the order in which they were produced, at most `capacity` of
/// them.
pub struct FrameQueue<T> {
    frames: VecDeque<T>,
    capacity: usize,
}

impl<T> FrameQueue<T> {
    /// The frames in the queue, the oldest first.
    pub closed spec fn view(&self) -> Seq<T> {
        self.frames@
    }

    /// How many frames the queue takes.
    pub closed spec fn limit(&self) -> nat {
        self.capacity as nat
    }

    /// Whether the queue holds no more frames than it takes. Every queue
    /// made by `new` does, and no step of it changes that.
    pub closed spec fn wf(&self) -> bool {
        self.frames@.len() <= self.capacity
    }

    /// An empty queue that takes `capacity` frames.
    pub fn new(capacity: usize) -> (queue: FrameQueue<T>)
        ensures
            queue.wf(),
            queue@ == Seq::<T>::empty(),
            queue.limit() == capacity,
    {
        FrameQueue { frames: VecDeque::new(), capacity }
    }

    /// How many frames the queue takes.
    pub fn capacity(&self) -> (capacity: usize)
        ensures
            capacity == self.limit(),
    {
        self.capacity
    }

    /// How many frames are in the queue.
    pub fn len(&self) -> (len: usize)
        requires
            self.wf(),
        ensures
            len == self@.len(),
            len <= self.limit(),
    {
        self.frames.len()
    }

    /// Whether no frame is waiting.
    pub fn is_empty(&self) -> (empty: bool)
        ensures
            empty == (self@.len() == 0),
    {
        self.frames.len() == 0
    }

    /// Whether the queue takes no further frame.
    pub fn is_full(&self) -> (full: bool)
        requires
            self.wf(),
        ensures
            full == (self@.len() == self.limit()),
            self@.len() <= self.limit(),
    {
        self.frames.len() == self.capacity
    }

    /// Puts `frame` behind the frames in the queue, or hands it back where
    /// the queue is full.
    pub fn push(&mut self, frame: T) -> (result: Result<(), T>)
        requires
            old(self).wf(),
        ensures
            final(self).wf(),
            final(self).limit() == old(self).limit(),
            old(self)@.len() < old(self).limit() <==> result is Ok,
            result is Ok ==> final(self)@ == old(self)@.push(frame),
            result matches Err(back) ==> back == frame && final(self)@ == old(self)@,
    {
        if self.frames.len() == self.capacity {
            Err(frame)
        } else {
            self.frames.push_back(frame);
            Ok(())
        }
    }

    /// Takes the oldest frame out of the queue, where there is one.
    pub fn pop(&mut self) -> (frame: Option<T>)
        requires
            old(self).wf(),
        ensures
            final(self).wf(),
            final(self).limit() == old(self).limit(),
            old(self)@.len() > 0 <==> frame is Some,
            frame matches Some(oldest) ==> oldest == old(self)@[0] && final(self)@ == old(
                self,
            )@.drop_first(),
            frame is None ==> final(self)@ == old(self)@,
    {
        self.frames.pop_front()
    }
}

} // verus!
