//! The handoff of frames from the capture side to the analysis side.
//!
//! The channel is a bounded queue with one producer and one consumer. It
//! never blocks: a frame that cannot be taken is refused, and the producer
//! answers a refusal by telling the capture source to stop. Frames leave in
//! the order in which they came, each exactly once.
//!
//! The channel holds no lock of its own. Where the two sides run on different
//! threads, whoever shares the channel between them guards it.

use vstd::prelude::*;
use std::collections::VecDeque;
use crate::frame::Frame;

verus! {

/// Why a frame was refused.
#[derive(Debug, Clone, Copy, PartialEq, Eq)]
pub enum SendError {
    /// The queue holds as many frames as its capacity allows. The consumer
    /// has fallen behind.
    Full,
    /// The consumer has closed the channel.
    Closed,
}

/// What the capture source is told after it has delivered a frame.
#[derive(Debug, Clone, Copy, PartialEq, Eq)]
pub enum CaptureSignal {
    /// Go on capturing.
    Continue,
    /// Stop capturing: the frame could not be handed on.
    Stop,
}

/// What a channel is, seen from outside: the frames that wait in it, oldest
/// first, the number of frames that it can hold, and whether the consumer
/// still listens.
pub struct ChannelState {
    pub queued: Seq<Seq<i32>>,
    pub capacity: nat,
    pub open: bool,
}

impl ChannelState {
    /// An open channel without frames.
    pub open spec fn empty(capacity: nat) -> ChannelState {
        ChannelState { queued: Seq::empty(), capacity, open: true }
    }

    /// What sending `frame` does: on a closed channel it is refused as
    /// `Closed`, on a full one as `Full`, and the channel stays as it was;
    /// otherwise the frame joins the queue at its end.
    pub open spec fn send(self, frame: Seq<i32>) -> (ChannelState, Result<(), SendError>) {
        if !self.open {
            (self, Err(SendError::Closed))
        } else if self.queued.len() >= self.capacity {
            (self, Err(SendError::Full))
        } else {
            (
                ChannelState { queued: self.queued.push(frame), capacity: self.capacity, open: self.open },
                Ok(()),
            )
        }
    }

    /// What receiving does: the oldest frame leaves the queue, or, where no
    /// frame waits, nothing changes and nothing is handed out.
    pub open spec fn receive(self) -> (ChannelState, Option<Seq<i32>>) {
        if self.queued.len() == 0 {
            (self, None)
        } else {
            (
                ChannelState {
                    queued: self.queued.drop_first(),
                    capacity: self.capacity,
                    open: self.open,
                },
                Some(self.queued[0]),
            )
        }
    }

    /// What closing does: the frames that wait stay, and no more are taken.
    pub open spec fn close(self) -> ChannelState {
        ChannelState { queued: self.queued, capacity: self.capacity, open: false }
    }

    /// What delivering a captured frame does: the frame is sent, and the
    /// capture source is told to continue if it was taken and to stop if it
    /// was refused.
    pub open spec fn deliver(self, frame: Seq<i32>) -> (ChannelState, CaptureSignal) {
        match self.send(frame) {
            (after, Ok(_)) => (after, CaptureSignal::Continue),
            (after, Err(_)) => (after, CaptureSignal::Stop),
        }
    }

    /// The channel after `frames` have been sent one after another, whether
    /// or not each was taken.
    pub open spec fn send_all(self, frames: Seq<Seq<i32>>) -> ChannelState
        decreases frames.len(),
    {
        if frames.len() == 0 {
            self
        } else {
            self.send_all(frames.drop_last()).send(frames.last()).0
        }
    }

    /// The channel after `count` receives, and the frames that they handed
    /// out, in the order in which they came out.
    pub open spec fn receive_many(self, count: nat) -> (ChannelState, Seq<Seq<i32>>)
        decreases count,
    {
        if count == 0 {
            (self, Seq::empty())
        } else {
            let (before, got) = self.receive_many((count - 1) as nat);
            match before.receive() {
                (after, Some(frame)) => (after, got.push(frame)),
                (after, None) => (after, got),
            }
        }
    }
}

/// Frames sent to an open channel that has room for all of them line up
/// behind those that wait already, in the order in which they were sent.
pub proof fn lemma_send_all_appends(channel: ChannelState, frames: Seq<Seq<i32>>)
    requires
        channel.open,
        channel.queued.len() + frames.len() <= channel.capacity,
    ensures
        channel.send_all(frames) == (ChannelState {
            queued: channel.queued + frames,
            capacity: channel.capacity,
            open: true,
        }),
    decreases frames.len(),
{
    if frames.len() == 0 {
        assert(channel.queued + frames =~= channel.queued);
    } else {
        lemma_send_all_appends(channel, frames.drop_last());
        assert((channel.queued + frames.drop_last()).push(frames.last()) =~= channel.queued
            + frames);
    }
}

/// Receiving `count` times from a channel that holds at least as many frames
/// hands out its `count` oldest frames, oldest first, and leaves the rest.
pub proof fn lemma_receive_many_takes_oldest(channel: ChannelState, count: nat)
    requires
        count <= channel.queued.len(),
    ensures
        channel.receive_many(count) == (
            ChannelState {
                queued: channel.queued.skip(count as int),
                capacity: channel.capacity,
                open: channel.open,
            },
            channel.queued.take(count as int),
        ),
    decreases count,
{
    if count == 0 {
        assert(channel.queued.skip(0) =~= channel.queued);
        assert(channel.queued.take(0) =~= Seq::<Seq<i32>>::empty());
    } else {
        lemma_receive_many_takes_oldest(channel, (count - 1) as nat);
        let rest = channel.queued.skip(count - 1);
        assert(rest.drop_first() =~= channel.queued.skip(count as int));
        assert(channel.queued.take(count - 1).push(rest[0]) =~= channel.queued.take(
            count as int,
        ));
    }
}

/// Once a channel is empty, receiving hands out nothing, however often it is
/// tried.
pub proof fn lemma_receive_many_from_empty(channel: ChannelState, count: nat)
    requires
        channel.queued.len() == 0,
    ensures
        channel.receive_many(count) == (channel, Seq::<Seq<i32>>::empty()),
    decreases count,
{
    if count > 0 {
        lemma_receive_many_from_empty(channel, (count - 1) as nat);
    }
}

/// First in, first out: the frames that are sent to an empty open channel
/// with room for them are the frames that as many receives hand out, the
/// same frames in the same order, none twice and none lost, and the channel
/// is empty again afterwards.
pub proof fn lemma_first_in_first_out(capacity: nat, frames: Seq<Seq<i32>>)
    requires
        frames.len() <= capacity,
    ensures
        ChannelState::empty(capacity).send_all(frames).receive_many(frames.len()) == (
            ChannelState::empty(capacity),
            frames,
        ),
{
    let channel = ChannelState::empty(capacity);
    lemma_send_all_appends(channel, frames);
    let full = channel.send_all(frames);
    assert(channel.queued + frames =~= frames);
    lemma_receive_many_takes_oldest(full, frames.len());
    assert(frames.skip(frames.len() as int) =~= Seq::<Seq<i32>>::empty());
    assert(frames.take(frames.len() as int) =~= frames);
}

/// A bounded first-in, first-out queue of frames between one producer and one
/// consumer.
pub struct FrameChannel {
    queue: VecDeque<Frame>,
    capacity: usize,
    open: bool,
}

impl View for FrameChannel {
    type V = ChannelState;

    closed spec fn view(&self) -> ChannelState {
        ChannelState {
            queued: Seq::new(self.queue@.len(), |i: int| self.queue@[i]@),
            capacity: self.capacity as nat,
            open: self.open,
        }
    }
}

impl FrameChannel {
    #[verifier::type_invariant]
    spec fn within_capacity(self) -> bool {
        self.queue@.len() <= self.capacity
    }

    /// An open channel without frames that holds up to `capacity` of them.
    pub fn new(capacity: usize) -> (channel: FrameChannel)
        ensures
            channel@ == ChannelState::empty(capacity as nat),
    {
        let channel = FrameChannel { queue: VecDeque::new(), capacity, open: true };
        assert(channel@.queued =~= Seq::<Seq<i32>>::empty());
        channel
    }

    /// Hands a frame to the channel without waiting. The frame is taken
    /// unless the channel is closed or full; a frame that is refused is
    /// dropped, and the frames that wait are not touched.
    pub fn send(&mut self, frame: Frame) -> (outcome: Result<(), SendError>)
        ensures
            (final(self)@, outcome) == old(self)@.send(frame@),
    {
        proof {
            use_type_invariant(&*self);
        }
        if !self.open {
            Err(SendError::Closed)
        } else if self.queue.len() >= self.capacity {
            Err(SendError::Full)
        } else {
            let mut queue: VecDeque<Frame> = VecDeque::new();
            std::mem::swap(&mut queue, &mut self.queue);
            queue.push_back(frame);
            self.queue = queue;
            assert(self@.queued =~= old(self)@.queued.push(frame@));
            Ok(())
        }
    }

    /// Takes the oldest waiting frame without waiting: `None` where no frame
    /// waits. A closed channel still hands out the frames that it holds.
    pub fn try_receive(&mut self) -> (frame: Option<Frame>)
        ensures
            final(self)@ == old(self)@.receive().0,
            match frame {
                Some(f) => old(self)@.receive().1 == Some(f@),
                None => old(self)@.receive().1 is None,
            },
    {
        proof {
            use_type_invariant(&*self);
        }
        let mut queue: VecDeque<Frame> = VecDeque::new();
        std::mem::swap(&mut queue, &mut self.queue);
        let frame = queue.pop_front();
        self.queue = queue;
        proof {
            if frame is Some {
                assert(self@.queued =~= old(self)@.queued.drop_first());
            } else {
                assert(self@.queued =~= old(self)@.queued);
            }
        }
        frame
    }

    /// Closes the channel from the consumer's side: from now on every frame
    /// that is sent is refused.
    pub fn close(&mut self)
        ensures
            final(self)@ == old(self)@.close(),
    {
        proof {
            use_type_invariant(&*self);
        }
        self.open = false;
    }

    /// The capture side's whole duty: sends the frame, and says whether the
    /// capture source is to go on. A frame that is refused is not offered
    /// again.
    pub fn deliver(&mut self, frame: Frame) -> (signal: CaptureSignal)
        ensures
            (final(self)@, signal) == old(self)@.deliver(frame@),
    {
        match self.send(frame) {
            Ok(_) => CaptureSignal::Continue,
            Err(_) => CaptureSignal::Stop,
        }
    }

    /// The number of frames that wait, which never exceeds the capacity.
    pub fn len(&self) -> (n: usize)
        ensures
            n == self@.queued.len(),
            n <= self@.capacity,
    {
        proof {
            use_type_invariant(self);
        }
        self.queue.len()
    }

    /// Whether no frame waits.
    pub fn is_empty(&self) -> (empty: bool)
        ensures
            empty == (self@.queued.len() == 0),
    {
        self.queue.len() == 0
    }

    /// The number of frames that the channel can hold.
    pub fn capacity(&self) -> (capacity: usize)
        ensures
            capacity == self@.capacity,
    {
        self.capacity
    }

    /// Whether the consumer still listens.
    pub fn is_open(&self) -> (open: bool)
        ensures
            open == self@.open,
    {
        self.open
    }
}

} // verus!
