//! Bounded message channels crossing the boundary between the frame loop and
//! the step scheduler.
//!
//! A channel holds at most `cap` messages.  A full channel refuses a send and
//! hands the message back: depending on the channel's role the producer then
//! either waits and retries (back-pressure, the timestep channel), or drops
//! the message (best effort, the status channel).  The receiver takes
//! messages in order; the status consumer instead drains everything and keeps
//! only the newest entry.

use vstd::prelude::*;

verus! {

/// Capacity of the delta-time channel: one timestep in flight, so a second
/// submission waits until the scheduler consumes the first.
pub const DT_CHANNEL_CAP: usize = 1;

/// Capacity of the command channel; the producer waits once it is full.
pub const COMMAND_CHANNEL_CAP: usize = 16;

/// Capacity of the best-effort status channel; overflow is dropped.
pub const STATUS_CHANNEL_CAP: usize = 16;

/// Whether a channel with the given content and capacity accepts a send.
pub open spec fn chan_send_ok<T>(s: Seq<T>, cap: nat) -> bool {
    s.len() < cap
}

/// Channel content after offering one message: appended when there is room,
/// unchanged when full.
pub open spec fn chan_after_send<T>(s: Seq<T>, cap: nat, x: T) -> Seq<T> {
    if s.len() < cap {
        s.push(x)
    } else {
        s
    }
}

/// Channel content after one receive attempt.
pub open spec fn chan_after_recv<T>(s: Seq<T>) -> Seq<T> {
    if s.len() > 0 {
        s.drop_first()
    } else {
        s
    }
}

/// A FIFO queue of bounded capacity.
pub struct BoundedChannel<T> {
    pub items: Vec<T>,
    pub cap: usize,
}

impl<T> View for BoundedChannel<T> {
    type V = Seq<T>;

    open spec fn view(&self) -> Seq<T> {
        self.items@
    }
}

impl<T> BoundedChannel<T> {
    /// Well-formed: the capacity is positive and never exceeded.
    pub open spec fn wf(self) -> bool {
        &&& self.cap >= 1
        &&& self.items@.len() <= self.cap
    }

    /// The channel's capacity.
    pub open spec fn capacity(self) -> nat {
        self.cap as nat
    }

    pub fn new(cap: usize) -> (c: Self)
        requires
            cap >= 1,
        ensures
            c.wf(),
            c@ == Seq::<T>::empty(),
            c.capacity() == cap,
    {
        BoundedChannel { items: Vec::new(), cap }
    }

    pub fn len(&self) -> (n: usize)
        ensures
            n == self@.len(),
    {
        self.items.len()
    }

    /// Offer one message without blocking.  A full channel refuses it and
    /// hands it back unchanged.
    pub fn try_send(&mut self, x: T) -> (r: Result<(), T>)
        requires
            old(self).wf(),
        ensures
            final(self).wf(),
            final(self).capacity() == old(self).capacity(),
            final(self)@ == chan_after_send(old(self)@, old(self).capacity(), x),
            r matches Ok(()) <==> chan_send_ok(old(self)@, old(self).capacity()),
            r matches Err(y) ==> y == x && final(self)@ == old(self)@,
    {
        if self.items.len() < self.cap {
            self.items.push(x);
            Ok(())
        } else {
            Err(x)
        }
    }

    /// Take the oldest message without blocking, if one is present.
    pub fn try_recv(&mut self) -> (r: Option<T>)
        requires
            old(self).wf(),
        ensures
            final(self).wf(),
            final(self).capacity() == old(self).capacity(),
            final(self)@ == chan_after_recv(old(self)@),
            old(self)@.len() > 0 ==> r == Some(old(self)@[0]),
            old(self)@.len() == 0 ==> r is None,
    {
        if self.items.len() > 0 {
            Some(self.items.remove(0))
        } else {
            None
        }
    }

    /// Drain the channel and keep only the newest message: the best-effort
    /// consumer's view, in which older unread entries are superseded.
    pub fn recv_latest(&mut self) -> (r: Option<T>)
        requires
            old(self).wf(),
        ensures
            final(self).wf(),
            final(self).capacity() == old(self).capacity(),
            final(self)@ == Seq::<T>::empty(),
            old(self)@.len() > 0 ==> r == Some(old(self)@.last()),
            old(self)@.len() == 0 ==> r is None,
    {
        let r = self.items.pop();
        self.items.clear();
        r
    }
}

/// Back-pressure law of a bounded channel: while the channel is full a send
/// is refused and changes nothing, however often it is retried; as soon as
/// one message is consumed, the same send is accepted and appends its
/// message.  A producer that retries a refused send until it is accepted is
/// therefore blocked exactly until the consumer takes a message.
pub proof fn lemma_send_backpressure<T>(s: Seq<T>, cap: nat, x: T)
    requires
        cap >= 1,
        s.len() == cap,
    ensures
        !chan_send_ok(s, cap),
        chan_after_send(s, cap, x) == s,
        chan_send_ok(chan_after_recv(s), cap),
        chan_after_send(chan_after_recv(s), cap, x) == chan_after_recv(s).push(x),
{
}

/// A send kept below capacity is never refused: the frame loop's timestep
/// submission on a capacity-one channel always succeeds right after the
/// scheduler consumed the previous timestep.
pub proof fn lemma_send_when_room<T>(s: Seq<T>, cap: nat, x: T)
    requires
        s.len() < cap,
    ensures
        chan_send_ok(s, cap),
        chan_after_send(s, cap, x) == s.push(x),
        chan_after_send(s, cap, x).len() == s.len() + 1,
{
}

} // verus!
