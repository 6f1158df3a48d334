use vstd::prelude::*;
use std::collections::VecDeque;
use crate::error::QuinnetError;

verus! {

/// What a message channel holds: the queued payloads, oldest first, the
/// most it may hold, and whether it still accepts new payloads.
pub struct ChannelModel {
    pub messages: Seq<Vec<u8>>,
    pub capacity: nat,
    pub closed: bool,
}

/// The error that a send on a channel in state `m` fails with, if any.
pub open spec fn send_error(m: ChannelModel) -> Option<QuinnetError> {
    if m.closed {
        Some(QuinnetError::ChannelClosed)
    } else if m.messages.len() >= m.capacity {
        Some(QuinnetError::FullQueue)
    } else {
        None
    }
}

/// The channel after a send of `p` on `m`: the payload joins the back of the
/// queue when the send is accepted, and nothing changes otherwise.
pub open spec fn after_send(m: ChannelModel, p: Vec<u8>) -> ChannelModel {
    if send_error(m).is_some() {
        m
    } else {
        ChannelModel { messages: m.messages.push(p), ..m }
    }
}

/// The channel after sending each payload of `ps` in turn.
pub open spec fn after_sends(m: ChannelModel, ps: Seq<Vec<u8>>) -> ChannelModel
    decreases ps.len(),
{
    if ps.len() == 0 {
        m
    } else {
        after_send(after_sends(m, ps.drop_last()), ps.last())
    }
}

/// A bounded, ordered queue of opaque payloads between one producer and one
/// consumer. A send never blocks and never overwrites: on a full or closed
/// channel it fails and leaves the queue as it was.
pub struct MessageChannel {
    queue: VecDeque<Vec<u8>>,
    capacity: usize,
    closed: bool,
}

impl View for MessageChannel {
    type V = ChannelModel;

    closed spec fn view(&self) -> ChannelModel {
        ChannelModel { messages: self.queue@, capacity: self.capacity as nat, closed: self.closed }
    }
}

impl MessageChannel {
    /// The queue never holds more than the capacity.
    pub open spec fn wf(&self) -> bool {
        self@.messages.len() <= self@.capacity
    }

    /// An empty, open channel that holds at most `capacity` payloads.
    pub fn new(capacity: usize) -> (r: MessageChannel)
        ensures
            r.wf(),
            r@.messages == Seq::<Vec<u8>>::empty(),
            r@.capacity == capacity,
            !r@.closed,
    {
        MessageChannel { queue: VecDeque::new(), capacity, closed: false }
    }

    /// Enqueues `payload` at the back without blocking. Fails with
    /// `ChannelClosed` once the channel is closed, and with `FullQueue` when
    /// it holds as many payloads as its capacity; on failure the queue is
    /// left unchanged.
    pub fn send(&mut self, payload: Vec<u8>) -> (r: Result<(), QuinnetError>)
        requires
            old(self).wf(),
        ensures
            final(self).wf(),
            final(self)@ == after_send(old(self)@, payload),
            r == match send_error(old(self)@) {
                Some(e) => Err::<(), QuinnetError>(e),
                None => Ok::<(), QuinnetError>(()),
            },
    {
        if self.closed {
            Err(QuinnetError::ChannelClosed)
        } else if self.queue.len() >= self.capacity {
            Err(QuinnetError::FullQueue)
        } else {
            self.queue.push_back(payload);
            Ok(())
        }
    }

    /// Takes the oldest queued payload, or `None` when the channel is empty.
    /// A closed channel still hands out what it holds.
    pub fn try_recv(&mut self) -> (r: Option<Vec<u8>>)
        requires
            old(self).wf(),
        ensures
            final(self).wf(),
            final(self)@.capacity == old(self)@.capacity,
            final(self)@.closed == old(self)@.closed,
            old(self)@.messages.len() == 0 ==> r.is_none() && final(self)@.messages == old(
                self,
            )@.messages,
            old(self)@.messages.len() > 0 ==> r == Some(old(self)@.messages[0])
                && final(self)@.messages == old(self)@.messages.drop_first(),
    {
        self.queue.pop_front()
    }

    /// Takes every queued payload, oldest first, and leaves the channel empty.
    pub fn drain(&mut self) -> (r: Vec<Vec<u8>>)
        requires
            old(self).wf(),
        ensures
            final(self).wf(),
            r@ == old(self)@.messages,
            final(self)@.messages == Seq::<Vec<u8>>::empty(),
            final(self)@.capacity == old(self)@.capacity,
            final(self)@.closed == old(self)@.closed,
    {
        let mut out: Vec<Vec<u8>> = Vec::new();
        let ghost all = self.queue@;
        while self.queue.len() > 0
            invariant
                self.queue.len() <= self.capacity,
                self.capacity == old(self).capacity,
                self.closed == old(self).closed,
                all == old(self)@.messages,
                all == out@ + self.queue@,
            decreases self.queue.len(),
        {
            let p = self.queue.pop_front().unwrap();
            proof {
                assert(all == out@.push(p) + self.queue@);
            }
            out.push(p);
        }
        assert(self.queue@ =~= Seq::<Vec<u8>>::empty());
        assert(out@ =~= all);
        out
    }

    /// Stops accepting new payloads; what is queued stays to be drained.
    pub fn close(&mut self)
        requires
            old(self).wf(),
        ensures
            final(self).wf(),
            final(self)@ == (ChannelModel { closed: true, ..old(self)@ }),
    {
        self.closed = true;
    }

    /// Number of queued payloads.
    pub fn len(&self) -> (r: usize)
        ensures
            r == self@.messages.len(),
    {
        self.queue.len()
    }

    /// Whether no payload is queued.
    pub fn is_empty(&self) -> (r: bool)
        ensures
            r == (self@.messages.len() == 0),
    {
        self.queue.len() == 0
    }

    /// Whether a send would fail with `FullQueue` if the channel were open.
    pub fn is_full(&self) -> (r: bool)
        ensures
            r == (self@.messages.len() >= self@.capacity),
    {
        self.queue.len() >= self.capacity
    }

    /// The most payloads the channel may hold.
    pub fn capacity(&self) -> (r: usize)
        ensures
            r == self@.capacity,
    {
        self.capacity
    }

    /// Whether the channel has been closed.
    pub fn is_closed(&self) -> (r: bool)
        ensures
            r == self@.closed,
    {
        self.closed
    }
}

/// Sends on one open, empty channel, as many as its capacity allows at most,
/// are all accepted, and the channel then holds exactly those payloads in
/// the order they were sent.
pub proof fn lemma_sends_below_capacity_kept_in_order(m: ChannelModel, ps: Seq<Vec<u8>>)
    requires
        !m.closed,
        m.messages.len() == 0,
        ps.len() <= m.capacity,
    ensures
        after_sends(m, ps).messages == ps,
        after_sends(m, ps).capacity == m.capacity,
        !after_sends(m, ps).closed,
        forall|i: int| 0 <= i < ps.len() ==> send_error(#[trigger] after_sends(m, ps.take(i))).is_none(),
    decreases ps.len(),
{
    if ps.len() > 0 {
        let init = ps.drop_last();
        lemma_sends_below_capacity_kept_in_order(m, init);
        assert(init.push(ps.last()) =~= ps);
        assert forall|i: int| 0 <= i < ps.len() implies send_error(#[trigger] after_sends(m, ps.take(i))).is_none() by {
            if i < init.len() {
                assert(ps.take(i) =~= init.take(i));
            } else {
                assert(ps.take(i) =~= init);
            }
        }
    } else {
        assert(ps =~= Seq::<Vec<u8>>::empty());
    }
}

/// On a channel that holds exactly its capacity, a send fails with
/// `FullQueue` and leaves the queue unchanged; once one payload has been
/// taken, the next send is accepted again.
pub proof fn lemma_full_channel_rejects_until_drained(m: ChannelModel, p: Vec<u8>, q: Vec<u8>)
    requires
        !m.closed,
        m.messages.len() == m.capacity,
        m.capacity > 0,
    ensures
        send_error(m) == Some(QuinnetError::FullQueue),
        after_send(m, p) == m,
        send_error(ChannelModel { messages: m.messages.drop_first(), ..m }).is_none(),
        after_send(ChannelModel { messages: m.messages.drop_first(), ..m }, q).messages
            == m.messages.drop_first().push(q),
{
}

} // verus!
