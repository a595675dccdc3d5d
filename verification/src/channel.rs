//! A first-in, first-out queue of work that can be closed, and that is
//! drained to the last item before it says so.

use std::collections::VecDeque;
use vstd::prelude::*;

verus! {

/// What a channel holds.
pub struct ChannelState<T> {
    /// The items that wait, the oldest first.
    pub queue: Seq<T>,
    /// Whether the channel has been closed. It stays closed.
    pub closed: bool,
}

/// What a receiver finds.
pub enum Received<T> {
    /// The oldest item, which has left the queue.
    Item(T),
    /// Nothing waits and the channel is open: the receiver has to wait until
    /// an item is sent or the channel is closed, and then look again.
    Wait,
    /// Nothing waits and the channel is closed: nothing will come.
    Closed,
}

impl<T> ChannelState<T> {
    /// An open channel that holds nothing.
    pub open spec fn empty() -> ChannelState<T> {
        ChannelState { queue: Seq::empty(), closed: false }
    }

    /// The state after `item` was sent: it waits behind all others.
    pub open spec fn send(self, item: T) -> ChannelState<T> {
        ChannelState { queue: self.queue.push(item), closed: self.closed }
    }

    /// The state after the channel was closed: the items stay.
    pub open spec fn close(self) -> ChannelState<T> {
        ChannelState { queue: self.queue, closed: true }
    }

    /// What a receiver finds.
    pub open spec fn received(self) -> Received<T> {
        if self.queue.len() > 0 {
            Received::Item(self.queue[0])
        } else if self.closed {
            Received::Closed
        } else {
            Received::Wait
        }
    }

    /// The state after a receiver has looked: the oldest item has left, if
    /// there was one.
    pub open spec fn receive(self) -> ChannelState<T> {
        if self.queue.len() > 0 {
            ChannelState { queue: self.queue.drop_first(), closed: self.closed }
        } else {
            self
        }
    }

    /// The state after receivers have looked `n` times with nothing sent in
    /// between.
    pub open spec fn receive_many(self, n: nat) -> ChannelState<T>
        decreases n,
    {
        if n == 0 {
            self
        } else {
            self.receive().receive_many((n - 1) as nat)
        }
    }
}

/// Receivers that look again and again at a channel to which nothing is
/// sent get its items one by one, the oldest first, each of them once.
pub proof fn lemma_items_come_in_order<T>(state: ChannelState<T>, n: nat)
    requires
        n < state.queue.len(),
    ensures
        state.receive_many(n).received() == Received::Item(state.queue[n as int]),
        state.receive_many(n).queue == state.queue.skip(n as int),
        state.receive_many(n).closed == state.closed,
    decreases n,
{
    if n > 0 {
        lemma_items_come_in_order(state.receive(), (n - 1) as nat);
        assert(state.receive().queue.skip(n - 1) =~= state.queue.skip(n as int));
    } else {
        assert(state.queue.skip(0) =~= state.queue);
    }
}

/// A closed channel reports that it is closed only when every item that
/// was sent before has been handed out: no item is dropped.
pub proof fn lemma_closed_channel_drains<T>(state: ChannelState<T>, n: nat)
    requires
        state.closed,
    ensures
        state.receive_many(n).received() is Closed <==> n >= state.queue.len(),
        state.receive_many(n).closed,
    decreases n,
{
    if n > 0 {
        lemma_closed_channel_drains(state.receive(), (n - 1) as nat);
    }
}

/// One thing that is done to a channel.
pub enum ChannelStep<T> {
    /// An item is sent.
    Send(T),
    /// A receiver looks for an item.
    Receive,
    /// The channel is closed.
    Close,
}

/// The state that `steps`, taken in order, lead to from the empty channel.
pub open spec fn channel_after<T>(steps: Seq<ChannelStep<T>>) -> ChannelState<T>
    decreases steps.len(),
{
    if steps.len() == 0 {
        ChannelState::empty()
    } else {
        let before = channel_after(steps.drop_last());
        match steps.last() {
            ChannelStep::Send(item) => before.send(item),
            ChannelStep::Receive => before.receive(),
            ChannelStep::Close => before.close(),
        }
    }
}

/// The items that were sent during `steps`, the oldest first.
pub open spec fn items_sent<T>(steps: Seq<ChannelStep<T>>) -> Seq<T>
    decreases steps.len(),
{
    if steps.len() == 0 {
        Seq::empty()
    } else {
        match steps.last() {
            ChannelStep::Send(item) => items_sent(steps.drop_last()).push(item),
            _ => items_sent(steps.drop_last()),
        }
    }
}

/// The items that receivers were handed during `steps`, in the order in
/// which they were handed out.
pub open spec fn items_received<T>(steps: Seq<ChannelStep<T>>) -> Seq<T>
    decreases steps.len(),
{
    if steps.len() == 0 {
        Seq::empty()
    } else {
        match (steps.last(), channel_after(steps.drop_last()).received()) {
            (ChannelStep::Receive, Received::Item(item)) => items_received(
                steps.drop_last(),
            ).push(item),
            _ => items_received(steps.drop_last()),
        }
    }
}

/// Whatever is done to a channel, the items come out in the order in which
/// they went in, and each item that went in has either come out or still
/// waits: none is lost, none comes twice, and closing changes nothing of
/// this.
pub proof fn lemma_channel_keeps_order<T>(steps: Seq<ChannelStep<T>>)
    ensures
        items_sent(steps) == items_received(steps) + channel_after(steps).queue,
    decreases steps.len(),
{
    if steps.len() > 0 {
        lemma_channel_keeps_order(steps.drop_last());
        assert(items_sent(steps) =~= items_received(steps) + channel_after(steps).queue);
    } else {
        assert(items_sent(steps) =~= items_received(steps) + channel_after(steps).queue);
    }
}

/// A channel that was closed stays closed.
pub proof fn lemma_closed_stays_closed<T>(steps: Seq<ChannelStep<T>>, n: int)
    requires
        0 <= n <= steps.len(),
        channel_after(steps.take(n)).closed,
    ensures
        channel_after(steps).closed,
    decreases steps.len() - n,
{
    if n < steps.len() {
        assert(steps.take(n + 1).drop_last() =~= steps.take(n));
        lemma_closed_stays_closed(steps, n + 1);
    } else {
        assert(steps.take(n) =~= steps);
    }
}

/// A queue of work items between those who send and those who receive.
pub struct Channel<T> {
    queue: VecDeque<T>,
    closed: bool,
}

impl<T> View for Channel<T> {
    type V = ChannelState<T>;

    closed spec fn view(&self) -> ChannelState<T> {
        ChannelState { queue: self.queue@, closed: self.closed }
    }
}

impl<T> Channel<T> {
    /// An open channel that holds nothing.
    pub fn new() -> (channel: Channel<T>)
        ensures
            channel@ == ChannelState::<T>::empty(),
    {
        Channel { queue: VecDeque::new(), closed: false }
    }

    /// Puts `item` behind all items that wait. The sender never waits. One
    /// waiting receiver, if there is any, is to be woken after this.
    pub fn send(&mut self, item: T)
        ensures
            final(self)@ == old(self)@.send(item),
    {
        self.queue.push_back(item);
    }

    /// Hands out the oldest item. Where none waits the channel says whether
    /// the receiver is to wait or to stop.
    pub fn receive(&mut self) -> (received: Received<T>)
        ensures
            received == old(self)@.received(),
            final(self)@ == old(self)@.receive(),
    {
        match self.queue.pop_front() {
            Some(item) => {
                assert(self.queue@ =~= old(self).queue@.drop_first());
                Received::Item(item)
            },
            None => {
                if self.closed {
                    Received::Closed
                } else {
                    Received::Wait
                }
            },
        }
    }

    /// Closes the channel for good. The items that wait stay, to be received.
    /// Every waiting receiver is to be woken after this.
    pub fn close(&mut self)
        ensures
            final(self)@ == old(self)@.close(),
    {
        self.closed = true;
    }

    /// Whether the channel has been closed.
    pub fn is_closed(&self) -> (closed: bool)
        ensures
            closed == self@.closed,
    {
        self.closed
    }

    /// The number of items that wait.
    pub fn len(&self) -> (len: usize)
        ensures
            len == self@.queue.len(),
    {
        self.queue.len()
    }
}

} // verus!
