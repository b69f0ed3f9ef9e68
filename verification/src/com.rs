//! Mailbox queues and channels.
//!
//! A mailbox is an unbounded first-in first-out queue. A channel pairs a
//! broadcast lane, which hands every published value to each receiver that
//! is subscribed at that moment, with a bounded point-to-point lane. Nothing
//! here waits: where a caller would have to, the operation says so in its
//! result (`Empty`, `Full`), and the caller tries again once it is woken.

use std::collections::VecDeque;
use vstd::prelude::*;

verus! {

/// Why nothing was received.
#[derive(Debug, Clone, Copy, PartialEq, Eq)]
pub enum RecvError {
    /// Nothing is pending; a value may still come.
    Empty,
    /// The lane is closed and drained: no value will ever come.
    Closed,
}

/// Why a value was not accepted. The value comes back.
#[derive(Debug)]
pub enum SendError<T> {
    /// The lane holds as many values as it has room for.
    Full(T),
    /// The lane is closed.
    Closed(T),
}

/// An unbounded queue that hands out its values in the order in which they
/// were pushed.
pub struct MSGQueue<T> {
    queue: VecDeque<T>,
}

impl<T> View for MSGQueue<T> {
    type V = Seq<T>;

    /// The pending values, oldest first.
    closed spec fn view(&self) -> Seq<T> {
        self.queue@
    }
}

/// What `next` does to the pending values `q`: the value it returns, and
/// what stays pending.
pub open spec fn next_of<T>(q: Seq<T>) -> (Option<T>, Seq<T>) {
    if q.len() > 0 {
        (Some(q[0]), q.drop_first())
    } else {
        (None, q)
    }
}

/// What is pending after the values `vs` were pushed, one after the other,
/// onto `q`.
pub open spec fn after_pushes<T>(q: Seq<T>, vs: Seq<T>) -> Seq<T>
    decreases vs.len(),
{
    if vs.len() == 0 {
        q
    } else {
        after_pushes(q.push(vs[0]), vs.drop_first())
    }
}

/// What `n` calls of `next` in a row return, from the pending values `q`.
pub open spec fn nexts<T>(q: Seq<T>, n: nat) -> Seq<Option<T>>
    decreases n,
{
    if n == 0 {
        seq![]
    } else {
        seq![next_of(q).0] + nexts(next_of(q).1, (n - 1) as nat)
    }
}

impl<T> MSGQueue<T> {
    /// An empty queue.
    pub fn new() -> (q: Self)
        ensures
            q@ == Seq::<T>::empty(),
    {
        MSGQueue { queue: VecDeque::new() }
    }

    /// Appends `payload` behind all that is pending.
    pub fn push_back(&mut self, payload: T)
        ensures
            final(self)@ == old(self)@.push(payload),
    {
        self.queue.push_back(payload);
    }

    /// Takes the oldest pending value. `None` means that nothing is pending:
    /// the caller waits for the next push and asks again.
    pub fn next(&mut self) -> (value: Option<T>)
        ensures
            (value, final(self)@) == next_of(old(self)@),
    {
        let value = self.queue.pop_front();
        assert(old(self)@.len() > 0 ==> old(self)@.subrange(1, old(self)@.len() as int)
            =~= old(self)@.drop_first());
        value
    }

    /// Takes the oldest pending value, or reports that none is pending.
    pub fn next_error(&mut self) -> (value: Result<T, RecvError>)
        ensures
            match value {
                Ok(v) => next_of(old(self)@) == (Some(v), final(self)@),
                Err(e) => e == RecvError::Empty && old(self)@.len() == 0 && final(self)@ == old(self)@,
            },
    {
        match self.next() {
            Some(v) => Ok(v),
            None => Err(RecvError::Empty),
        }
    }

    /// The number of pending values.
    pub fn len(&self) -> (n: usize)
        ensures
            n == self@.len(),
    {
        self.queue.len()
    }
}

impl<T> Default for MSGQueue<T> {
    fn default() -> (q: Self)
        ensures
            q@ == Seq::<T>::empty(),
    {
        MSGQueue::new()
    }
}

/// Pushing `vs` onto `q` leaves `q` followed by `vs`.
pub proof fn lemma_after_pushes<T>(q: Seq<T>, vs: Seq<T>)
    ensures
        after_pushes(q, vs) == q + vs,
    decreases vs.len(),
{
    if vs.len() == 0 {
        assert(q + vs =~= q);
    } else {
        lemma_after_pushes(q.push(vs[0]), vs.drop_first());
        assert(q.push(vs[0]) + vs.drop_first() =~= q + vs);
    }
}

/// As many calls of `next` as values are pending return those values, oldest
/// first.
pub proof fn lemma_nexts_drain<T>(q: Seq<T>)
    ensures
        nexts(q, q.len()) == q.map_values(|v: T| Some(v)),
    decreases q.len(),
{
    if q.len() == 0 {
        assert(nexts(q, 0) =~= q.map_values(|v: T| Some(v)));
    } else {
        lemma_nexts_drain(q.drop_first());
        assert(seq![Some(q[0])] + q.drop_first().map_values(|v: T| Some(v)) =~= q.map_values(
            |v: T| Some(v),
        ));
    }
}

/// First in, first out: after the values `vs` were pushed onto an empty
/// queue, as many calls of `next` return exactly `vs`, in the order of the
/// pushes.
pub proof fn lemma_mailbox_fifo<T>(vs: Seq<T>)
    ensures
        nexts(after_pushes(Seq::<T>::empty(), vs), vs.len()) == vs.map_values(|v: T| Some(v)),
{
    lemma_after_pushes(Seq::<T>::empty(), vs);
    assert(Seq::<T>::empty() + vs =~= vs);
    lemma_nexts_drain(vs);
}

/// One operation on a mailbox.
pub ghost enum QueueOp<T> {
    Push(T),
    Next,
}

/// What is pending, and what was handed out so far, after the operations
/// `ops` were applied, one after the other, to the pending values `q`.
pub open spec fn after_ops<T>(q: Seq<T>, ops: Seq<QueueOp<T>>) -> (Seq<T>, Seq<T>)
    decreases ops.len(),
{
    if ops.len() == 0 {
        (q, seq![])
    } else {
        let (pending, taken) = after_ops(q, ops.drop_last());
        match ops.last() {
            QueueOp::Push(v) => (pending.push(v), taken),
            QueueOp::Next => match next_of(pending).0 {
                Some(v) => (next_of(pending).1, taken.push(v)),
                None => (pending, taken),
            },
        }
    }
}

/// The values that the operations push, in order.
pub open spec fn pushes_of<T>(ops: Seq<QueueOp<T>>) -> Seq<T>
    decreases ops.len(),
{
    if ops.len() == 0 {
        seq![]
    } else {
        match ops.last() {
            QueueOp::Push(v) => pushes_of(ops.drop_last()).push(v),
            QueueOp::Next => pushes_of(ops.drop_last()),
        }
    }
}

/// Order is kept however pushes and takes alternate: what was handed out,
/// followed by what is still pending, is what was pending at first followed
/// by what was pushed. Nothing is lost, doubled or reordered.
pub proof fn lemma_mailbox_order<T>(q: Seq<T>, ops: Seq<QueueOp<T>>)
    ensures
        after_ops(q, ops).1 + after_ops(q, ops).0 == q + pushes_of(ops),
    decreases ops.len(),
{
    if ops.len() == 0 {
        assert(after_ops(q, ops).1 + after_ops(q, ops).0 =~= q + pushes_of(ops));
    } else {
        lemma_mailbox_order(q, ops.drop_last());
        let (pending, taken) = after_ops(q, ops.drop_last());
        let pushed = pushes_of(ops.drop_last());
        assert(taken + pending == q + pushed);
        match ops.last() {
            QueueOp::Push(v) => {
                assert(taken + pending.push(v) =~= (taken + pending).push(v));
                assert(q + pushed.push(v) =~= (q + pushed).push(v));
            },
            QueueOp::Next => {
                if pending.len() > 0 {
                    assert(taken.push(pending[0]) + pending.drop_first() =~= taken + pending);
                }
            },
        }
    }
}

/// A bounded lane for one consumer.
pub struct Lane<T> {
    queue: VecDeque<T>,
    capacity: usize,
    closed: bool,
}

/// A `Lane` as plain values.
pub ghost struct LaneView<T> {
    /// The values sent and not yet received, oldest first.
    pub pending: Seq<T>,
    /// The number of values that may be pending at once.
    pub capacity: nat,
    pub closed: bool,
}

/// How a send ended.
#[derive(Debug, Clone, Copy, PartialEq, Eq)]
pub enum SendOutcome {
    Sent,
    Full,
    Closed,
}

impl<T> LaneView<T> {
    /// A lane never holds more than its capacity, which is at least one.
    pub open spec fn wf(self) -> bool {
        0 < self.capacity && self.pending.len() <= self.capacity
    }

    /// An open lane with nothing pending.
    pub open spec fn empty(capacity: nat) -> Self {
        LaneView { pending: seq![], capacity, closed: false }
    }

    /// What a send of `v` does: the lane afterwards, and how the send ended.
    pub open spec fn send(self, v: T) -> (Self, SendOutcome) {
        if self.closed {
            (self, SendOutcome::Closed)
        } else if self.pending.len() >= self.capacity {
            (self, SendOutcome::Full)
        } else {
            (LaneView { pending: self.pending.push(v), ..self }, SendOutcome::Sent)
        }
    }

    /// What a receive does: the lane afterwards, and what is received. What
    /// is pending is handed out even after the lane was closed.
    pub open spec fn recv(self) -> (Self, Result<T, RecvError>) {
        if self.pending.len() > 0 {
            (LaneView { pending: self.pending.drop_first(), ..self }, Ok(self.pending[0]))
        } else if self.closed {
            (self, Err(RecvError::Closed))
        } else {
            (self, Err(RecvError::Empty))
        }
    }

    /// The lane after the values `vs` were sent, one after the other.
    pub open spec fn after_sends(self, vs: Seq<T>) -> Self
        decreases vs.len(),
    {
        if vs.len() == 0 {
            self
        } else {
            self.send(vs[0]).0.after_sends(vs.drop_first())
        }
    }

    /// How the sends of the values `vs`, one after the other, ended.
    pub open spec fn outcomes(self, vs: Seq<T>) -> Seq<SendOutcome>
        decreases vs.len(),
    {
        if vs.len() == 0 {
            seq![]
        } else {
            seq![self.send(vs[0]).1] + self.send(vs[0]).0.outcomes(vs.drop_first())
        }
    }

    /// The lane after `n` receives in a row.
    pub open spec fn after_recvs(self, n: nat) -> Self
        decreases n,
    {
        if n == 0 {
            self
        } else {
            self.recv().0.after_recvs((n - 1) as nat)
        }
    }
}

impl<T> View for Lane<T> {
    type V = LaneView<T>;

    closed spec fn view(&self) -> LaneView<T> {
        LaneView {
            pending: self.queue@,
            capacity: self.capacity as nat,
            closed: self.closed,
        }
    }
}

impl<T> Lane<T> {
    /// An open lane with room for `capacity` values.
    pub fn new(capacity: usize) -> (lane: Self)
        requires
            capacity > 0,
        ensures
            lane@ == LaneView::<T>::empty(capacity as nat),
            lane@.wf(),
    {
        Lane { queue: VecDeque::new(), capacity, closed: false }
    }

    /// Sends `message`, if the lane is open and has room. Where it is full
    /// the value comes back in `Full`: the sender waits until a receive has
    /// made room, and sends again.
    pub fn send(&mut self, message: T) -> (r: Result<(), SendError<T>>)
        requires
            old(self)@.wf(),
        ensures
            final(self)@.wf(),
            final(self)@ == old(self)@.send(message).0,
            match r {
                Ok(_) => old(self)@.send(message).1 == SendOutcome::Sent,
                Err(SendError::Full(m)) => old(self)@.send(message).1 == SendOutcome::Full && m
                    == message,
                Err(SendError::Closed(m)) => old(self)@.send(message).1 == SendOutcome::Closed
                    && m == message,
            },
    {
        if self.closed {
            Err(SendError::Closed(message))
        } else if self.queue.len() >= self.capacity {
            Err(SendError::Full(message))
        } else {
            self.queue.push_back(message);
            Ok(())
        }
    }

    /// Receives the oldest pending value. `Empty` means that the receiver
    /// waits for the next send; `Closed` that it need not.
    pub fn recv(&mut self) -> (r: Result<T, RecvError>)
        requires
            old(self)@.wf(),
        ensures
            final(self)@.wf(),
            (final(self)@, r) == old(self)@.recv(),
    {
        match self.queue.pop_front() {
            Some(v) => {
                let ghost pending = old(self)@.pending;
                assert(pending.subrange(1, pending.len() as int) =~= pending.drop_first());
                Ok(v)
            },
            None => {
                if self.closed {
                    Err(RecvError::Closed)
                } else {
                    Err(RecvError::Empty)
                }
            },
        }
    }

    /// Closes the lane: it accepts no further value. What is pending can
    /// still be received.
    pub fn close(&mut self)
        ensures
            final(self)@ == (LaneView { closed: true, ..old(self)@ }),
    {
        self.closed = true;
    }

    /// The number of pending values.
    pub fn len(&self) -> (n: usize)
        ensures
            n == self@.pending.len(),
    {
        self.queue.len()
    }

    /// The number of values that may be pending at once.
    pub fn capacity(&self) -> (n: usize)
        ensures
            n == self@.capacity,
    {
        self.capacity
    }

    /// Whether the lane was closed.
    pub fn is_closed(&self) -> (b: bool)
        ensures
            b == self@.closed,
    {
        self.closed
    }
}

/// As long as there is room, every send is accepted and its value is
/// appended.
pub proof fn lemma_sends_with_room<T>(lane: LaneView<T>, vs: Seq<T>)
    requires
        !lane.closed,
        lane.pending.len() + vs.len() <= lane.capacity,
    ensures
        lane.after_sends(vs) == (LaneView { pending: lane.pending + vs, ..lane }),
        lane.outcomes(vs) == Seq::new(vs.len(), |i: int| SendOutcome::Sent),
    decreases vs.len(),
{
    if vs.len() == 0 {
        assert(lane.pending + vs =~= lane.pending);
        assert(lane.outcomes(vs) =~= Seq::new(vs.len(), |i: int| SendOutcome::Sent));
    } else {
        let next = lane.send(vs[0]).0;
        lemma_sends_with_room(next, vs.drop_first());
        assert(next.pending + vs.drop_first() =~= lane.pending + vs);
        assert(lane.outcomes(vs) =~= Seq::new(vs.len(), |i: int| SendOutcome::Sent));
    }
}

/// Receives take what is pending from the front.
pub proof fn lemma_recvs<T>(lane: LaneView<T>, n: nat)
    requires
        n <= lane.pending.len(),
    ensures
        lane.after_recvs(n) == (LaneView { pending: lane.pending.skip(n as int), ..lane }),
    decreases n,
{
    if n == 0 {
        assert(lane.pending.skip(0) =~= lane.pending);
    } else {
        let next = lane.recv().0;
        lemma_recvs(next, (n - 1) as nat);
        assert(next.pending.skip(n - 1) =~= lane.pending.skip(n as int));
    }
}

/// Backpressure: an open, empty lane of capacity `k` accepts `k` values in a
/// row; the next send finds it full and changes nothing; and after any
/// number of receives, from one to `k`, a send is accepted at once.
pub proof fn lemma_lane_backpressure<T>(capacity: nat, vs: Seq<T>, extra: T, received: nat)
    requires
        0 < capacity == vs.len(),
        1 <= received <= capacity,
    ensures
        ({
            let full = LaneView::<T>::empty(capacity).after_sends(vs);
            &&& LaneView::<T>::empty(capacity).outcomes(vs) == Seq::new(
                vs.len(),
                |i: int| SendOutcome::Sent,
            )
            &&& full.pending == vs
            &&& full.send(extra) == (full, SendOutcome::Full)
            &&& full.after_recvs(received).send(extra).1 == SendOutcome::Sent
        }),
{
    let start = LaneView::<T>::empty(capacity);
    lemma_sends_with_room(start, vs);
    assert(start.pending + vs =~= vs);
    lemma_recvs(start.after_sends(vs), received);
}

/// What has become of a broadcast receiver.
#[derive(Debug, Clone, Copy, PartialEq, Eq)]
pub enum ReceiverState {
    /// Subscribed: every published value is handed to it.
    Live,
    /// Given up by its owner; the publisher has not yet found out.
    Dropped,
    /// Given up, and the publisher has said so once.
    Forgotten,
}

/// One receiver of the broadcast lane.
struct Slot<BM> {
    queue: VecDeque<BM>,
    state: ReceiverState,
}

/// A broadcast receiver as plain values.
pub ghost struct ReceiverView<BM> {
    /// The values published to it and not yet received, oldest first.
    pub pending: Seq<BM>,
    pub state: ReceiverState,
}

impl<BM> View for Slot<BM> {
    type V = ReceiverView<BM>;

    closed spec fn view(&self) -> ReceiverView<BM> {
        ReceiverView { pending: self.queue@, state: self.state }
    }
}

/// A publish could not reach every receiver.
#[derive(Debug, Clone, Copy, PartialEq, Eq)]
pub struct BroadcastError {
    /// The number of receivers that got the value.
    pub delivered: usize,
    /// The number of receivers found dropped.
    pub dropped: usize,
}

/// A named pair of lanes: a broadcast lane for values of type `BM`, and a
/// bounded point-to-point lane for values of type `SM`.
pub struct MsgChannel<BM, SM> {
    name: String,
    slots: Vec<Slot<BM>>,
    lane: Lane<SM>,
}

/// A `MsgChannel` as plain values.
pub ghost struct ChannelView<BM, SM> {
    pub name: Seq<char>,
    /// The broadcast receivers, by the number that `subscribe_broadcast` gave
    /// each.
    pub receivers: Seq<ReceiverView<BM>>,
    pub lane: LaneView<SM>,
}

/// How many of the receivers are in the given state.
pub open spec fn count_in<BM>(receivers: Seq<ReceiverView<BM>>, state: ReceiverState) -> nat
    decreases receivers.len(),
{
    if receivers.len() == 0 {
        0
    } else {
        count_in(receivers.drop_last(), state) + if receivers.last().state == state {
            1nat
        } else {
            0nat
        }
    }
}

/// Whether a publish of `message` turns the receiver `before` into `after`:
/// a live receiver gets a clone of the message behind all that is pending for
/// it, a dropped one is forgotten, and a forgotten one stays as it is.
pub open spec fn published_to<BM: Clone>(
    before: ReceiverView<BM>,
    after: ReceiverView<BM>,
    message: BM,
) -> bool {
    match before.state {
        ReceiverState::Live => {
            &&& after.state == ReceiverState::Live
            &&& after.pending.len() == before.pending.len() + 1
            &&& after.pending.drop_last() == before.pending
            &&& cloned(message, after.pending.last())
        },
        ReceiverState::Dropped => after == (ReceiverView {
            state: ReceiverState::Forgotten,
            ..before
        }),
        ReceiverState::Forgotten => after == before,
    }
}

/// What a receive does to one receiver: what is left of it, and what is
/// received. A receiver that was given up receives nothing more.
pub open spec fn received_from<BM>(r: ReceiverView<BM>) -> (ReceiverView<BM>, Result<
    BM,
    RecvError,
>) {
    if r.state != ReceiverState::Live {
        (r, Err(RecvError::Closed))
    } else if r.pending.len() == 0 {
        (r, Err(RecvError::Empty))
    } else {
        (ReceiverView { pending: r.pending.drop_first(), ..r }, Ok(r.pending[0]))
    }
}

/// What giving up does to one receiver: what was pending for it is gone.
pub open spec fn given_up<BM>(r: ReceiverView<BM>) -> ReceiverView<BM> {
    if r.state == ReceiverState::Live {
        ReceiverView { pending: seq![], state: ReceiverState::Dropped }
    } else {
        r
    }
}

impl<BM, SM> ChannelView<BM, SM> {
    pub open spec fn wf(self) -> bool {
        self.lane.wf()
    }

    /// Whether nobody is subscribed, nor was until a moment ago.
    pub open spec fn no_receivers(self) -> bool {
        count_in(self.receivers, ReceiverState::Live) == 0 && count_in(
            self.receivers,
            ReceiverState::Dropped,
        ) == 0
    }
}

impl<BM, SM> View for MsgChannel<BM, SM> {
    type V = ChannelView<BM, SM>;

    closed spec fn view(&self) -> ChannelView<BM, SM> {
        ChannelView {
            name: self.name@,
            receivers: Seq::new(self.slots@.len(), |i: int| self.slots@[i]@),
            lane: self.lane@,
        }
    }
}

impl<BM, SM> MsgChannel<BM, SM> {
    /// A channel without receivers, whose point-to-point lane is open, empty
    /// and has room for `capacity` values.
    pub fn new(name: &str, capacity: usize) -> (channel: Self)
        requires
            capacity > 0,
        ensures
            channel@.wf(),
            channel@.name == name@,
            channel@.receivers == Seq::<ReceiverView<BM>>::empty(),
            channel@.lane == LaneView::<SM>::empty(capacity as nat),
    {
        let channel = MsgChannel { name: name.to_owned(), slots: Vec::new(), lane: Lane::new(capacity) };
        assert(channel@.receivers =~= Seq::<ReceiverView<BM>>::empty());
        channel
    }

    /// The channel's name.
    pub fn name(&self) -> (name: &String)
        ensures
            name@ == self@.name,
    {
        &self.name
    }

    /// Publishes `message` on the broadcast lane: every live receiver gets a
    /// clone of it. With no receiver the value is dropped, which is no
    /// error. Receivers found dropped are reported, once, and do not keep the
    /// others from getting the value.
    pub fn send_broadcast(&mut self, message: BM) -> (r: Result<usize, BroadcastError>) where
        BM: Clone,

        ensures
            final(self)@.name == old(self)@.name,
            final(self)@.lane == old(self)@.lane,
            final(self)@.receivers.len() == old(self)@.receivers.len(),
            forall|i: int|
                0 <= i < old(self)@.receivers.len() ==> published_to(
                    old(self)@.receivers[i],
                    #[trigger] final(self)@.receivers[i],
                    message,
                ),
            match r {
                Ok(n) => n == count_in(old(self)@.receivers, ReceiverState::Live) && count_in(
                    old(self)@.receivers,
                    ReceiverState::Dropped,
                ) == 0,
                Err(e) => e.delivered == count_in(old(self)@.receivers, ReceiverState::Live)
                    && e.dropped == count_in(old(self)@.receivers, ReceiverState::Dropped)
                    && e.dropped > 0,
            },
            old(self)@.no_receivers() ==> r == Ok::<usize, BroadcastError>(0) && final(self)@
                == old(self)@,
    {
        let ghost before = self@.receivers;
        let n = self.slots.len();
        let mut delivered: usize = 0;
        let mut dropped: usize = 0;
        let mut i: usize = 0;
        assert(before.take(0) =~= Seq::<ReceiverView<BM>>::empty());
        while i < n
            invariant
                i <= n == self.slots.len() == before.len(),
                self.name == old(self).name,
                self.lane == old(self).lane,
                before == old(self)@.receivers,
                delivered == count_in(before.take(i as int), ReceiverState::Live),
                dropped == count_in(before.take(i as int), ReceiverState::Dropped),
                delivered + dropped <= i,
                forall|k: int| i <= k < n ==> (#[trigger] self.slots@[k])@ == before[k],
                forall|k: int|
                    0 <= k < i ==> published_to(before[k], (#[trigger] self.slots@[k])@, message),
                delivered + dropped == 0 ==> forall|k: int|
                    0 <= k < i ==> (#[trigger] self.slots@[k])@ == before[k],
            decreases n - i,
        {
            proof {
                assert(before.take(i + 1).drop_last() =~= before.take(i as int));
                assert(before.take(i + 1).last() == before[i as int]);
            }
            let ghost slots_before = self.slots@;
            match self.slots[i].state {
                ReceiverState::Live => {
                    let copy = message.clone();
                    self.slots[i].queue.push_back(copy);
                    delivered += 1;
                    assert(self.slots@[i as int]@.pending.drop_last() =~= before[i as int].pending);
                },
                ReceiverState::Dropped => {
                    self.slots[i].state = ReceiverState::Forgotten;
                    dropped += 1;
                },
                ReceiverState::Forgotten => {},
            }
            assert forall|k: int| 0 <= k < i implies published_to(
                before[k],
                (#[trigger] self.slots@[k])@,
                message,
            ) by {
                assert(self.slots@[k] == slots_before[k]);
            }
            i += 1;
        }
        proof {
            assert(before.take(n as int) =~= before);
            if delivered + dropped == 0 {
                assert(self@.receivers =~= before);
            }
        }
        if dropped == 0 {
            Ok(delivered)
        } else {
            Err(BroadcastError { delivered, dropped })
        }
    }

    /// Subscribes a new receiver to the broadcast lane and returns its
    /// number. It gets what is published from now on, and nothing of what
    /// was published before.
    pub fn subscribe_broadcast(&mut self) -> (id: usize)
        ensures
            id == old(self)@.receivers.len(),
            final(self)@ == (ChannelView {
                receivers: old(self)@.receivers.push(
                    ReceiverView { pending: seq![], state: ReceiverState::Live },
                ),
                ..old(self)@
            }),
    {
        let id = self.slots.len();
        self.slots.push(Slot { queue: VecDeque::new(), state: ReceiverState::Live });
        assert(self@.receivers =~= old(self)@.receivers.push(
            ReceiverView { pending: seq![], state: ReceiverState::Live },
        ));
        id
    }

    /// Takes the oldest value that is pending for the receiver `id`.
    /// `Empty` means that the receiver waits for the next publish; `Closed`
    /// that there is no such receiver, or that it was given up.
    pub fn recv_broadcast(&mut self, id: usize) -> (r: Result<BM, RecvError>)
        ensures
            final(self)@.name == old(self)@.name,
            final(self)@.lane == old(self)@.lane,
            id >= old(self)@.receivers.len() ==> r == Err::<BM, RecvError>(RecvError::Closed)
                && final(self)@ == old(self)@,
            id < old(self)@.receivers.len() ==> r == received_from(
                old(self)@.receivers[id as int],
            ).1 && final(self)@.receivers == old(self)@.receivers.update(
                id as int,
                received_from(old(self)@.receivers[id as int]).0,
            ),
    {
        if id >= self.slots.len() {
            return Err(RecvError::Closed);
        }
        match self.slots[id].state {
            ReceiverState::Live => {},
            _ => {
                assert(self@.receivers =~= old(self)@.receivers.update(
                    id as int,
                    old(self)@.receivers[id as int],
                ));
                return Err(RecvError::Closed);
            },
        }
        match self.slots[id].queue.pop_front() {
            Some(v) => {
                let ghost pending = old(self)@.receivers[id as int].pending;
                assert(pending.subrange(1, pending.len() as int) =~= pending.drop_first());
                assert(self@.receivers =~= old(self)@.receivers.update(
                    id as int,
                    received_from(old(self)@.receivers[id as int]).0,
                ));
                Ok(v)
            },
            None => {
                assert(self@.receivers =~= old(self)@.receivers.update(
                    id as int,
                    old(self)@.receivers[id as int],
                ));
                Err(RecvError::Empty)
            },
        }
    }

    /// Gives up the receiver `id`: what is pending for it is thrown away, and
    /// the next publish reports it as dropped.
    pub fn unsubscribe(&mut self, id: usize)
        ensures
            final(self)@.name == old(self)@.name,
            final(self)@.lane == old(self)@.lane,
            id >= old(self)@.receivers.len() ==> final(self)@ == old(self)@,
            id < old(self)@.receivers.len() ==> final(self)@.receivers == old(self)@.receivers.update(
                id as int,
                given_up(old(self)@.receivers[id as int]),
            ),
    {
        if id < self.slots.len() {
            match self.slots[id].state {
                ReceiverState::Live => {
                    self.slots[id].queue.clear();
                    self.slots[id].state = ReceiverState::Dropped;
                },
                _ => {},
            }
            assert(self@.receivers =~= old(self)@.receivers.update(
                id as int,
                given_up(old(self)@.receivers[id as int]),
            ));
        }
    }

    /// The number of live receivers of the broadcast lane.
    pub fn receiver_count(&self) -> (n: usize)
        ensures
            n == count_in(self@.receivers, ReceiverState::Live),
    {
        let ghost all = self@.receivers;
        let mut n: usize = 0;
        let mut i: usize = 0;
        assert(all.take(0) =~= Seq::<ReceiverView<BM>>::empty());
        while i < self.slots.len()
            invariant
                i <= self.slots.len() == all.len(),
                all == self@.receivers,
                n == count_in(all.take(i as int), ReceiverState::Live),
                n <= i,
            decreases self.slots.len() - i,
        {
            proof {
                assert(all.take(i + 1).drop_last() =~= all.take(i as int));
                assert(all.take(i + 1).last() == all[i as int]);
            }
            match self.slots[i].state {
                ReceiverState::Live => {
                    n += 1;
                },
                _ => {},
            }
            i += 1;
        }
        assert(all.take(all.len() as int) =~= all);
        n
    }

    /// Sends `message` on the point-to-point lane. `Full` hands the value
    /// back: the sender waits until a receive has made room.
    pub fn send(&mut self, message: SM) -> (r: Result<(), SendError<SM>>)
        requires
            old(self)@.wf(),
        ensures
            final(self)@.wf(),
            final(self)@ == (ChannelView { lane: old(self)@.lane.send(message).0, ..old(self)@ }),
            match r {
                Ok(_) => old(self)@.lane.send(message).1 == SendOutcome::Sent,
                Err(SendError::Full(m)) => old(self)@.lane.send(message).1 == SendOutcome::Full
                    && m == message,
                Err(SendError::Closed(m)) => old(self)@.lane.send(message).1
                    == SendOutcome::Closed && m == message,
            },
    {
        let r = self.lane.send(message);
        assert(self@.receivers =~= old(self)@.receivers);
        r
    }

    /// Receives the oldest value of the point-to-point lane.
    pub fn recv(&mut self) -> (r: Result<SM, RecvError>)
        requires
            old(self)@.wf(),
        ensures
            final(self)@.wf(),
            final(self)@ == (ChannelView { lane: old(self)@.lane.recv().0, ..old(self)@ }),
            r == old(self)@.lane.recv().1,
    {
        let r = self.lane.recv();
        assert(self@.receivers =~= old(self)@.receivers);
        r
    }

    /// Closes the point-to-point lane.
    pub fn close(&mut self)
        ensures
            final(self)@ == (ChannelView {
                lane: LaneView { closed: true, ..old(self)@.lane },
                ..old(self)@
            }),
    {
        self.lane.close();
        assert(self@.receivers =~= old(self)@.receivers);
    }
}

/// With nobody subscribed, a publish can only leave every receiver as it is:
/// the value is kept for nobody, so that whoever subscribes later finds
/// nothing pending.
pub proof fn lemma_publish_unobserved<BM: Clone>(
    receivers: Seq<ReceiverView<BM>>,
    after: Seq<ReceiverView<BM>>,
    message: BM,
)
    requires
        count_in(receivers, ReceiverState::Live) == 0,
        count_in(receivers, ReceiverState::Dropped) == 0,
        after.len() == receivers.len(),
        forall|i: int|
            0 <= i < receivers.len() ==> published_to(receivers[i], #[trigger] after[i], message),
    ensures
        after == receivers,
    decreases receivers.len(),
{
    if receivers.len() > 0 {
        lemma_publish_unobserved(receivers.drop_last(), after.drop_last(), message);
        assert(published_to(receivers.last(), after.last(), message));
        assert(after =~= after.drop_last().push(after.last()));
        assert(receivers =~= receivers.drop_last().push(receivers.last()));
    } else {
        assert(after =~= receivers);
    }
}

} // verus!
