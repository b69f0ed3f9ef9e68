//! The typed bus: a registry of named topics.
//!
//! A topic is bound, when it is first used, to the name of one payload type
//! and to the lane that carries its values. Who asks for a topic says which
//! type it expects. Where that is not the type the topic is bound to, the
//! answer is a mismatch, and the binding is removed: later lookups then fail
//! at once instead of handing values of one type to readers of another.

use crate::com::{Lane, LaneView, RecvError, SendError, SendOutcome};
use vstd::hash_map::StringHashMap;
use vstd::prelude::*;

verus! {

/// What a topic is bound to.
struct Binding {
    type_tag: String,
    lane: usize,
}

/// A binding as plain values.
pub ghost struct BindingView {
    /// The name of the payload type.
    pub type_tag: Seq<char>,
    /// The number of the lane that carries the topic's values.
    pub lane: nat,
}

impl View for Binding {
    type V = BindingView;

    closed spec fn view(&self) -> BindingView {
        BindingView { type_tag: self.type_tag@, lane: self.lane as nat }
    }
}

/// Why a lookup failed.
#[derive(Debug, Clone, PartialEq, Eq)]
pub enum BusError {
    /// The topic is bound to nothing.
    NoSuchTopic,
    /// The topic was bound to the type `expected`, not to `supplied`.
    TypeMismatch { expected: String, supplied: String },
    /// There is no lane of that number.
    NoSuchLane,
}

/// A `BusError` as plain values.
pub ghost enum BusErrorView {
    NoSuchTopic,
    TypeMismatch { expected: Seq<char>, supplied: Seq<char> },
    NoSuchLane,
}

impl View for BusError {
    type V = BusErrorView;

    open spec fn view(&self) -> BusErrorView {
        match self {
            BusError::NoSuchTopic => BusErrorView::NoSuchTopic,
            BusError::TypeMismatch { expected, supplied } => BusErrorView::TypeMismatch {
                expected: expected@,
                supplied: supplied@,
            },
            BusError::NoSuchLane => BusErrorView::NoSuchLane,
        }
    }
}

/// Why a value was not published. The value comes back.
pub enum PublishError<P> {
    /// The lookup of the topic failed.
    Lookup(BusError, P),
    /// The topic's lane is full: the publisher waits and tries again.
    Full(P),
    /// The topic's lane is closed.
    Closed(P),
}

/// The registry of topics, with the lanes that carry their values of the
/// payload type `P`.
pub struct Bus<P> {
    bindings: StringHashMap<Binding>,
    lanes: Vec<Lane<P>>,
    capacity: usize,
}

/// A `Bus` as plain values.
pub ghost struct BusView<P> {
    /// The bindings, by topic name.
    pub bindings: Map<Seq<char>, BindingView>,
    /// The lanes, by number.
    pub lanes: Seq<LaneView<P>>,
    /// The capacity of every lane that `subscribe` makes.
    pub capacity: nat,
}

impl<P> BusView<P> {
    /// Every lane is well formed, and new lanes can be.
    pub open spec fn wf(self) -> bool {
        &&& self.capacity > 0
        &&& forall|i: int| 0 <= i < self.lanes.len() ==> (#[trigger] self.lanes[i]).wf()
    }

    /// What `register` does: the bus afterwards, and the type that the topic
    /// was bound to before, where that was another one.
    pub open spec fn register(self, topic: Seq<char>, type_tag: Seq<char>, lane: nat) -> (
        Self,
        Option<Seq<char>>,
    ) {
        (
            BusView { bindings: self.bindings.insert(topic, BindingView { type_tag, lane }), ..self },
            if self.bindings.contains_key(topic) && self.bindings[topic].type_tag != type_tag {
                Some(self.bindings[topic].type_tag)
            } else {
                None
            },
        )
    }

    /// What `get` does: the bus afterwards, and the answer. A mismatch removes
    /// the binding.
    pub open spec fn get(self, topic: Seq<char>, type_tag: Seq<char>) -> (
        Self,
        Result<nat, BusErrorView>,
    ) {
        if !self.bindings.contains_key(topic) {
            (self, Err(BusErrorView::NoSuchTopic))
        } else if self.bindings[topic].type_tag == type_tag {
            (self, Ok(self.bindings[topic].lane))
        } else {
            (
                BusView { bindings: self.bindings.remove(topic), ..self },
                Err(
                    BusErrorView::TypeMismatch {
                        expected: self.bindings[topic].type_tag,
                        supplied: type_tag,
                    },
                ),
            )
        }
    }

    /// What `subscribe` does: the bus afterwards, and the number of the new
    /// lane. The topic is bound to the new lane, whatever it was bound to.
    pub open spec fn subscribe(self, topic: Seq<char>, type_tag: Seq<char>) -> (Self, nat) {
        (
            BusView {
                bindings: self.bindings.insert(
                    topic,
                    BindingView { type_tag, lane: self.lanes.len() },
                ),
                lanes: self.lanes.push(LaneView::empty(self.capacity)),
                ..self
            },
            self.lanes.len(),
        )
    }
}

impl<P> View for Bus<P> {
    type V = BusView<P>;

    closed spec fn view(&self) -> BusView<P> {
        BusView {
            bindings: self.bindings@.map_values(|b: Binding| b@),
            lanes: Seq::new(self.lanes@.len(), |i: int| self.lanes@[i]@),
            capacity: self.capacity as nat,
        }
    }
}

impl<P> Bus<P> {
    /// A bus without topics and without lanes. Each lane that `subscribe`
    /// makes has room for `capacity` values.
    pub fn new(capacity: usize) -> (bus: Self)
        requires
            capacity > 0,
        ensures
            bus@.wf(),
            bus@.bindings == Map::<Seq<char>, BindingView>::empty(),
            bus@.lanes == Seq::<LaneView<P>>::empty(),
            bus@.capacity == capacity,
    {
        let bus = Bus { bindings: StringHashMap::new(), lanes: Vec::new(), capacity };
        assert(bus@.bindings =~= Map::<Seq<char>, BindingView>::empty());
        assert(bus@.lanes =~= Seq::<LaneView<P>>::empty());
        bus
    }

    /// Binds `topic` to the payload type `type_tag` and to the lane `lane`,
    /// in place of what it was bound to. Where that was another type, its name
    /// is returned, for the caller to warn of it.
    pub fn register(&mut self, topic: &str, type_tag: &str, lane: usize) -> (r: Result<
        Option<String>,
        BusError,
    >)
        ensures
            match r {
                Ok(previous) => lane < old(self)@.lanes.len() && final(self)@ == old(self)@.register(
                    topic@,
                    type_tag@,
                    lane as nat,
                ).0 && match previous {
                    Some(name) => old(self)@.register(topic@, type_tag@, lane as nat).1 == Some(
                        name@,
                    ),
                    None => old(self)@.register(topic@, type_tag@, lane as nat).1 is None,
                },
                Err(e) => e == BusError::NoSuchLane && lane >= old(self)@.lanes.len() && final(self)@
                    == old(self)@,
            },
    {
        if lane >= self.lanes.len() {
            return Err(BusError::NoSuchLane);
        }
        let wanted = type_tag.to_owned();
        let previous = match self.bindings.get(topic) {
            Some(binding) => {
                if binding.type_tag == wanted {
                    None
                } else {
                    Some(binding.type_tag.clone())
                }
            },
            None => None,
        };
        self.bindings.insert(topic.to_owned(), Binding { type_tag: wanted, lane });
        assert(self@.bindings =~= old(self)@.bindings.insert(
            topic@,
            BindingView { type_tag: type_tag@, lane: lane as nat },
        ));
        Ok(previous)
    }

    /// Looks `topic` up for a caller that expects the payload type
    /// `type_tag`, and returns the number of the topic's lane. Where the
    /// topic is bound to another type, the answer names both types, and the
    /// binding is removed.
    pub fn get(&mut self, topic: &str, type_tag: &str) -> (r: Result<usize, BusError>)
        ensures
            final(self)@ == old(self)@.get(topic@, type_tag@).0,
            match r {
                Ok(lane) => old(self)@.get(topic@, type_tag@).1 == Ok::<nat, BusErrorView>(
                    lane as nat,
                ),
                Err(e) => old(self)@.get(topic@, type_tag@).1 == Err::<nat, BusErrorView>(e@),
            },
    {
        let supplied = type_tag.to_owned();
        let found = match self.bindings.get(topic) {
            Some(binding) => {
                if binding.type_tag == supplied {
                    Some(Ok(binding.lane))
                } else {
                    Some(Err(binding.type_tag.clone()))
                }
            },
            None => None,
        };
        match found {
            None => Err(BusError::NoSuchTopic),
            Some(Ok(lane)) => Ok(lane),
            Some(Err(expected)) => {
                self.bindings.remove(topic);
                assert(self@.bindings =~= old(self)@.bindings.remove(topic@));
                Err(BusError::TypeMismatch { expected, supplied })
            },
        }
    }

    /// Makes a new lane, binds `topic` to it for the payload type
    /// `type_tag`, and returns the lane's number: the receiving end of the
    /// subscription. A lane that the topic was bound to before stays, with what
    /// is pending in it, but gets no further value of the topic.
    pub fn subscribe(&mut self, topic: &str, type_tag: &str) -> (lane: usize)
        requires
            old(self)@.wf(),
        ensures
            final(self)@.wf(),
            (final(self)@, lane as nat) == old(self)@.subscribe(topic@, type_tag@),
    {
        let lane = self.lanes.len();
        self.lanes.push(Lane::new(self.capacity));
        self.bindings.insert(topic.to_owned(), Binding { type_tag: type_tag.to_owned(), lane });
        assert(self@.lanes =~= old(self)@.lanes.push(LaneView::empty(self.capacity as nat)));
        assert(self@.bindings =~= old(self)@.bindings.insert(
            topic@,
            BindingView { type_tag: type_tag@, lane: lane as nat },
        ));
        lane
    }

    /// Sends `value` into the lane `lane`.
    pub fn send(&mut self, lane: usize, value: P) -> (r: Result<(), SendError<P>>)
        requires
            old(self)@.wf(),
        ensures
            final(self)@.wf(),
            final(self)@.bindings == old(self)@.bindings,
            final(self)@.capacity == old(self)@.capacity,
            lane >= old(self)@.lanes.len() ==> final(self)@ == old(self)@ && r
                == Err::<(), SendError<P>>(SendError::Closed(value)),
            lane < old(self)@.lanes.len() ==> final(self)@.lanes == old(self)@.lanes.update(
                lane as int,
                old(self)@.lanes[lane as int].send(value).0,
            ) && match r {
                Ok(_) => old(self)@.lanes[lane as int].send(value).1 == SendOutcome::Sent,
                Err(SendError::Full(v)) => old(self)@.lanes[lane as int].send(value).1
                    == SendOutcome::Full && v == value,
                Err(SendError::Closed(v)) => old(self)@.lanes[lane as int].send(value).1
                    == SendOutcome::Closed && v == value,
            },
    {
        if lane >= self.lanes.len() {
            return Err(SendError::Closed(value));
        }
        assert(self@.lanes[lane as int].wf());
        let r = self.lanes[lane].send(value);
        assert(self@.lanes =~= old(self)@.lanes.update(
            lane as int,
            old(self)@.lanes[lane as int].send(value).0,
        ));
        assert forall|i: int| 0 <= i < self@.lanes.len() implies (#[trigger] self@.lanes[i]).wf() by {
            if i != lane {
                assert(self@.lanes[i] == old(self)@.lanes[i]);
            }
        }
        r
    }

    /// Receives the oldest value of the lane `lane`.
    pub fn receive(&mut self, lane: usize) -> (r: Result<P, RecvError>)
        requires
            old(self)@.wf(),
        ensures
            final(self)@.wf(),
            final(self)@.bindings == old(self)@.bindings,
            final(self)@.capacity == old(self)@.capacity,
            lane >= old(self)@.lanes.len() ==> final(self)@ == old(self)@ && r == Err::<
                P,
                RecvError,
            >(RecvError::Closed),
            lane < old(self)@.lanes.len() ==> final(self)@.lanes == old(self)@.lanes.update(
                lane as int,
                old(self)@.lanes[lane as int].recv().0,
            ) && r == old(self)@.lanes[lane as int].recv().1,
    {
        if lane >= self.lanes.len() {
            return Err(RecvError::Closed);
        }
        assert(self@.lanes[lane as int].wf());
        let r = self.lanes[lane].recv();
        assert(self@.lanes =~= old(self)@.lanes.update(
            lane as int,
            old(self)@.lanes[lane as int].recv().0,
        ));
        assert forall|i: int| 0 <= i < self@.lanes.len() implies (#[trigger] self@.lanes[i]).wf() by {
            if i != lane {
                assert(self@.lanes[i] == old(self)@.lanes[i]);
            }
        }
        r
    }

    /// Publishes `value` on `topic` as a value of the payload type
    /// `type_tag`: looks the topic up, and sends the value into its lane.
    pub fn publish(&mut self, topic: &str, type_tag: &str, value: P) -> (r: Result<
        (),
        PublishError<P>,
    >)
        requires
            old(self)@.wf(),
        ensures
            final(self)@.wf(),
            match r {
                Ok(_) => {
                    &&& old(self)@.get(topic@, type_tag@).1 matches Ok(lane)
                    &&& lane < old(self)@.lanes.len()
                    &&& old(self)@.lanes[lane as int].send(value).1 == SendOutcome::Sent
                    &&& final(self)@ == (BusView {
                        lanes: old(self)@.lanes.update(
                            lane as int,
                            old(self)@.lanes[lane as int].send(value).0,
                        ),
                        ..old(self)@
                    })
                },
                Err(PublishError::Lookup(e, v)) => {
                    &&& v == value
                    &&& old(self)@.get(topic@, type_tag@).1 == Err::<nat, BusErrorView>(e@)
                    &&& final(self)@ == old(self)@.get(topic@, type_tag@).0
                },
                Err(PublishError::Full(v)) => {
                    &&& v == value
                    &&& final(self)@ == old(self)@
                    &&& old(self)@.get(topic@, type_tag@).1 matches Ok(lane)
                    &&& lane < old(self)@.lanes.len()
                    &&& old(self)@.lanes[lane as int].send(value).1 == SendOutcome::Full
                },
                Err(PublishError::Closed(v)) => {
                    &&& v == value
                    &&& final(self)@ == old(self)@
                    &&& old(self)@.get(topic@, type_tag@).1 matches Ok(lane)
                    &&& lane < old(self)@.lanes.len() ==> old(self)@.lanes[lane as int].send(
                        value,
                    ).1 == SendOutcome::Closed
                },
            },
    {
        match self.get(topic, type_tag) {
            Err(e) => Err(PublishError::Lookup(e, value)),
            Ok(lane) => {
                let ghost lanes = self@.lanes;
                match self.send(lane, value) {
                    Ok(_) => Ok(()),
                    Err(SendError::Full(v)) => {
                        assert(self@.lanes =~= lanes);
                        Err(PublishError::Full(v))
                    },
                    Err(SendError::Closed(v)) => {
                        assert(self@.lanes =~= lanes);
                        Err(PublishError::Closed(v))
                    },
                }
            },
        }
    }

    /// Closes the lane `lane`, as its receiver does when it gives the
    /// subscription up: the lane accepts no further value. Where there is no
    /// such lane, nothing changes.
    pub fn close_lane(&mut self, lane: usize)
        requires
            old(self)@.wf(),
        ensures
            final(self)@.wf(),
            final(self)@.bindings == old(self)@.bindings,
            final(self)@.capacity == old(self)@.capacity,
            lane >= old(self)@.lanes.len() ==> final(self)@ == old(self)@,
            lane < old(self)@.lanes.len() ==> final(self)@.lanes == old(self)@.lanes.update(
                lane as int,
                LaneView { closed: true, ..old(self)@.lanes[lane as int] },
            ),
    {
        if lane < self.lanes.len() {
            assert(self@.lanes[lane as int].wf());
            self.lanes[lane].close();
            assert(self@.lanes =~= old(self)@.lanes.update(
                lane as int,
                LaneView { closed: true, ..old(self)@.lanes[lane as int] },
            ));
            assert forall|i: int| 0 <= i < self@.lanes.len() implies (#[trigger] self@.lanes[i]).wf() by {
                if i != lane {
                    assert(self@.lanes[i] == old(self)@.lanes[i]);
                }
            }
        }
    }

    /// The number of lanes made so far.
    pub fn lane_count(&self) -> (n: usize)
        ensures
            n == self@.lanes.len(),
    {
        self.lanes.len()
    }
}

/// A mismatch is loud and final: once a topic was subscribed for the type
/// `a`, a lookup for another type `b` answers with a mismatch that names both,
/// and removes the binding, so that a later lookup for `a` finds no such
/// topic.
pub proof fn lemma_mismatch_evicts<P>(
    bus: BusView<P>,
    topic: Seq<char>,
    a: Seq<char>,
    b: Seq<char>,
)
    requires
        a != b,
    ensures
        ({
            let subscribed = bus.subscribe(topic, a).0;
            let asked = subscribed.get(topic, b);
            &&& asked.1 == Err::<nat, BusErrorView>(
                BusErrorView::TypeMismatch { expected: a, supplied: b },
            )
            &&& !asked.0.bindings.contains_key(topic)
            &&& asked.0.get(topic, a) == (asked.0, Err::<nat, BusErrorView>(BusErrorView::NoSuchTopic))
            &&& asked.0.lanes == subscribed.lanes
        }),
{
}

/// A lookup for the type that a topic was subscribed for answers with the
/// lane of the last subscription, and changes nothing.
pub proof fn lemma_last_subscriber_wins<P>(
    bus: BusView<P>,
    topic: Seq<char>,
    first: Seq<char>,
    second: Seq<char>,
)
    ensures
        ({
            let one = bus.subscribe(topic, first);
            let two = one.0.subscribe(topic, second);
            &&& two.1 == one.1 + 1
            &&& two.0.get(topic, second) == (two.0, Ok::<nat, BusErrorView>(two.1))
            &&& two.0.lanes[one.1 as int] == one.0.lanes[one.1 as int]
        }),
{
}

} // verus!
