//! The loopback queue: delivery of a message that a participant sends to
//! itself, without the network.
//!
//! Messages wait under a key made of the address and the kind of the
//! message. Under one key they leave in the order in which they came; what
//! waits under one key never holds back or reorders what waits under
//! another.

use vstd::prelude::*;
use vstd::std_specs::cmp::PartialEqSpecImpl;
use crate::address::AccountAddress;
use crate::error::LoopbackError;
use crate::message::{ConsensusMsg, MsgKind, MsgView};

verus! {

/// The key under which a message waits: the participant it is for, and its
/// kind.
#[derive(Clone, Copy, Debug)]
pub struct LoopbackKey {
    pub address: AccountAddress,
    pub kind: MsgKind,
}

impl PartialEq for LoopbackKey {
    fn eq(&self, other: &Self) -> (same: bool) {
        self.address == other.address && self.kind == other.kind
    }
}

impl PartialEqSpecImpl for LoopbackKey {
    open spec fn obeys_eq_spec() -> bool {
        true
    }

    open spec fn eq_spec(&self, other: &Self) -> bool {
        *self == *other
    }
}

impl Eq for LoopbackKey {}

impl LoopbackKey {
    /// The key of a message for a participant. It depends on the address
    /// and on the variant of the message, not on the payload.
    pub open spec fn spec_of(address: AccountAddress, msg: MsgView) -> LoopbackKey {
        LoopbackKey { address, kind: msg.kind }
    }

    /// The key of a message for a participant.
    pub fn of(address: AccountAddress, msg: &ConsensusMsg) -> (key: LoopbackKey)
        ensures
            key == LoopbackKey::spec_of(address, msg@),
    {
        LoopbackKey { address, kind: msg.kind() }
    }
}

/// A message in the queue, with the key it waits under.
pub struct Queued {
    pub key: LoopbackKey,
    pub msg: MsgView,
}

/// The messages that wait under a key, oldest first, among the queued
/// messages in their order of arrival.
pub open spec fn lane(queued: Seq<Queued>, key: LoopbackKey) -> Seq<MsgView>
    decreases queued.len(),
{
    if queued.len() == 0 {
        Seq::empty()
    } else if queued.last().key == key {
        lane(queued.drop_last(), key).push(queued.last().msg)
    } else {
        lane(queued.drop_last(), key)
    }
}

/// Whether a place holds the oldest message that waits under a key.
pub open spec fn is_front(queued: Seq<Queued>, key: LoopbackKey, place: int) -> bool {
    &&& 0 <= place < queued.len()
    &&& queued[place].key == key
    &&& forall|j: int| 0 <= j < place ==> (#[trigger] queued[j]).key != key
}

/// The place of the oldest message that waits under a key, where one does.
pub open spec fn front_place(queued: Seq<Queued>, key: LoopbackKey) -> int {
    choose|place: int| is_front(queued, key, place)
}

/// A lane has one front at most.
pub proof fn lemma_front_unique(queued: Seq<Queued>, key: LoopbackKey, place: int)
    requires
        is_front(queued, key, place),
    ensures
        front_place(queued, key) == place,
{
    let other = front_place(queued, key);
    assert(is_front(queued, key, other));
    if other < place {
        assert(queued[other].key != key);
    } else if place < other {
        assert(queued[place].key != key);
    }
}

/// A lane in which a message waits has a front.
pub proof fn lemma_lane_has_front(queued: Seq<Queued>, key: LoopbackKey)
    requires
        lane(queued, key).len() > 0,
    ensures
        is_front(queued, key, front_place(queued, key)),
    decreases queued.len(),
{
    if queued.len() > 0 {
        let front = queued.drop_last();
        if lane(front, key).len() > 0 {
            lemma_lane_has_front(front, key);
            let place = front_place(front, key);
            assert(is_front(queued, key, place)) by {
                assert(queued[place] == front[place]);
                assert forall|j: int| 0 <= j < place implies (#[trigger] queued[j]).key
                    != key by {
                    assert(queued[j] == front[j]);
                }
            }
        } else {
            let place = queued.len() - 1;
            assert(is_front(queued, key, place)) by {
                assert forall|j: int| 0 <= j < place implies (#[trigger] queued[j]).key
                    != key by {
                    if queued[j].key == key {
                        lemma_lane_member(front, key, j);
                    }
                }
            }
        }
    }
}

/// A queued message with a key waits in the lane of that key.
pub proof fn lemma_lane_member(queued: Seq<Queued>, key: LoopbackKey, place: int)
    requires
        0 <= place < queued.len(),
        queued[place].key == key,
    ensures
        lane(queued, key).len() > 0,
    decreases queued.len(),
{
    if place < queued.len() - 1 {
        lemma_lane_member(queued.drop_last(), key, place);
    }
}

/// A message that arrives joins the end of its own lane and no other.
pub proof fn lemma_lane_push(queued: Seq<Queued>, arrival: Queued, key: LoopbackKey)
    ensures
        lane(queued.push(arrival), key) == if arrival.key == key {
            lane(queued, key).push(arrival.msg)
        } else {
            lane(queued, key)
        },
{
    assert(queued.push(arrival).drop_last() =~= queued);
}

/// Where no queued message has a key, nothing waits under it.
pub proof fn lemma_lane_empty(queued: Seq<Queued>, key: LoopbackKey)
    requires
        forall|j: int| 0 <= j < queued.len() ==> (#[trigger] queued[j]).key != key,
    ensures
        lane(queued, key) == Seq::<MsgView>::empty(),
    decreases queued.len(),
{
    if queued.len() > 0 {
        lemma_lane_empty(queued.drop_last(), key);
    }
}

/// Taking out the oldest message of a lane shortens that lane at its front
/// by that message.
pub proof fn lemma_lane_take_front(queued: Seq<Queued>, key: LoopbackKey, place: int)
    requires
        is_front(queued, key, place),
    ensures
        lane(queued, key).len() > 0,
        lane(queued, key)[0] == queued[place].msg,
        lane(queued.remove(place), key) == lane(queued, key).drop_first(),
    decreases queued.len(),
{
    let last = queued.len() - 1;
    if place == last {
        assert(queued.remove(place) =~= queued.drop_last());
        lemma_lane_empty(queued.drop_last(), key);
        assert(lane(queued, key) =~= seq![queued[place].msg]);
        assert(lane(queued, key).drop_first() =~= Seq::<MsgView>::empty());
    } else {
        let front = queued.drop_last();
        assert(is_front(front, key, place)) by {
            assert forall|j: int| 0 <= j < place implies (#[trigger] front[j]).key != key by {
                assert(front[j] == queued[j]);
            }
        }
        lemma_lane_take_front(front, key, place);
        assert(queued.remove(place).drop_last() =~= front.remove(place));
        assert(queued.remove(place).last() == queued.last());
        if queued.last().key == key {
            assert(lane(front, key).push(queued.last().msg).drop_first() =~= lane(
                front,
                key,
            ).drop_first().push(queued.last().msg));
        }
    }
}

/// Taking a message out leaves every lane but its own as it was.
pub proof fn lemma_lane_take_other(queued: Seq<Queued>, place: int, key: LoopbackKey)
    requires
        0 <= place < queued.len(),
        queued[place].key != key,
    ensures
        lane(queued.remove(place), key) == lane(queued, key),
    decreases queued.len(),
{
    let last = queued.len() - 1;
    if place == last {
        assert(queued.remove(place) =~= queued.drop_last());
    } else {
        let front = queued.drop_last();
        lemma_lane_take_other(front, place, key);
        assert(queued.remove(place).drop_last() =~= front.remove(place));
        assert(queued.remove(place).last() == queued.last());
    }
}

/// What the queue is to a specification.
pub struct LoopbackView {
    /// Whether the queue has been torn down.
    pub closed: bool,
    /// The queued messages of all keys, in their order of arrival.
    pub queued: Seq<Queued>,
}

impl LoopbackView {
    /// The messages that wait under a key, oldest first.
    pub open spec fn waiting(self, key: LoopbackKey) -> Seq<MsgView> {
        lane(self.queued, key)
    }

    /// The state after a message for a participant was offered: queued
    /// under its key, unless the queue is closed.
    pub open spec fn after_push(self, address: AccountAddress, msg: MsgView) -> LoopbackView {
        if self.closed {
            self
        } else {
            LoopbackView {
                queued: self.queued.push(Queued { key: LoopbackKey::spec_of(address, msg), msg }),
                ..self
            }
        }
    }

    /// What offering a message reports: success on an open queue, the
    /// failure on one that has been torn down.
    pub open spec fn push_result(self) -> Result<(), LoopbackError> {
        if self.closed {
            Err(LoopbackError::Closed)
        } else {
            Ok(())
        }
    }

    /// The state after the oldest message under a key was taken out, if one
    /// waits there.
    pub open spec fn after_pop(self, key: LoopbackKey) -> LoopbackView {
        if self.waiting(key).len() > 0 {
            LoopbackView { queued: self.queued.remove(front_place(self.queued, key)), ..self }
        } else {
            self
        }
    }
}

/// A message on its way into the queue, with the participant it is for.
pub struct Arrival {
    pub address: AccountAddress,
    pub msg: MsgView,
}

/// The messages among the arrivals that belong under a key, in the order
/// of the arrivals.
pub open spec fn arrivals_under(arrivals: Seq<Arrival>, key: LoopbackKey) -> Seq<MsgView>
    decreases arrivals.len(),
{
    if arrivals.len() == 0 {
        Seq::empty()
    } else if LoopbackKey::spec_of(arrivals.last().address, arrivals.last().msg) == key {
        arrivals_under(arrivals.drop_last(), key).push(arrivals.last().msg)
    } else {
        arrivals_under(arrivals.drop_last(), key)
    }
}

impl LoopbackView {
    /// The state after the arrivals were offered one after the other.
    pub open spec fn after_pushes(self, arrivals: Seq<Arrival>) -> LoopbackView
        decreases arrivals.len(),
    {
        if arrivals.len() == 0 {
            self
        } else {
            self.after_pushes(arrivals.drop_last()).after_push(
                arrivals.last().address,
                arrivals.last().msg,
            )
        }
    }

    /// The state after the oldest message under a key was taken out a
    /// number of times.
    pub open spec fn after_pops(self, key: LoopbackKey, times: nat) -> LoopbackView
        decreases times,
    {
        if times == 0 {
            self
        } else {
            self.after_pops(key, (times - 1) as nat).after_pop(key)
        }
    }
}

/// An open queue keeps the order of arrival under every key: after any
/// arrivals, of whatever kinds and for whatever participants, there wait
/// under a key the messages that waited there before, and behind them the
/// arrivals of that key in the order in which they came.
pub proof fn lemma_arrival_order_kept(state: LoopbackView, arrivals: Seq<Arrival>, key: LoopbackKey)
    requires
        !state.closed,
    ensures
        !state.after_pushes(arrivals).closed,
        state.after_pushes(arrivals).waiting(key) == state.waiting(key) + arrivals_under(
            arrivals,
            key,
        ),
    decreases arrivals.len(),
{
    if arrivals.len() == 0 {
        assert(state.waiting(key) + arrivals_under(arrivals, key) =~= state.waiting(key));
    } else {
        let front = arrivals.drop_last();
        let last = arrivals.last();
        lemma_arrival_order_kept(state, front, key);
        let middle = state.after_pushes(front);
        let arrival = Queued { key: LoopbackKey::spec_of(last.address, last.msg), msg: last.msg };
        lemma_lane_push(middle.queued, arrival, key);
        if arrival.key == key {
            let waited = state.waiting(key);
            let came = arrivals_under(front, key);
            assert((waited + came).push(last.msg) =~= waited + came.push(last.msg));
        }
    }
}

/// A queue that has been torn down takes nothing, whatever arrives.
pub proof fn lemma_closed_takes_nothing(state: LoopbackView, arrivals: Seq<Arrival>)
    requires
        state.closed,
    ensures
        state.after_pushes(arrivals) == state,
    decreases arrivals.len(),
{
    if arrivals.len() > 0 {
        lemma_closed_takes_nothing(state, arrivals.drop_last());
    }
}

/// One take under a key gives the oldest message there, shortens that lane
/// by it, and leaves every other lane as it was.
pub proof fn lemma_pop_takes_front(state: LoopbackView, key: LoopbackKey, other: LoopbackKey)
    requires
        state.waiting(key).len() > 0,
    ensures
        is_front(state.queued, key, front_place(state.queued, key)),
        state.queued[front_place(state.queued, key)].msg == state.waiting(key)[0],
        state.after_pop(key).waiting(key) == state.waiting(key).drop_first(),
        other != key ==> state.after_pop(key).waiting(other) == state.waiting(other),
{
    lemma_lane_has_front(state.queued, key);
    let place = front_place(state.queued, key);
    lemma_lane_take_front(state.queued, key, place);
    if other != key {
        lemma_lane_take_other(state.queued, place, other);
    }
}

/// The consumer of a key sees its messages in the order in which they
/// came: after a number of takes under the key, the lane is what it was
/// without that many of its oldest messages, so that the next take gives
/// the next message. The lanes of the other keys are as they were.
pub proof fn lemma_taken_in_order(
    state: LoopbackView,
    key: LoopbackKey,
    times: nat,
    other: LoopbackKey,
)
    requires
        times <= state.waiting(key).len(),
    ensures
        state.after_pops(key, times).waiting(key) == state.waiting(key).skip(times as int),
        other != key ==> state.after_pops(key, times).waiting(other) == state.waiting(other),
    decreases times,
{
    if times == 0 {
        assert(state.waiting(key).skip(0) =~= state.waiting(key));
    } else {
        let earlier = (times - 1) as nat;
        lemma_taken_in_order(state, key, earlier, other);
        let middle = state.after_pops(key, earlier);
        assert(middle.waiting(key).len() > 0);
        lemma_pop_takes_front(middle, key, other);
        assert(state.waiting(key).skip(earlier as int).drop_first() =~= state.waiting(key).skip(
            times as int,
        ));
    }
}

/// A message that waits in the queue, with its key.
struct Entry {
    key: LoopbackKey,
    msg: ConsensusMsg,
}

/// The queue of the messages that participants of this node send to
/// themselves.
pub struct LoopbackQueue {
    closed: bool,
    entries: Vec<Entry>,
}

/// The queued messages that the entries stand for, in the same order.
spec fn queued_of(entries: Seq<Entry>) -> Seq<Queued> {
    Seq::new(entries.len(), |i: int| Queued { key: entries[i].key, msg: entries[i].msg@ })
}

impl View for LoopbackQueue {
    type V = LoopbackView;

    closed spec fn view(&self) -> LoopbackView {
        LoopbackView { closed: self.closed, queued: queued_of(self.entries@) }
    }
}

impl LoopbackQueue {
    /// An open queue in which nothing waits.
    pub fn new() -> (queue: LoopbackQueue)
        ensures
            queue@ == (LoopbackView { closed: false, queued: Seq::empty() }),
    {
        let queue = LoopbackQueue { closed: false, entries: Vec::new() };
        assert(queue@.queued =~= Seq::empty());
        queue
    }

    /// Tears the queue down: from now on it takes no message. What waits in
    /// it can still be taken out.
    pub fn close(&mut self)
        ensures
            final(self)@ == (LoopbackView { closed: true, ..old(self)@ }),
    {
        self.closed = true;
    }

    /// Whether the queue has been torn down.
    pub fn is_closed(&self) -> (closed: bool)
        ensures
            closed == self@.closed,
    {
        self.closed
    }

    /// The number of messages that wait, under all keys together.
    pub fn len(&self) -> (n: usize)
        ensures
            n == self@.queued.len(),
    {
        self.entries.len()
    }

    /// Queues a message for a participant under the key of its address and
    /// kind. A queue that has been torn down takes nothing and says so.
    pub fn push(&mut self, address: AccountAddress, msg: ConsensusMsg) -> (queued: Result<
        (),
        LoopbackError,
    >)
        ensures
            final(self)@ == old(self)@.after_push(address, msg@),
            queued == old(self)@.push_result(),
    {
        if self.closed {
            return Err(LoopbackError::Closed);
        }
        let key = LoopbackKey::of(address, &msg);
        self.entries.push(Entry { key, msg });
        assert(queued_of(self.entries@) =~= old(self)@.queued.push(Queued { key, msg: msg@ }));
        Ok(())
    }

    /// The place of the oldest message that waits under a key, if one does.
    fn front(&self, key: &LoopbackKey) -> (place: Option<usize>)
        ensures
            match place {
                Some(i) => is_front(self@.queued, *key, i as int),
                None => self@.waiting(*key).len() == 0,
            },
    {
        let mut i: usize = 0;
        while i < self.entries.len()
            invariant
                i <= self.entries@.len(),
                forall|j: int| 0 <= j < i ==> (#[trigger] self@.queued[j]).key != *key,
            decreases self.entries@.len() - i,
        {
            if self.entries[i].key == *key {
                return Some(i);
            }
            i += 1;
        }
        proof {
            lemma_lane_empty(self@.queued, *key);
        }
        None
    }

    /// The number of messages that wait under a key.
    pub fn waiting(&self, key: &LoopbackKey) -> (n: usize)
        ensures
            n == self@.waiting(*key).len(),
    {
        let mut n: usize = 0;
        let mut i: usize = 0;
        while i < self.entries.len()
            invariant
                i <= self.entries@.len(),
                n <= i,
                n == lane(self@.queued.subrange(0, i as int), *key).len(),
            decreases self.entries@.len() - i,
        {
            proof {
                let next = self@.queued.subrange(0, i + 1);
                assert(next.drop_last() =~= self@.queued.subrange(0, i as int));
                assert(next.last() == self@.queued[i as int]);
            }
            if self.entries[i].key == *key {
                n += 1;
            }
            i += 1;
        }
        assert(self@.queued.subrange(0, i as int) =~= self@.queued);
        n
    }

    /// Takes out the oldest message that waits under a key. The messages
    /// under the other keys stay as they are, and so does their order.
    pub fn pop(&mut self, key: &LoopbackKey) -> (msg: Option<ConsensusMsg>)
        ensures
            final(self)@ == old(self)@.after_pop(*key),
            match msg {
                Some(m) => {
                    &&& old(self)@.waiting(*key).len() > 0
                    &&& m@ == old(self)@.waiting(*key)[0]
                    &&& final(self)@.waiting(*key) == old(self)@.waiting(*key).drop_first()
                },
                None => old(self)@.waiting(*key).len() == 0,
            },
            forall|other: LoopbackKey|
                other != *key ==> #[trigger] final(self)@.waiting(other) == old(self)@.waiting(
                    other,
                ),
    {
        let ghost before = self@.queued;
        match self.front(key) {
            None => None,
            Some(i) => {
                let entry = self.entries.remove(i);
                proof {
                    assert(self@.queued =~= before.remove(i as int));
                    lemma_front_unique(before, *key, i as int);
                    lemma_lane_take_front(before, *key, i as int);
                    assert forall|other: LoopbackKey| other != *key implies #[trigger] lane(
                        before.remove(i as int),
                        other,
                    ) == lane(before, other) by {
                        lemma_lane_take_other(before, i as int, other);
                    }
                }
                Some(entry.msg)
            },
        }
    }
}

} // verus!
