//! The RPC correlator: which outcome belongs to which request.
//!
//! Every request that is issued gets a completion slot of its own. The
//! request manager fulfills the slot, once, with the response or with the
//! failure; the caller holds the handle of the slot and takes the outcome
//! out, once. A slot takes a response only of the kind that answers its
//! request, so that nothing is ever delivered to a call that did not ask
//! for it.

use vstd::prelude::*;
use crate::error::Error;
use crate::message::{MsgKind, MsgView, RpcResponse};

verus! {

/// How a request ended: with its response, or with a failure.
pub type Outcome = Result<RpcResponse, Error>;

/// What an outcome is to a specification.
pub type OutcomeView = Result<MsgView, Error>;

/// The view of an outcome.
pub open spec fn outcome_view(outcome: Outcome) -> OutcomeView {
    match outcome {
        Ok(response) => Ok(response@),
        Err(e) => Err(e),
    }
}

/// What a completion slot is to a specification.
pub struct SlotView {
    /// The kind of response that answers the slot's request.
    pub expects: MsgKind,
    /// The outcome that the slot was fulfilled with, once it was.
    pub outcome: Option<OutcomeView>,
}

/// What the correlator is to a specification.
pub struct CorrelatorView {
    /// How many slots were opened so far. It is the number of the next one.
    pub issued: u64,
    /// The slots that are open, by number.
    pub slots: Map<u64, SlotView>,
}

impl CorrelatorView {
    /// Whether a slot is open and waits for its outcome.
    pub open spec fn is_pending(self, slot: u64) -> bool {
        self.slots.contains_key(slot) && self.slots[slot].outcome is None
    }

    /// The outcome that waits in a slot for the caller, if one does.
    pub open spec fn ready(self, slot: u64) -> Option<OutcomeView> {
        if self.slots.contains_key(slot) {
            self.slots[slot].outcome
        } else {
            None
        }
    }

    /// Whether a slot takes an outcome: it is open, nothing has fulfilled
    /// it yet, and the outcome is a failure or a response of the kind that
    /// the slot expects.
    pub open spec fn takes(self, slot: u64, outcome: OutcomeView) -> bool {
        &&& self.is_pending(slot)
        &&& outcome matches Ok(response) ==> response.kind == self.slots[slot].expects
    }

    /// The state after a slot for a response of a given kind was opened,
    /// under the next number.
    pub open spec fn after_open(self, expects: MsgKind) -> CorrelatorView {
        CorrelatorView {
            issued: (self.issued + 1) as u64,
            slots: self.slots.insert(self.issued, SlotView { expects, outcome: None }),
        }
    }

    /// The state after an outcome was offered to a slot: kept there if the
    /// slot takes it, dropped if not.
    pub open spec fn after_fulfill(self, slot: u64, outcome: OutcomeView) -> CorrelatorView {
        if self.takes(slot, outcome) {
            CorrelatorView {
                slots: self.slots.insert(
                    slot,
                    SlotView { outcome: Some(outcome), ..self.slots[slot] },
                ),
                ..self
            }
        } else {
            self
        }
    }

    /// The state after the caller asked a slot for its outcome: the slot is
    /// closed if it held one, and stays as it is if not.
    pub open spec fn after_poll(self, slot: u64) -> CorrelatorView {
        if self.ready(slot) is Some {
            CorrelatorView { slots: self.slots.remove(slot), ..self }
        } else {
            self
        }
    }

    /// The state after the caller gave a slot up.
    pub open spec fn after_cancel(self, slot: u64) -> CorrelatorView {
        CorrelatorView { slots: self.slots.remove(slot), ..self }
    }

    /// Whether every open slot has a number that was issued.
    pub open spec fn numbered(self) -> bool {
        forall|slot: u64| self.slots.contains_key(slot) ==> slot < self.issued
    }
}

/// A slot is fulfilled once at most. Once it has taken an outcome, it
/// holds that outcome for the caller, takes no second one, and an offer of
/// a second one changes nothing.
pub proof fn lemma_fulfilled_once(
    state: CorrelatorView,
    slot: u64,
    first: OutcomeView,
    second: OutcomeView,
)
    requires
        state.takes(slot, first),
    ensures
        state.after_fulfill(slot, first).ready(slot) == Some(first),
        !state.after_fulfill(slot, first).takes(slot, second),
        state.after_fulfill(slot, first).after_fulfill(slot, second) == state.after_fulfill(
            slot,
            first,
        ),
{
}

/// An outcome is observed once at most. Once the caller has taken it, the
/// slot is closed: it holds nothing, and takes nothing that comes later.
pub proof fn lemma_observed_once(state: CorrelatorView, slot: u64, later: OutcomeView)
    requires
        state.ready(slot) is Some,
    ensures
        !state.after_poll(slot).slots.contains_key(slot),
        state.after_poll(slot).ready(slot) is None,
        !state.after_poll(slot).takes(slot, later),
        state.after_poll(slot).after_poll(slot) == state.after_poll(slot),
{
}

/// A slot that the caller gave up is closed: it holds nothing, and takes
/// nothing that comes later.
pub proof fn lemma_canceled_is_released(state: CorrelatorView, slot: u64, later: OutcomeView)
    ensures
        !state.after_cancel(slot).slots.contains_key(slot),
        !state.after_cancel(slot).takes(slot, later),
        state.after_cancel(slot).after_fulfill(slot, later) == state.after_cancel(slot),
{
}

/// A response of another kind than the slot expects is never delivered:
/// the slot keeps waiting.
pub proof fn lemma_wrong_kind_not_delivered(state: CorrelatorView, slot: u64, response: MsgView)
    requires
        state.is_pending(slot),
        response.kind != state.slots[slot].expects,
    ensures
        state.after_fulfill(slot, Ok(response)) == state,
        state.after_fulfill(slot, Ok(response)).is_pending(slot),
{
}

/// A failure that the request manager reports for a waiting slot, a
/// timeout among them, always reaches the caller.
pub proof fn lemma_failure_is_delivered(state: CorrelatorView, slot: u64, failure: Error)
    requires
        state.is_pending(slot),
    ensures
        state.takes(slot, Err(failure)),
        state.after_fulfill(slot, Err(failure)).ready(slot) == Some(
            Err::<MsgView, Error>(failure),
        ),
{
}

/// Nothing is delivered across calls: offering an outcome to one slot,
/// taking the outcome of one slot or giving one slot up leaves every other
/// slot as it was.
pub proof fn lemma_no_cross_delivery(
    state: CorrelatorView,
    slot: u64,
    outcome: OutcomeView,
    other: u64,
)
    requires
        other != slot,
    ensures
        state.after_fulfill(slot, outcome).slots.contains_key(other) == state.slots.contains_key(
            other,
        ),
        state.after_fulfill(slot, outcome).slots[other] == state.slots[other],
        state.after_poll(slot).slots.contains_key(other) == state.slots.contains_key(other),
        state.after_poll(slot).slots[other] == state.slots[other],
        state.after_cancel(slot).slots.contains_key(other) == state.slots.contains_key(other),
        state.after_cancel(slot).slots[other] == state.slots[other],
{
}

/// A slot that is opened is new: its number belongs to no open slot, it
/// waits for its outcome, and every other slot stays as it was.
pub proof fn lemma_open_is_fresh(state: CorrelatorView, expects: MsgKind, other: u64)
    requires
        state.numbered(),
        state.issued < u64::MAX,
    ensures
        !state.slots.contains_key(state.issued),
        state.after_open(expects).is_pending(state.issued),
        state.after_open(expects).slots[state.issued].expects == expects,
        state.after_open(expects).numbered(),
        other != state.issued ==> state.after_open(expects).slots.contains_key(other)
            == state.slots.contains_key(other) && state.after_open(expects).slots[other]
            == state.slots[other],
{
}

/// The caller's end of a completion slot. It cannot be copied: whoever
/// holds it is the one call that the slot's outcome is for.
#[derive(Debug)]
pub struct PendingResponse {
    slot: u64,
}

impl PendingResponse {
    /// The number of the slot.
    pub closed spec fn slot_id(&self) -> u64 {
        self.slot
    }

    /// The number of the slot, which the request carries to the request
    /// manager.
    pub fn slot(&self) -> (slot: u64)
        ensures
            slot == self.slot_id(),
    {
        self.slot
    }
}

/// What asking a slot for its outcome gives.
#[derive(Debug)]
pub enum RpcPoll {
    /// Nothing has fulfilled the slot yet. The handle comes back, to ask
    /// again.
    Pending(PendingResponse),
    /// The outcome of the request. The handle is used up.
    Ready(Outcome),
}

/// One open completion slot.
struct Slot {
    id: u64,
    expects: MsgKind,
    outcome: Option<Outcome>,
}

impl Slot {
    spec fn view(&self) -> SlotView {
        SlotView {
            expects: self.expects,
            outcome: match self.outcome {
                Some(o) => Some(outcome_view(o)),
                None => None,
            },
        }
    }
}

/// Whether no number occurs twice among the slots.
spec fn ids_distinct(slots: Seq<Slot>) -> bool {
    forall|i: int, j: int| 0 <= i < j < slots.len() ==> (#[trigger] slots[i]).id != (
    #[trigger] slots[j]).id
}

/// Whether a number occurs among the slots.
spec fn has_id(slots: Seq<Slot>, id: u64) -> bool {
    exists|i: int| 0 <= i < slots.len() && (#[trigger] slots[i]).id == id
}

/// The place of a number among the slots that hold it.
spec fn place_of(slots: Seq<Slot>, id: u64) -> int {
    choose|i: int| 0 <= i < slots.len() && (#[trigger] slots[i]).id == id
}

/// The map from number to slot that the slots stand for.
spec fn slots_of(slots: Seq<Slot>) -> Map<u64, SlotView> {
    Map::new(|id: u64| has_id(slots, id), |id: u64| slots[place_of(slots, id)].view())
}

/// With distinct numbers, the slot at a place is the one that its number
/// stands for.
proof fn lemma_slot_at(slots: Seq<Slot>, i: int)
    requires
        ids_distinct(slots),
        0 <= i < slots.len(),
    ensures
        slots_of(slots).contains_key(slots[i].id),
        slots_of(slots)[slots[i].id] == slots[i].view(),
        place_of(slots, slots[i].id) == i,
{
    let id = slots[i].id;
    let j = place_of(slots, id);
    assert(has_id(slots, id));
    assert(0 <= j < slots.len() && slots[j].id == id);
    if i < j {
        assert(slots[i].id != slots[j].id);
    } else if j < i {
        assert(slots[j].id != slots[i].id);
    }
}

/// Putting another slot in the place of one with the same number changes
/// what that number stands for and nothing else.
proof fn lemma_slot_replaced(before: Seq<Slot>, after: Seq<Slot>, i: int)
    requires
        ids_distinct(before),
        0 <= i < before.len(),
        after.len() == before.len(),
        after[i].id == before[i].id,
        forall|j: int| 0 <= j < before.len() && j != i ==> after[j] == before[j],
    ensures
        ids_distinct(after),
        slots_of(after) == slots_of(before).insert(after[i].id, after[i].view()),
{
    assert(ids_distinct(after)) by {
        assert forall|a: int, b: int| 0 <= a < b < after.len() implies (#[trigger] after[a]).id
            != (#[trigger] after[b]).id by {
            assert(before[a].id != before[b].id);
        }
    }
    let expected = slots_of(before).insert(after[i].id, after[i].view());
    assert forall|id: u64| slots_of(after).contains_key(id) == expected.contains_key(id) by {
        if has_id(after, id) {
            let j = place_of(after, id);
            assert(before[j].id == id);
        }
        if has_id(before, id) {
            let j = place_of(before, id);
            assert(after[j].id == id);
        }
    }
    assert forall|id: u64| slots_of(after).contains_key(id) implies slots_of(after)[id]
        == expected[id] by {
        let j = place_of(after, id);
        lemma_slot_at(after, j);
        if j != i {
            lemma_slot_at(before, j);
        }
    }
    assert(slots_of(after) =~= expected);
}

/// Appending a slot with a new number adds that number and changes nothing
/// else.
proof fn lemma_slot_appended(before: Seq<Slot>, slot: Slot)
    requires
        ids_distinct(before),
        !has_id(before, slot.id),
    ensures
        ids_distinct(before.push(slot)),
        slots_of(before.push(slot)) == slots_of(before).insert(slot.id, slot.view()),
{
    let after = before.push(slot);
    let last = before.len() as int;
    assert(ids_distinct(after)) by {
        assert forall|a: int, b: int| 0 <= a < b < after.len() implies (#[trigger] after[a]).id
            != (#[trigger] after[b]).id by {
            if b < last {
                assert(before[a].id != before[b].id);
            } else {
                assert(after[a] == before[a]);
                assert(before[a].id != slot.id);
            }
        }
    }
    let expected = slots_of(before).insert(slot.id, slot.view());
    assert forall|id: u64| slots_of(after).contains_key(id) == expected.contains_key(id) by {
        if has_id(after, id) {
            let j = place_of(after, id);
            if j < last {
                assert(before[j].id == id);
            }
        }
        if has_id(before, id) {
            let j = place_of(before, id);
            assert(after[j].id == id);
        }
        if id == slot.id {
            assert(after[last].id == id);
        }
    }
    assert forall|id: u64| slots_of(after).contains_key(id) implies slots_of(after)[id]
        == expected[id] by {
        let j = place_of(after, id);
        lemma_slot_at(after, j);
        if j < last {
            assert(after[j] == before[j]);
            lemma_slot_at(before, j);
        }
    }
    assert(slots_of(after) =~= expected);
}

/// Taking a slot out removes its number and changes nothing else.
proof fn lemma_slot_removed(before: Seq<Slot>, i: int)
    requires
        ids_distinct(before),
        0 <= i < before.len(),
    ensures
        ids_distinct(before.remove(i)),
        slots_of(before.remove(i)) == slots_of(before).remove(before[i].id),
{
    let after = before.remove(i);
    assert(ids_distinct(after)) by {
        assert forall|a: int, b: int| 0 <= a < b < after.len() implies (#[trigger] after[a]).id
            != (#[trigger] after[b]).id by {
            let a0 = if a < i { a } else { a + 1 };
            let b0 = if b < i { b } else { b + 1 };
            assert(after[a] == before[a0]);
            assert(after[b] == before[b0]);
            assert(before[a0].id != before[b0].id);
        }
    }
    let expected = slots_of(before).remove(before[i].id);
    assert forall|id: u64| slots_of(after).contains_key(id) == expected.contains_key(id) by {
        if has_id(after, id) {
            let j = place_of(after, id);
            let j0 = if j < i { j } else { j + 1 };
            assert(before[j0].id == id);
            if j0 < i {
                assert(before[j0].id != before[i].id);
            } else {
                assert(before[i].id != before[j0].id);
            }
        }
        if has_id(before, id) && id != before[i].id {
            let j = place_of(before, id);
            let j1 = if j < i { j } else { j - 1 };
            assert(after[j1].id == id);
        }
    }
    assert forall|id: u64| slots_of(after).contains_key(id) implies slots_of(after)[id]
        == expected[id] by {
        let j = place_of(after, id);
        let j0 = if j < i { j } else { j + 1 };
        lemma_slot_at(after, j);
        lemma_slot_at(before, j0);
    }
    assert(slots_of(after) =~= expected);
}

/// With distinct numbers there are as many open slots as entries.
proof fn lemma_slot_count(slots: Seq<Slot>)
    requires
        ids_distinct(slots),
    ensures
        slots_of(slots).dom().finite(),
        slots_of(slots).dom().len() == slots.len(),
    decreases slots.len(),
{
    if slots.len() == 0 {
        assert(slots_of(slots).dom() =~= Set::<u64>::empty());
    } else {
        let last = slots.len() - 1;
        lemma_slot_removed(slots, last);
        lemma_slot_count(slots.remove(last));
        lemma_slot_at(slots, last);
        assert(slots_of(slots).dom() =~= slots_of(slots.remove(last)).dom().insert(
            slots[last].id,
        ));
    }
}

/// Where every slot has a number below a bound, so has every number that
/// the slots stand for.
proof fn lemma_numbered(slots: Seq<Slot>, issued: u64)
    requires
        forall|i: int| 0 <= i < slots.len() ==> (#[trigger] slots[i]).id < issued,
    ensures
        (CorrelatorView { issued, slots: slots_of(slots) }).numbered(),
{
    assert forall|id: u64| slots_of(slots).contains_key(id) implies id < issued by {
        let j = place_of(slots, id);
        assert(slots[j].id < issued);
    }
}

/// The completion slots of the requests that are under way.
pub struct RpcCorrelator {
    issued: u64,
    slots: Vec<Slot>,
}

impl View for RpcCorrelator {
    type V = CorrelatorView;

    closed spec fn view(&self) -> CorrelatorView {
        CorrelatorView { issued: self.issued, slots: slots_of(self.slots@) }
    }
}

impl RpcCorrelator {
    #[verifier::type_invariant]
    spec fn well_formed(&self) -> bool {
        &&& ids_distinct(self.slots@)
        &&& forall|i: int| 0 <= i < self.slots@.len() ==> (#[trigger] self.slots@[i]).id
            < self.issued
    }

    /// A correlator that has opened no slot.
    pub fn new() -> (correlator: RpcCorrelator)
        ensures
            correlator@ == (CorrelatorView { issued: 0, slots: Map::empty() }),
    {
        let correlator = RpcCorrelator { issued: 0, slots: Vec::new() };
        assert(correlator@.slots =~= Map::empty());
        correlator
    }

    /// How many slots were opened so far. Every open slot has a lower
    /// number, so the number of the next one is new.
    pub fn issued(&self) -> (n: u64)
        ensures
            n == self@.issued,
            self@.numbered(),
    {
        proof {
            use_type_invariant(self);
            lemma_numbered(self.slots@, self.issued);
        }
        self.issued
    }

    /// The number of slots that are open.
    pub fn outstanding(&self) -> (n: usize)
        ensures
            self@.slots.dom().finite(),
            n == self@.slots.dom().len(),
    {
        proof {
            use_type_invariant(self);
            lemma_slot_count(self.slots@);
        }
        self.slots.len()
    }

    /// The place of a number among the slots, if it is there.
    fn find(&self, id: u64) -> (place: Option<usize>)
        ensures
            match place {
                Some(i) => i < self.slots@.len() && self.slots@[i as int].id == id,
                None => !has_id(self.slots@, id),
            },
    {
        let mut i: usize = 0;
        while i < self.slots.len()
            invariant
                i <= self.slots@.len(),
                forall|j: int| 0 <= j < i ==> (#[trigger] self.slots@[j]).id != id,
            decreases self.slots@.len() - i,
        {
            if self.slots[i].id == id {
                return Some(i);
            }
            i += 1;
        }
        None
    }

    /// Whether a slot is open and waits for its outcome.
    pub fn is_pending(&self, slot: u64) -> (pending: bool)
        ensures
            pending == self@.is_pending(slot),
    {
        proof {
            use_type_invariant(self);
        }
        match self.find(slot) {
            Some(i) => {
                proof {
                    lemma_slot_at(self.slots@, i as int);
                }
                self.slots[i].outcome.is_none()
            },
            None => false,
        }
    }

    /// Opens a slot for a response of a given kind, under a number that no
    /// open slot has, and hands out the caller's end of it.
    pub fn open(&mut self, expects: MsgKind) -> (handle: PendingResponse)
        requires
            old(self)@.issued < u64::MAX,
        ensures
            handle.slot_id() == old(self)@.issued,
            !old(self)@.slots.contains_key(handle.slot_id()),
            final(self)@ == old(self)@.after_open(expects),
    {
        proof {
            use_type_invariant(&*self);
            lemma_numbered(self.slots@, self.issued);
        }
        let id = self.issued;
        let slot = Slot { id, expects, outcome: None };
        let ghost before = self.slots@;
        let mut slots: Vec<Slot> = Vec::new();
        core::mem::swap(&mut self.slots, &mut slots);
        proof {
            lemma_slot_appended(before, slot);
        }
        slots.push(slot);
        self.issued = id + 1;
        self.slots = slots;
        PendingResponse { slot: id }
    }

    /// Offers an outcome to a slot. The slot takes it if it is open, has
    /// taken none before, and the outcome is a failure or a response of the
    /// kind that the slot expects. Otherwise the outcome is dropped and
    /// nothing changes.
    pub fn fulfill(&mut self, slot: u64, outcome: Outcome) -> (taken: bool)
        ensures
            taken == old(self)@.takes(slot, outcome_view(outcome)),
            final(self)@ == old(self)@.after_fulfill(slot, outcome_view(outcome)),
    {
        proof {
            use_type_invariant(&*self);
        }
        let ghost before = self.slots@;
        match self.find(slot) {
            None => false,
            Some(i) => {
                proof {
                    lemma_slot_at(before, i as int);
                }
                let expects = self.slots[i].expects;
                let fits = match &outcome {
                    Ok(response) => response.kind() == expects,
                    Err(_) => true,
                };
                if self.slots[i].outcome.is_some() || !fits {
                    return false;
                }
                let mut slots: Vec<Slot> = Vec::new();
                core::mem::swap(&mut self.slots, &mut slots);
                slots.set(i, Slot { id: slot, expects, outcome: Some(outcome) });
                proof {
                    lemma_slot_replaced(before, slots@, i as int);
                }
                self.slots = slots;
                true
            },
        }
    }

    /// Asks a slot for its outcome. A slot that was fulfilled gives the
    /// outcome and is closed. One that still waits gives the handle back.
    /// One that is open no longer was given up: the call ends as canceled.
    pub fn poll(&mut self, handle: PendingResponse) -> (polled: RpcPoll)
        ensures
            final(self)@ == old(self)@.after_poll(handle.slot_id()),
            match polled {
                RpcPoll::Pending(again) => old(self)@.is_pending(handle.slot_id()) && again
                    == handle,
                RpcPoll::Ready(outcome) => !old(self)@.is_pending(handle.slot_id())
                    && outcome_view(outcome) == match old(self)@.ready(handle.slot_id()) {
                    Some(o) => o,
                    None => Err(Error::Canceled),
                },
            },
    {
        proof {
            use_type_invariant(&*self);
        }
        let ghost before = self.slots@;
        match self.find(handle.slot) {
            None => RpcPoll::Ready(Err(Error::Canceled)),
            Some(i) => {
                proof {
                    lemma_slot_at(before, i as int);
                }
                if self.slots[i].outcome.is_none() {
                    return RpcPoll::Pending(handle);
                }
                let mut slots: Vec<Slot> = Vec::new();
                core::mem::swap(&mut self.slots, &mut slots);
                let slot = slots.remove(i);
                proof {
                    lemma_slot_removed(before, i as int);
                }
                self.slots = slots;
                match slot.outcome {
                    Some(outcome) => RpcPoll::Ready(outcome),
                    None => RpcPoll::Ready(Err(Error::Canceled)),
                }
            },
        }
    }

    /// Gives a slot up: it is closed, whatever it holds, and an outcome
    /// that comes for it later is dropped.
    pub fn cancel(&mut self, handle: PendingResponse)
        ensures
            final(self)@ == old(self)@.after_cancel(handle.slot_id()),
    {
        proof {
            use_type_invariant(&*self);
        }
        let ghost before = self.slots@;
        match self.find(handle.slot) {
            None => {
                assert(slots_of(before) =~= slots_of(before).remove(handle.slot));
            },
            Some(i) => {
                let mut slots: Vec<Slot> = Vec::new();
                core::mem::swap(&mut self.slots, &mut slots);
                slots.remove(i);
                proof {
                    lemma_slot_removed(before, i as int);
                }
                self.slots = slots;
            },
        }
    }
}

} // verus!
