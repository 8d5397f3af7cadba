//! The peer resolver: from a participant's address to the handle of a peer
//! that is reachable now.
//!
//! The table belongs to the network side, which enters a peer when it
//! connects and removes it when it leaves. The senders only look addresses
//! up, once for every send.

use vstd::prelude::*;
use crate::address::{AccountAddress, NodeId};

verus! {

/// One reachable peer: the participant's address and the peer's handle.
#[derive(Clone, Copy, Debug)]
pub struct PeerEntry {
    pub address: AccountAddress,
    pub handle: NodeId,
}

/// The reachable peers, each address at most once.
pub struct PeerTable {
    entries: Vec<PeerEntry>,
}

/// Whether no address occurs twice among the entries.
pub open spec fn addresses_distinct(entries: Seq<PeerEntry>) -> bool {
    forall|i: int, j: int|
        0 <= i < j < entries.len() ==> (#[trigger] entries[i]).address != (
        #[trigger] entries[j]).address
}

/// Whether an address occurs among the entries.
pub open spec fn has_address(entries: Seq<PeerEntry>, address: AccountAddress) -> bool {
    exists|i: int| 0 <= i < entries.len() && (#[trigger] entries[i]).address == address
}

/// The place of an address among the entries that hold it.
pub open spec fn place_of(entries: Seq<PeerEntry>, address: AccountAddress) -> int {
    choose|i: int| 0 <= i < entries.len() && (#[trigger] entries[i]).address == address
}

/// The map from address to handle that the entries stand for.
pub open spec fn table_of(entries: Seq<PeerEntry>) -> Map<AccountAddress, NodeId> {
    Map::new(
        |address: AccountAddress| has_address(entries, address),
        |address: AccountAddress| entries[place_of(entries, address)].handle,
    )
}

/// With distinct addresses, the entry at a place decides what its address
/// resolves to.
proof fn lemma_entry_resolves(entries: Seq<PeerEntry>, i: int)
    requires
        addresses_distinct(entries),
        0 <= i < entries.len(),
    ensures
        table_of(entries).contains_key(entries[i].address),
        table_of(entries)[entries[i].address] == entries[i].handle,
{
    let address = entries[i].address;
    let j = place_of(entries, address);
    assert(has_address(entries, address));
    assert(0 <= j < entries.len() && entries[j].address == address);
    if i < j {
        assert(entries[i].address != entries[j].address);
    } else if j < i {
        assert(entries[j].address != entries[i].address);
    }
}

/// What an address resolves to in a table of peers: the handle of its
/// peer, or nothing.
pub open spec fn resolution(peers: Map<AccountAddress, NodeId>, address: AccountAddress) -> Option<
    NodeId,
> {
    if peers.contains_key(address) {
        Some(peers[address])
    } else {
        None
    }
}

impl View for PeerTable {
    type V = Map<AccountAddress, NodeId>;

    closed spec fn view(&self) -> Map<AccountAddress, NodeId> {
        table_of(self.entries@)
    }
}

impl PeerTable {
    #[verifier::type_invariant]
    spec fn well_formed(&self) -> bool {
        addresses_distinct(self.entries@)
    }

    /// A table without peers.
    pub fn new() -> (table: PeerTable)
        ensures
            table@ == Map::<AccountAddress, NodeId>::empty(),
    {
        let table = PeerTable { entries: Vec::new() };
        assert(table@ =~= Map::<AccountAddress, NodeId>::empty());
        table
    }

    /// The place of an address among the entries, if it is there.
    fn find(&self, address: &AccountAddress) -> (place: Option<usize>)
        ensures
            match place {
                Some(i) => i < self.entries@.len() && self.entries@[i as int].address == *address,
                None => !has_address(self.entries@, *address),
            },
    {
        let mut i: usize = 0;
        while i < self.entries.len()
            invariant
                i <= self.entries@.len(),
                forall|j: int| 0 <= j < i ==> (#[trigger] self.entries@[j]).address != *address,
            decreases self.entries@.len() - i,
        {
            if self.entries[i].address == *address {
                return Some(i);
            }
            i += 1;
        }
        None
    }

    /// The number of reachable peers.
    pub fn len(&self) -> (n: usize)
        ensures
            n == self@.dom().len(),
            self@.dom().finite(),
    {
        proof {
            use_type_invariant(self);
            lemma_domain_size(self.entries@);
        }
        self.entries.len()
    }

    /// Looks an address up. An address without a peer is no error: it
    /// resolves to nothing.
    pub fn resolve(&self, address: &AccountAddress) -> (handle: Option<NodeId>)
        ensures
            handle == resolution(self@, *address),
    {
        proof {
            use_type_invariant(self);
        }
        match self.find(address) {
            Some(i) => {
                proof {
                    lemma_entry_resolves(self.entries@, i as int);
                }
                Some(self.entries[i].handle)
            },
            None => None,
        }
    }

    /// Enters a peer that has connected. Where the address had a handle
    /// already, the new one replaces it and the old one is returned.
    pub fn insert(&mut self, address: AccountAddress, handle: NodeId) -> (previous: Option<NodeId>)
        ensures
            final(self)@ == old(self)@.insert(address, handle),
            previous == resolution(old(self)@, address),
    {
        proof {
            use_type_invariant(&*self);
        }
        let ghost before = self.entries@;
        let entry = PeerEntry { address, handle };
        let found = self.find(&address);
        let mut entries: Vec<PeerEntry> = Vec::new();
        core::mem::swap(&mut self.entries, &mut entries);
        let previous = match found {
            Some(i) => {
                let previous = entries[i].handle;
                proof {
                    lemma_entry_resolves(before, i as int);
                }
                entries.set(i, entry);
                proof {
                    let after = entries@;
                    assert(addresses_distinct(after)) by {
                        assert forall|a: int, b: int| 0 <= a < b < after.len() implies (
                        #[trigger] after[a]).address != (#[trigger] after[b]).address by {
                            assert(before[a].address != before[b].address);
                        }
                    }
                    lemma_replaced(before, after, i as int);
                }
                Some(previous)
            },
            None => {
                entries.push(entry);
                proof {
                    let after = entries@;
                    assert(addresses_distinct(after)) by {
                        assert forall|a: int, b: int| 0 <= a < b < after.len() implies (
                        #[trigger] after[a]).address != (#[trigger] after[b]).address by {
                            if b < before.len() {
                                assert(before[a].address != before[b].address);
                            } else {
                                assert(after[a] == before[a]);
                            }
                        }
                    }
                    lemma_appended(before, after);
                }
                None
            },
        };
        self.entries = entries;
        previous
    }

    /// Removes a peer that has left, and returns the handle it had.
    pub fn remove(&mut self, address: &AccountAddress) -> (previous: Option<NodeId>)
        ensures
            final(self)@ == old(self)@.remove(*address),
            previous == resolution(old(self)@, *address),
    {
        proof {
            use_type_invariant(&*self);
        }
        let ghost before = self.entries@;
        let found = self.find(address);
        let mut entries: Vec<PeerEntry> = Vec::new();
        core::mem::swap(&mut self.entries, &mut entries);
        let previous = match found {
            Some(i) => {
                proof {
                    lemma_entry_resolves(before, i as int);
                }
                let gone = entries.remove(i);
                proof {
                    let after = entries@;
                    assert(after == before.remove(i as int));
                    assert(addresses_distinct(after)) by {
                        assert forall|a: int, b: int| 0 <= a < b < after.len() implies (
                        #[trigger] after[a]).address != (#[trigger] after[b]).address by {
                            let a0 = if a < i { a } else { a + 1 };
                            let b0 = if b < i { b } else { b + 1 };
                            assert(after[a] == before[a0]);
                            assert(after[b] == before[b0]);
                            assert(before[a0].address != before[b0].address);
                        }
                    }
                    lemma_removed(before, after, i as int);
                }
                Some(gone.handle)
            },
            None => {
                assert(table_of(before) =~= table_of(before).remove(*address));
                None
            },
        };
        self.entries = entries;
        previous
    }
}

/// Replacing the entry of an address changes what that address resolves to
/// and nothing else.
proof fn lemma_replaced(before: Seq<PeerEntry>, after: Seq<PeerEntry>, i: int)
    requires
        addresses_distinct(before),
        addresses_distinct(after),
        0 <= i < before.len(),
        after.len() == before.len(),
        after[i].address == before[i].address,
        forall|j: int| 0 <= j < before.len() && j != i ==> after[j] == before[j],
    ensures
        table_of(after) == table_of(before).insert(after[i].address, after[i].handle),
{
    let address = after[i].address;
    let expected = table_of(before).insert(address, after[i].handle);
    assert forall|a: AccountAddress| table_of(after).contains_key(a) == expected.contains_key(
        a,
    ) by {
        if has_address(after, a) {
            let j = place_of(after, a);
            assert(before[j].address == a);
        }
        if has_address(before, a) {
            let j = place_of(before, a);
            assert(after[j].address == a);
        }
    }
    assert forall|a: AccountAddress| table_of(after).contains_key(a) implies table_of(after)[a]
        == expected[a] by {
        let j = place_of(after, a);
        lemma_entry_resolves(after, j);
        if j != i {
            lemma_entry_resolves(before, j);
        }
    }
    assert(table_of(after) =~= expected);
}

/// Appending an entry with a new address adds that address and changes
/// nothing else.
proof fn lemma_appended(before: Seq<PeerEntry>, after: Seq<PeerEntry>)
    requires
        addresses_distinct(after),
        after.len() == before.len() + 1,
        forall|j: int| 0 <= j < before.len() ==> after[j] == before[j],
    ensures
        table_of(after) == table_of(before).insert(after.last().address, after.last().handle),
{
    let last = after.len() - 1;
    let expected = table_of(before).insert(after[last].address, after[last].handle);
    assert(addresses_distinct(before)) by {
        assert forall|a: int, b: int| 0 <= a < b < before.len() implies (
        #[trigger] before[a]).address != (#[trigger] before[b]).address by {
            assert(after[a].address != after[b].address);
        }
    }
    assert forall|a: AccountAddress| table_of(after).contains_key(a) == expected.contains_key(
        a,
    ) by {
        if has_address(after, a) {
            let j = place_of(after, a);
            if j < last {
                assert(before[j].address == a);
            }
        }
        if has_address(before, a) {
            let j = place_of(before, a);
            assert(after[j].address == a);
        }
        if a == after[last].address {
            assert(after[last].address == a);
        }
    }
    assert forall|a: AccountAddress| table_of(after).contains_key(a) implies table_of(after)[a]
        == expected[a] by {
        let j = place_of(after, a);
        lemma_entry_resolves(after, j);
        if j < last {
            lemma_entry_resolves(before, j);
        }
    }
    assert(table_of(after) =~= expected);
}

/// Taking an entry out removes its address and changes nothing else.
proof fn lemma_removed(before: Seq<PeerEntry>, after: Seq<PeerEntry>, i: int)
    requires
        addresses_distinct(before),
        addresses_distinct(after),
        0 <= i < before.len(),
        after == before.remove(i),
    ensures
        table_of(after) == table_of(before).remove(before[i].address),
{
    let expected = table_of(before).remove(before[i].address);
    assert forall|a: AccountAddress| table_of(after).contains_key(a) == expected.contains_key(
        a,
    ) by {
        if has_address(after, a) {
            let j = place_of(after, a);
            let j0 = if j < i { j } else { j + 1 };
            assert(before[j0].address == a);
            if j0 < i {
                assert(before[j0].address != before[i].address);
            } else {
                assert(before[i].address != before[j0].address);
            }
        }
        if has_address(before, a) && a != before[i].address {
            let j = place_of(before, a);
            let j1 = if j < i { j } else { j - 1 };
            assert(after[j1].address == a);
        }
    }
    assert forall|a: AccountAddress| table_of(after).contains_key(a) implies table_of(after)[a]
        == expected[a] by {
        let j = place_of(after, a);
        let j0 = if j < i { j } else { j + 1 };
        lemma_entry_resolves(after, j);
        lemma_entry_resolves(before, j0);
    }
    assert(table_of(after) =~= expected);
}

/// With distinct addresses the table has as many addresses as entries.
proof fn lemma_domain_size(entries: Seq<PeerEntry>)
    requires
        addresses_distinct(entries),
    ensures
        table_of(entries).dom().finite(),
        table_of(entries).dom().len() == entries.len(),
    decreases entries.len(),
{
    if entries.len() == 0 {
        assert(table_of(entries).dom() =~= Set::<AccountAddress>::empty());
    } else {
        let last = entries.len() - 1;
        let front = entries.remove(last);
        assert(addresses_distinct(front)) by {
            assert forall|a: int, b: int| 0 <= a < b < front.len() implies (
            #[trigger] front[a]).address != (#[trigger] front[b]).address by {
                assert(front[a] == entries[a]);
                assert(front[b] == entries[b]);
                assert(entries[a].address != entries[b].address);
            }
        }
        lemma_removed(entries, front, last);
        lemma_domain_size(front);
        lemma_entry_resolves(entries, last);
        assert(table_of(entries).dom() =~= table_of(front).dom().insert(entries[last].address));
    }
}

} // verus!
