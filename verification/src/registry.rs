//! The peer registry: the one place where the record of every peer is kept.
//!
//! A registry is a map from a peer's address to its record. It is owned by a
//! single task that takes commands one at a time, so every command sees the
//! effect of all commands before it.

use vstd::prelude::*;
use crate::record::{PeerRecord, PeerRecordView};

verus! {

/// No address is listed twice.
pub open spec fn distinct_addresses(roster: Seq<(Seq<char>, PeerRecordView)>) -> bool {
    forall|i: int, j: int|
        0 <= i < j < roster.len() ==> (#[trigger] roster[i]).0 != (#[trigger] roster[j]).0
}

/// `address` is listed at `index`.
pub open spec fn listed_at(
    roster: Seq<(Seq<char>, PeerRecordView)>,
    address: Seq<char>,
    index: int,
) -> bool {
    0 <= index < roster.len() && roster[index].0 == address
}

/// `address` is listed.
pub open spec fn lists(roster: Seq<(Seq<char>, PeerRecordView)>, address: Seq<char>) -> bool {
    exists|index: int| listed_at(roster, address, index)
}

/// The map that a roster stands for: each listed address with its record.
/// It is meant for rosters with [`distinct_addresses`].
pub open spec fn roster_map(roster: Seq<(Seq<char>, PeerRecordView)>) -> Map<
    Seq<char>,
    PeerRecordView,
> {
    Map::new(
        |address: Seq<char>| lists(roster, address),
        |address: Seq<char>| roster[choose|index: int| listed_at(roster, address, index)].1,
    )
}

/// The addresses whose record is not stale.
pub open spec fn active_addresses(peers: Map<Seq<char>, PeerRecordView>) -> Set<Seq<char>> {
    Set::new(|address: Seq<char>| peers.contains_key(address) && !peers[address].stale)
}

/// In a roster of distinct addresses each entry is what the map holds for its
/// address.
pub proof fn lemma_roster_map_entry(roster: Seq<(Seq<char>, PeerRecordView)>, index: int)
    requires
        distinct_addresses(roster),
        0 <= index < roster.len(),
    ensures
        roster_map(roster).contains_key(roster[index].0),
        roster_map(roster)[roster[index].0] == roster[index].1,
{
    let address = roster[index].0;
    assert(listed_at(roster, address, index));
    let chosen = choose|other: int| listed_at(roster, address, other);
    assert(listed_at(roster, address, chosen));
    if chosen < index {
        assert(roster[chosen].0 != roster[index].0);
    } else if index < chosen {
        assert(roster[index].0 != roster[chosen].0);
    }
}

/// A new address at the end of a roster is an insertion into its map.
proof fn lemma_roster_map_push(
    roster: Seq<(Seq<char>, PeerRecordView)>,
    address: Seq<char>,
    record: PeerRecordView,
)
    requires
        distinct_addresses(roster),
        !lists(roster, address),
    ensures
        distinct_addresses(roster.push((address, record))),
        roster_map(roster.push((address, record))) == roster_map(roster).insert(address, record),
{
    let longer = roster.push((address, record));
    assert forall|i: int, j: int| 0 <= i < j < longer.len() implies (#[trigger] longer[i]).0 != (
    #[trigger] longer[j]).0 by {
        if j == roster.len() {
            assert(!listed_at(roster, address, i));
        } else {
            assert(roster[i].0 != roster[j].0);
        }
    }
    lemma_roster_map_replaced(roster, longer, address, record, roster.len() as int);
}

/// Where two rosters of distinct addresses list the same addresses and agree
/// on every record but that of `address`, which the second one lists at
/// `index` with `record`, the second map is the first with `address` set to
/// `record`.
proof fn lemma_roster_map_replaced(
    before: Seq<(Seq<char>, PeerRecordView)>,
    after: Seq<(Seq<char>, PeerRecordView)>,
    address: Seq<char>,
    record: PeerRecordView,
    index: int,
)
    requires
        distinct_addresses(before),
        distinct_addresses(after),
        0 <= index <= before.len(),
        after.len() == if index < before.len() {
            before.len()
        } else {
            before.len() + 1
        },
        after[index] == (address, record),
        forall|i: int| 0 <= i < before.len() && i != index ==> #[trigger] before[i] == after[i],
        index < before.len() ==> before[index].0 == address,
    ensures
        roster_map(after) == roster_map(before).insert(address, record),
{
    let updated = roster_map(before).insert(address, record);
    assert forall|a: Seq<char>| #[trigger]
        roster_map(after).dom().contains(a) == updated.dom().contains(a) && (roster_map(
            after,
        ).dom().contains(a) ==> roster_map(after)[a] == updated[a]) by {
        if lists(after, a) {
            let i = choose|i: int| listed_at(after, a, i);
            assert(listed_at(after, a, i));
            lemma_roster_map_entry(after, i);
            if i != index {
                assert(before[i] == after[i]);
                assert(listed_at(before, a, i));
                lemma_roster_map_entry(before, i);
            }
        }
        if a == address {
            assert(listed_at(after, a, index));
        } else if lists(before, a) {
            let i = choose|i: int| listed_at(before, a, i);
            assert(listed_at(before, a, i));
            assert(before[i] == after[i]);
            assert(listed_at(after, a, i));
        }
    }
    assert(roster_map(after) =~= updated);
}

/// The registry of peers.
///
/// No peer is ever removed: a peer that cannot be reached is marked stale.
pub struct Registry {
    entries: Vec<(String, PeerRecord)>,
}

impl View for Registry {
    type V = Map<Seq<char>, PeerRecordView>;

    closed spec fn view(&self) -> Map<Seq<char>, PeerRecordView> {
        roster_map(self.entries.deep_view())
    }
}

/// The index at which `address` is listed, if it is.
fn position(entries: &Vec<(String, PeerRecord)>, address: &String) -> (found: Option<usize>)
    ensures
        match found {
            Some(index) => listed_at(entries.deep_view(), address@, index as int),
            None => !lists(entries.deep_view(), address@),
        },
{
    let mut index: usize = 0;
    while index < entries.len()
        invariant
            index <= entries.len(),
            forall|i: int| 0 <= i < index ==> !listed_at(entries.deep_view(), address@, i),
        decreases entries.len() - index,
    {
        if entries[index].0 == *address {
            return Some(index);
        }
        index = index + 1;
    }
    None
}

impl Registry {
    #[verifier::type_invariant]
    spec fn well_formed(self) -> bool {
        distinct_addresses(self.entries.deep_view())
    }

    /// A registry without peers.
    pub fn new() -> (registry: Self)
        ensures
            registry@ == Map::<Seq<char>, PeerRecordView>::empty(),
    {
        let registry = Registry { entries: Vec::new() };
        assert(registry.entries.deep_view() =~= Seq::empty());
        assert(registry@ =~= Map::empty()) by {
            assert forall|a: Seq<char>| !lists(registry.entries.deep_view(), a) by {
                assert forall|i: int| !listed_at(registry.entries.deep_view(), a, i) by {}
            }
        }
        registry
    }

    /// Files `record` under `address`, in place of any record that was there.
    pub fn add(&mut self, address: String, record: PeerRecord)
        ensures
            final(self)@ == old(self)@.insert(address@, record@),
    {
        proof {
            use_type_invariant(&*self);
        }
        let mut entries: Vec<(String, PeerRecord)> = Vec::new();
        assert(entries.deep_view() =~= Seq::empty());
        std::mem::swap(&mut entries, &mut self.entries);
        let ghost before = entries.deep_view();
        let ghost key = address@;
        let ghost value = record@;
        match position(&entries, &address) {
            Some(index) => {
                entries[index] = (address, record);
                proof {
                    let after = entries.deep_view();
                    assert forall|i: int, j: int| 0 <= i < j < after.len() implies (
                    #[trigger] after[i]).0 != (#[trigger] after[j]).0 by {
                        assert(before[i].0 != before[j].0);
                    }
                    lemma_roster_map_replaced(before, after, key, value, index as int);
                }
            },
            None => {
                entries.push((address, record));
                proof {
                    lemma_roster_map_push(before, key, value);
                    assert(entries.deep_view() =~= before.push((key, value)));
                }
            },
        }
        self.entries = entries;
    }

    /// Replaces the whole record at `address` by `record`. Nothing of the
    /// record that was there is kept. An address that is not yet known is
    /// added.
    pub fn update(&mut self, address: String, record: PeerRecord)
        ensures
            final(self)@ == old(self)@.insert(address@, record@),
    {
        self.add(address, record)
    }

    /// A copy of the record at `address`, if there is one.
    pub fn query(&self, address: &String) -> (found: Option<PeerRecord>)
        ensures
            found.deep_view() == if self@.contains_key(address@) {
                Some(self@[address@])
            } else {
                None
            },
    {
        proof {
            use_type_invariant(self);
        }
        match position(&self.entries, address) {
            Some(index) => {
                proof {
                    lemma_roster_map_entry(self.entries.deep_view(), index as int);
                }
                Some(self.entries[index].1.clone())
            },
            None => None,
        }
    }

    /// Every entry, each address once, in no particular order.
    pub fn query_all(&self) -> (roster: Vec<(String, PeerRecord)>)
        ensures
            distinct_addresses(roster.deep_view()),
            roster_map(roster.deep_view()) == self@,
    {
        proof {
            use_type_invariant(self);
        }
        let mut roster: Vec<(String, PeerRecord)> = Vec::new();
        let mut index: usize = 0;
        while index < self.entries.len()
            invariant
                index <= self.entries.len(),
                roster.len() == index,
                forall|i: int|
                    0 <= i < index ==> (#[trigger] roster.deep_view()[i])
                        == self.entries.deep_view()[i],
            decreases self.entries.len() - index,
        {
            let ghost earlier = roster.deep_view();
            let address = self.entries[index].0.clone();
            let record = self.entries[index].1.clone();
            roster.push((address, record));
            assert(roster.deep_view() =~= earlier.push(self.entries.deep_view()[index as int]));
            index = index + 1;
        }
        assert(roster.deep_view() =~= self.entries.deep_view());
        roster
    }

    /// The addresses of the peers that are not stale, each once, in no
    /// particular order.
    pub fn query_active(&self) -> (active: Vec<String>)
        ensures
            active.deep_view().no_duplicates(),
            active.deep_view().to_set() == active_addresses(self@),
    {
        proof {
            use_type_invariant(self);
        }
        let ghost entries = self.entries.deep_view();
        let mut active: Vec<String> = Vec::new();
        let ghost mut source: Seq<int> = Seq::empty();
        let mut index: usize = 0;
        while index < self.entries.len()
            invariant
                index <= self.entries.len(),
                entries == self.entries.deep_view(),
                distinct_addresses(entries),
                source.len() == active.len(),
                forall|j: int|
                    0 <= j < source.len() ==> 0 <= #[trigger] source[j] < index
                        && !entries[source[j]].1.stale && active.deep_view()[j]
                        == entries[source[j]].0,
                forall|j: int, k: int|
                    0 <= j < k < source.len() ==> #[trigger] source[j] < #[trigger] source[k],
                forall|i: int|
                    0 <= i < index && !(#[trigger] entries[i]).1.stale ==> exists|j: int|
                        0 <= j < source.len() && #[trigger] source[j] == i,
            decreases self.entries.len() - index,
        {
            if !self.entries[index].1.stale {
                let ghost earlier = active.deep_view();
                let ghost earlier_source = source;
                active.push(self.entries[index].0.clone());
                proof {
                    source = source.push(index as int);
                    assert(active.deep_view() =~= earlier.push(entries[index as int].0));
                    assert forall|i: int|
                        0 <= i < index + 1 && !(#[trigger] entries[i]).1.stale implies exists|
                        j: int,
                    |
                        0 <= j < source.len() && #[trigger] source[j] == i by {
                        if i < index {
                            let j = choose|j: int|
                                0 <= j < earlier_source.len() && #[trigger] earlier_source[j] == i;
                            assert(source[j] == i);
                        } else {
                            assert(source[source.len() - 1] == i);
                        }
                    }
                }
            }
            index = index + 1;
        }
        proof {
            let listed = active.deep_view();
            assert forall|j: int, k: int| 0 <= j < listed.len() && 0 <= k < listed.len() && j
                != k implies listed[j] != listed[k] by {
                if j < k {
                    assert(source[j] < source[k]);
                    assert(entries[source[j]].0 != entries[source[k]].0);
                } else {
                    assert(source[k] < source[j]);
                    assert(entries[source[k]].0 != entries[source[j]].0);
                }
            }
            assert forall|a: Seq<char>| listed.to_set().contains(a) implies active_addresses(
                self@,
            ).contains(a) by {
                let j = choose|j: int| 0 <= j < listed.len() && listed[j] == a;
                assert(0 <= source[j] < index);
                lemma_roster_map_entry(entries, source[j]);
            }
            assert forall|a: Seq<char>| active_addresses(self@).contains(a) implies listed.to_set(
            ).contains(a) by {
                let i = choose|i: int| listed_at(entries, a, i);
                assert(listed_at(entries, a, i));
                lemma_roster_map_entry(entries, i);
                assert(!entries[i].1.stale);
                let j = choose|j: int| 0 <= j < source.len() && #[trigger] source[j] == i;
                assert(listed[j] == a);
            }
            assert(listed.to_set() =~= active_addresses(self@));
        }
        active
    }
}

} // verus!
