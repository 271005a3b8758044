//! The raft instances a conductor runs, one per network and raft id.

use vstd::prelude::*;
use crate::node::{HcNode, RaftId, bytes_equal};
use crate::client::HcClient;
use crate::config::{RaftTiming, make_config};

verus! {

/// The key of a raft instance: its network (DNA hash bytes) and raft id bytes.
pub open spec fn raft_key(dna_hash: Seq<u8>, raft_id: RaftId) -> (Seq<u8>, Seq<u8>) {
    (dna_hash, raft_id@)
}

spec fn keys_unique<V>(entries: Seq<(Vec<u8>, RaftId, V)>) -> bool {
    forall|i: int, j: int|
        0 <= i < j < entries.len() ==> (#[trigger] entries[i]).0@ != (#[trigger] entries[j]).0@
            || entries[i].1@ != entries[j].1@
}

spec fn listed_in_map<V>(entries: Seq<(Vec<u8>, RaftId, V)>, map: Map<(Seq<u8>, Seq<u8>), V>) -> bool {
    forall|i: int|
        0 <= i < entries.len() ==> #[trigger] map.contains_key((entries[i].0@, entries[i].1@))
            && map[(entries[i].0@, entries[i].1@)] == entries[i].2
}

spec fn map_listed<V>(entries: Seq<(Vec<u8>, RaftId, V)>, map: Map<(Seq<u8>, Seq<u8>), V>) -> bool {
    forall|k: (Seq<u8>, Seq<u8>)|
        #[trigger] map.contains_key(k) ==> exists|i: int|
            0 <= i < entries.len() && (#[trigger] entries[i]).0@ == k.0 && entries[i].1@ == k.1
}

/// What a new raft instance is built from: the client that speaks for the
/// local agent in the network about this raft id, and the conductor's timing.
#[derive(Clone, Debug)]
pub struct RaftSetup {
    pub client: HcClient,
    pub timing: RaftTiming,
}

/// The setup of the raft instance a conductor creates for `local_agent` in
/// network `dna_hash` for `raft_id`.
pub fn raft_setup(local_agent: HcNode, dna_hash: Vec<u8>, raft_id: RaftId) -> (res: RaftSetup)
    ensures
        res.client.provenance@ == local_agent@,
        res.client.dna_hash@ == dna_hash@,
        res.client.raft_id@ == raft_id@,
        res.timing == (RaftTiming { heartbeat_interval: 500, election_timeout_min: 1500, election_timeout_max: 3000 }),
{
    RaftSetup { client: HcClient::new(local_agent, dna_hash, raft_id), timing: make_config() }
}

/// The raft instances created so far, by network and raft id.
pub struct RaftRegistry<V> {
    entries: Vec<(Vec<u8>, RaftId, V)>,
    map: Ghost<Map<(Seq<u8>, Seq<u8>), V>>,
}

impl<V> View for RaftRegistry<V> {
    type V = Map<(Seq<u8>, Seq<u8>), V>;

    closed spec fn view(&self) -> Map<(Seq<u8>, Seq<u8>), V> {
        self.map@
    }
}

impl<V> RaftRegistry<V> {
    #[verifier::type_invariant]
    spec fn well_formed(self) -> bool {
        &&& keys_unique(self.entries@)
        &&& listed_in_map(self.entries@, self.map@)
        &&& map_listed(self.entries@, self.map@)
    }

    /// A registry with no raft instance.
    pub fn new() -> (res: RaftRegistry<V>)
        ensures
            res@ == Map::<(Seq<u8>, Seq<u8>), V>::empty(),
    {
        RaftRegistry { entries: Vec::new(), map: Ghost(Map::empty()) }
    }

    fn position_of(&self, dna_hash: &Vec<u8>, raft_id: &RaftId) -> (res: Option<usize>)
        ensures
            res is Some <==> self@.contains_key(raft_key(dna_hash@, *raft_id)),
            res matches Some(i) ==> i < self.entries@.len() && self.entries@[i as int].0@ == dna_hash@
                && self.entries@[i as int].1@ == raft_id@,
    {
        proof { use_type_invariant(self); }
        let mut i: usize = 0;
        while i < self.entries.len()
            invariant
                i <= self.entries@.len(),
                self.well_formed(),
                forall|j: int| 0 <= j < i ==> (#[trigger] self.entries@[j]).0@ != dna_hash@ || self.entries@[j].1@ != raft_id@,
            decreases self.entries.len() - i,
        {
            if bytes_equal(&self.entries[i].0, dna_hash) && self.entries[i].1.same_as(raft_id) {
                return Some(i);
            }
            i = i + 1;
        }
        proof {
            let k = raft_key(dna_hash@, *raft_id);
            if self@.contains_key(k) {
                let j = choose|j: int| 0 <= j < self.entries@.len() && (#[trigger] self.entries@[j]).0@ == k.0 && self.entries@[j].1@ == k.1;
                assert(self.entries@[j].0@ != dna_hash@ || self.entries@[j].1@ != raft_id@);
            }
        }
        None
    }

    /// How many raft instances were created.
    pub fn len(&self) -> (res: usize)
        ensures
            res == self@.len(),
            self@.dom().finite(),
    {
        proof {
            use_type_invariant(self);
            self.lemma_dom_is_listed();
        }
        self.entries.len()
    }

    proof fn lemma_dom_is_listed(&self)
        requires
            self.well_formed(),
        ensures
            self@.dom() == self.entries@.map_values(|e: (Vec<u8>, RaftId, V)| (e.0@, e.1@)).to_set(),
            self@.dom().finite(),
            self@.dom().len() == self.entries@.len(),
    {
        let keys = self.entries@.map_values(|e: (Vec<u8>, RaftId, V)| (e.0@, e.1@));
        assert(self@.dom() =~= keys.to_set()) by {
            assert forall|k: (Seq<u8>, Seq<u8>)| self@.dom().contains(k) implies keys.to_set().contains(k) by {
                let i = choose|i: int| 0 <= i < self.entries@.len() && (#[trigger] self.entries@[i]).0@ == k.0 && self.entries@[i].1@ == k.1;
                assert(keys[i] == k);
            }
            assert forall|k: (Seq<u8>, Seq<u8>)| keys.to_set().contains(k) implies self@.dom().contains(k) by {
                let i = choose|i: int| 0 <= i < keys.len() && keys[i] == k;
                assert(self.map@.contains_key((self.entries@[i].0@, self.entries@[i].1@)));
            }
        }
        assert(keys.no_duplicates()) by {
            assert forall|i: int, j: int| 0 <= i < keys.len() && 0 <= j < keys.len() && i != j implies keys[i] != keys[j] by {
                if i < j {
                    assert(self.entries@[i].0@ != self.entries@[j].0@ || self.entries@[i].1@ != self.entries@[j].1@);
                } else {
                    assert(self.entries@[j].0@ != self.entries@[i].0@ || self.entries@[j].1@ != self.entries@[i].1@);
                }
            }
        }
        keys.unique_seq_to_set();
    }

    /// The raft instance of a network and raft id, if one was created.
    pub fn get(&self, dna_hash: &Vec<u8>, raft_id: &RaftId) -> (res: Option<&V>)
        ensures
            res is Some <==> self@.contains_key(raft_key(dna_hash@, *raft_id)),
            res matches Some(v) ==> *v == self@[raft_key(dna_hash@, *raft_id)],
    {
        proof { use_type_invariant(self); }
        match self.position_of(dna_hash, raft_id) {
            Some(i) => Some(&self.entries[i].2),
            None => None,
        }
    }

    /// Records the raft instance created for a network and raft id that had
    /// none.
    pub fn insert_new(&mut self, dna_hash: Vec<u8>, raft_id: RaftId, instance: V)
        requires
            !old(self)@.contains_key(raft_key(dna_hash@, raft_id)),
        ensures
            final(self)@ == old(self)@.insert(raft_key(dna_hash@, raft_id), instance),
    {
        proof { use_type_invariant(&*self); }
        let ghost key = raft_key(dna_hash@, raft_id);
        let mut me = RaftRegistry::new();
        std::mem::swap(&mut me, self);
        proof { use_type_invariant(&me); }
        let RaftRegistry { mut entries, map } = me;
        let ghost old_entries = entries@;
        let ghost new_map = map@.insert(key, instance);
        entries.push((dna_hash, raft_id, instance));
        assert forall|i: int, j: int| 0 <= i < j < entries@.len() implies (#[trigger] entries@[i]).0@
            != (#[trigger] entries@[j]).0@ || entries@[i].1@ != entries@[j].1@ by {
            if j == entries@.len() - 1 {
                assert(map@.contains_key((old_entries[i].0@, old_entries[i].1@)));
            } else {
                assert(old_entries[i] == entries@[i] && old_entries[j] == entries@[j]);
            }
        }
        assert forall|i: int| 0 <= i < entries@.len() implies #[trigger] new_map.contains_key((entries@[i].0@, entries@[i].1@))
            && new_map[(entries@[i].0@, entries@[i].1@)] == entries@[i].2 by {
            if i < old_entries.len() {
                assert(old_entries[i] == entries@[i]);
                assert(map@.contains_key((old_entries[i].0@, old_entries[i].1@)));
                assert((old_entries[i].0@, old_entries[i].1@) != key);
            }
        }
        assert forall|k: (Seq<u8>, Seq<u8>)| #[trigger] new_map.contains_key(k) implies exists|i: int|
            0 <= i < entries@.len() && (#[trigger] entries@[i]).0@ == k.0 && entries@[i].1@ == k.1 by {
            if k == key {
                let last = entries@.len() - 1;
                assert(entries@[last].0@ == k.0 && entries@[last].1@ == k.1);
            } else {
                let i = choose|i: int| 0 <= i < old_entries.len() && (#[trigger] old_entries[i]).0@ == k.0 && old_entries[i].1@ == k.1;
                assert(entries@[i] == old_entries[i]);
            }
        }
        assert(keys_unique(entries@));
        assert(listed_in_map(entries@, new_map));
        assert(map_listed(entries@, new_map));
        *self = RaftRegistry { entries, map: Ghost(new_map) };
    }
}

/// One lookup of a raft instance, as a conductor makes it: the instance
/// already recorded for the key, or else `fresh`, recorded for it. Gives the
/// registry after the lookup and the instance the lookup hands out.
pub open spec fn lookup_step<V>(
    registry: Map<(Seq<u8>, Seq<u8>), V>,
    key: (Seq<u8>, Seq<u8>),
    fresh: V,
) -> (Map<(Seq<u8>, Seq<u8>), V>, V) {
    if registry.contains_key(key) {
        (registry, registry[key])
    } else {
        (registry.insert(key, fresh), fresh)
    }
}

/// Two lookups of the same network and raft id, with nothing in between,
/// hand out the same instance (whatever the second would have created), and
/// together add at most one instance to the registry.
pub proof fn lemma_lookups_share_instance<V>(
    registry: Map<(Seq<u8>, Seq<u8>), V>,
    key: (Seq<u8>, Seq<u8>),
    first_fresh: V,
    second_fresh: V,
)
    requires
        registry.dom().finite(),
    ensures
        lookup_step(lookup_step(registry, key, first_fresh).0, key, second_fresh).1
            == lookup_step(registry, key, first_fresh).1,
        lookup_step(lookup_step(registry, key, first_fresh).0, key, second_fresh).0
            == lookup_step(registry, key, first_fresh).0,
        lookup_step(registry, key, first_fresh).0.dom().finite(),
        lookup_step(registry, key, first_fresh).0.len() <= registry.len() + 1,
{
    if !registry.contains_key(key) {
        assert(registry.insert(key, first_fresh).dom() =~= registry.dom().insert(key));
    }
}

/// What a lookup gives back after a raft instance was recorded: the
/// instance for its own key, and for any other key what it gave before.
pub proof fn lemma_lookup_after_insert<V>(
    before: Map<(Seq<u8>, Seq<u8>), V>,
    key: (Seq<u8>, Seq<u8>),
    instance: V,
    other: (Seq<u8>, Seq<u8>),
)
    ensures
        before.insert(key, instance).contains_key(key),
        before.insert(key, instance)[key] == instance,
        other != key ==> (before.insert(key, instance).contains_key(other) == before.contains_key(other)
            && before.insert(key, instance)[other] == before[other]),
{
}

} // verus!
