//! When each peer was last heard from, on a monotonic nanosecond clock.

use vstd::prelude::*;
use crate::node::{HcNode, node_keys, distinct_nodes};

verus! {

/// How long ago (ns) a moment `then` was, seen from `now`; a moment in the
/// future counts as no time ago.
pub open spec fn age(now: u64, then: u64) -> int {
    if now >= then {
        now - then
    } else {
        0
    }
}

/// The agents of a last-seen map heard from within `interval` ns of `now`.
pub open spec fn recent_keys(seen: Map<Seq<u8>, u64>, interval: u64, now: u64) -> Set<Seq<u8>> {
    Set::new(|k: Seq<u8>| seen.dom().contains(k) && age(now, seen[k]) < interval)
}

/// The agents of a last-seen map, each with the moment it was last heard from.
pub struct PresenceLog {
    entries: Vec<(HcNode, u64)>,
    seen: Ghost<Map<Seq<u8>, u64>>,
}

impl View for PresenceLog {
    type V = Map<Seq<u8>, u64>;

    closed spec fn view(&self) -> Map<Seq<u8>, u64> {
        self.seen@
    }
}

impl PresenceLog {
    /// Each agent is listed once, and the list and the map agree.
    pub closed spec fn well_formed(self) -> bool {
        &&& forall|i: int, j: int|
            0 <= i < j < self.entries@.len() ==> #[trigger] self.entries@[i].0@
                != #[trigger] self.entries@[j].0@
        &&& forall|i: int|
            0 <= i < self.entries@.len() ==> self.seen@.dom().contains(#[trigger] self.entries@[i].0@)
                && self.seen@[self.entries@[i].0@] == self.entries@[i].1
        &&& forall|k: Seq<u8>|
            #[trigger] self.seen@.dom().contains(k) ==> exists|i: int|
                0 <= i < self.entries@.len() && #[trigger] self.entries@[i].0@ == k
    }

    /// A log in which nobody has been seen.
    pub fn new() -> (res: PresenceLog)
        ensures
            res.well_formed(),
            res@ == Map::<Seq<u8>, u64>::empty(),
    {
        PresenceLog { entries: Vec::new(), seen: Ghost(Map::empty()) }
    }

    /// The number of agents seen so far.
    pub fn len(&self) -> (res: usize)
        requires
            self.well_formed(),
        ensures
            res == self@.len(),
            self@.dom().finite(),
    {
        proof {
            self.lemma_dom_is_listed();
        }
        self.entries.len()
    }

    proof fn lemma_dom_is_listed(&self)
        requires
            self.well_formed(),
        ensures
            self@.dom() == self.entries@.map_values(|e: (HcNode, u64)| e.0@).to_set(),
            self@.dom().finite(),
            self@.dom().len() == self.entries@.len(),
    {
        let keys = self.entries@.map_values(|e: (HcNode, u64)| e.0@);
        assert(self@.dom() =~= keys.to_set()) by {
            assert forall|k: Seq<u8>| self@.dom().contains(k) implies keys.to_set().contains(k) by {
                let i = choose|i: int| 0 <= i < self.entries@.len() && #[trigger] self.entries@[i].0@ == k;
                assert(keys[i] == k);
            }
            assert forall|k: Seq<u8>| keys.to_set().contains(k) implies self@.dom().contains(k) by {
                let i = choose|i: int| 0 <= i < keys.len() && keys[i] == k;
                assert(self.entries@[i].0@ == k);
            }
        }
        assert(keys.no_duplicates()) by {
            assert forall|i: int, j: int| 0 <= i < keys.len() && 0 <= j < keys.len() && i != j implies keys[i] != keys[j] by {
                if i < j {
                    assert(self.entries@[i].0@ != self.entries@[j].0@);
                } else {
                    assert(self.entries@[j].0@ != self.entries@[i].0@);
                }
            }
        }
        keys.unique_seq_to_set();
    }

    /// Where an agent is listed, if it is.
    fn position_of(&self, agent: &HcNode) -> (res: Option<usize>)
        requires
            self.well_formed(),
        ensures
            res is Some <==> self@.dom().contains(agent@),
            res matches Some(i) ==> i < self.entries@.len() && self.entries@[i as int].0@ == agent@,
    {
        let mut i: usize = 0;
        while i < self.entries.len()
            invariant
                i <= self.entries@.len(),
                self.well_formed(),
                forall|j: int| 0 <= j < i ==> #[trigger] self.entries@[j].0@ != agent@,
            decreases self.entries.len() - i,
        {
            if self.entries[i].0.same_as(agent) {
                return Some(i);
            }
            i = i + 1;
        }
        proof {
            if self@.dom().contains(agent@) {
                let j = choose|j: int| 0 <= j < self.entries@.len() && #[trigger] self.entries@[j].0@ == agent@;
                assert(self.entries@[j].0@ != agent@);
            }
        }
        None
    }

    /// When an agent was last seen, if ever.
    pub fn last_seen_of(&self, agent: &HcNode) -> (res: Option<u64>)
        requires
            self.well_formed(),
        ensures
            res is Some <==> self@.dom().contains(agent@),
            res matches Some(t) ==> t == self@[agent@],
    {
        match self.position_of(agent) {
            Some(i) => Some(self.entries[i].1),
            None => None,
        }
    }

    /// Records that an agent was seen at `now`.
    pub fn touch_at(&mut self, agent: HcNode, now: u64)
        requires
            old(self).well_formed(),
        ensures
            final(self).well_formed(),
            final(self)@ == old(self)@.insert(agent@, now),
    {
        let ghost old_seen = self.seen@;
        let ghost old_entries = self.entries@;
        let ghost key = agent@;
        match self.position_of(&agent) {
            Some(i) => {
                let ghost new_seen = old_seen.insert(key, now);
                self.entries.set(i, (agent, now));
                let ghost entries = self.entries;
                assert forall|a: int, b: int| 0 <= a < b < entries@.len() implies #[trigger] entries@[a].0@
                    != #[trigger] entries@[b].0@ by {
                    assert(old_entries[a].0@ != old_entries[b].0@);
                    if a == i {
                        assert(old_entries[i as int].0@ == key);
                    }
                    if b == i {
                        assert(old_entries[i as int].0@ == key);
                    }
                }
                assert forall|k: Seq<u8>| #[trigger] new_seen.dom().contains(k) implies exists|j: int|
                    0 <= j < entries@.len() && #[trigger] entries@[j].0@ == k by {
                    if k == key {
                        assert(entries@[i as int].0@ == k);
                    } else {
                        assert(old_seen.dom().contains(k));
                        let j = choose|j: int| 0 <= j < old_entries.len() && #[trigger] old_entries[j].0@ == k;
                        assert(entries@[j].0@ == k);
                    }
                }
                assert forall|j: int| 0 <= j < entries@.len() implies new_seen.dom().contains(#[trigger] entries@[j].0@)
                    && new_seen[entries@[j].0@] == entries@[j].1 by {
                    if j != i {
                        assert(old_entries[j].0@ != key) by {
                            if j < i {
                                assert(old_entries[j].0@ != old_entries[i as int].0@);
                            } else {
                                assert(old_entries[i as int].0@ != old_entries[j].0@);
                            }
                        }
                    }
                }
                self.seen = Ghost(new_seen);
                assert(self.entries@ == entries@);
                assert(self.seen@ == new_seen);
                assert(self.well_formed());
            },
            None => {
                let ghost new_seen = old_seen.insert(key, now);
                self.entries.push((agent, now));
                let ghost entries = self.entries;
                assert forall|a: int, b: int| 0 <= a < b < entries@.len() implies #[trigger] entries@[a].0@
                    != #[trigger] entries@[b].0@ by {
                    if b == entries@.len() - 1 {
                        assert(old_seen.dom().contains(old_entries[a].0@));
                    } else {
                        assert(old_entries[a].0@ != old_entries[b].0@);
                    }
                }
                assert forall|k: Seq<u8>| #[trigger] new_seen.dom().contains(k) implies exists|j: int|
                    0 <= j < entries@.len() && #[trigger] entries@[j].0@ == k by {
                    if k == key {
                        assert(entries@[entries@.len() - 1].0@ == k);
                    } else {
                        assert(old_seen.dom().contains(k));
                        let j = choose|j: int| 0 <= j < old_entries.len() && #[trigger] old_entries[j].0@ == k;
                        assert(entries@[j].0@ == k);
                    }
                }
                assert forall|j: int| 0 <= j < entries@.len() implies new_seen.dom().contains(#[trigger] entries@[j].0@)
                    && new_seen[entries@[j].0@] == entries@[j].1 by {
                    if j < old_entries.len() {
                        assert(old_seen.dom().contains(old_entries[j].0@));
                        assert(old_entries[j].0@ != key);
                    }
                }
                self.seen = Ghost(new_seen);
                assert(self.entries@ == entries@);
                assert(self.seen@ == new_seen);
                assert(self.well_formed());
            },
        }
    }

    /// The agents seen within `interval` ns before `now`, each once.
    pub fn recent_at(&self, interval: u64, now: u64) -> (res: Vec<HcNode>)
        requires
            self.well_formed(),
        ensures
            node_keys(res@) == recent_keys(self@, interval, now),
            distinct_nodes(res@),
    {
        let mut res: Vec<HcNode> = Vec::new();
        let mut i: usize = 0;
        while i < self.entries.len()
            invariant
                i <= self.entries@.len(),
                self.well_formed(),
                forall|m: int| 0 <= m < res@.len() ==> exists|j: int| 0 <= j < i && #[trigger] self.entries@[j].0@ == #[trigger] res@[m]@,
                forall|j: int| 0 <= j < i && age(now, #[trigger] self.entries@[j].1) < interval ==> node_keys(res@).contains(self.entries@[j].0@),
                forall|m: int| 0 <= m < res@.len() ==> recent_keys(self@, interval, now).contains(#[trigger] res@[m]@),
                distinct_nodes(res@),
            decreases self.entries.len() - i,
        {
            let t = self.entries[i].1;
            let elapsed: u64 = if now >= t { now - t } else { 0 };
            let ghost before = res@;
            if elapsed < interval {
                res.push(self.entries[i].0.clone());
                assert(res@[res@.len() - 1]@ == self.entries@[i as int].0@);
                assert forall|a: int, b: int| 0 <= a < b < res@.len() implies #[trigger] res@[a]@ != #[trigger] res@[b]@ by {
                    if b == res@.len() - 1 {
                        let j = choose|j: int| 0 <= j < i && #[trigger] self.entries@[j].0@ == before[a]@;
                        assert(self.entries@[j].0@ != self.entries@[i as int].0@);
                    }
                }
                assert forall|m: int| 0 <= m < res@.len() implies exists|j: int| 0 <= j < i + 1 && #[trigger] self.entries@[j].0@ == #[trigger] res@[m]@ by {
                    if m < before.len() {
                        let j = choose|j: int| 0 <= j < i && #[trigger] self.entries@[j].0@ == before[m]@;
                        assert(self.entries@[j].0@ == res@[m]@);
                    } else {
                        assert(self.entries@[i as int].0@ == res@[m]@);
                    }
                }
                assert forall|j: int| 0 <= j < i + 1 && age(now, #[trigger] self.entries@[j].1) < interval implies node_keys(res@).contains(self.entries@[j].0@) by {
                    if j < i {
                        let m = choose|m: int| 0 <= m < before.len() && #[trigger] before[m]@ == self.entries@[j].0@;
                        assert(res@[m]@ == self.entries@[j].0@);
                    } else {
                        assert(res@[res@.len() - 1]@ == self.entries@[j].0@);
                    }
                }
            }
            i = i + 1;
        }
        assert(node_keys(res@) =~= recent_keys(self@, interval, now)) by {
            assert forall|k: Seq<u8>| recent_keys(self@, interval, now).contains(k) implies node_keys(res@).contains(k) by {
                let j = choose|j: int| 0 <= j < self.entries@.len() && #[trigger] self.entries@[j].0@ == k;
                assert(self@[k] == self.entries@[j].1);
            }
            assert forall|k: Seq<u8>| node_keys(res@).contains(k) implies recent_keys(self@, interval, now).contains(k) by {
                let m = choose|m: int| 0 <= m < res@.len() && #[trigger] res@[m]@ == k;
            }
        }
        res
    }
}

/// An agent just recorded as seen at `now` is among those seen within any
/// non-empty interval before `now`, and recording it leaves every other
/// agent's standing unchanged.
pub proof fn lemma_touched_is_recent(seen: Map<Seq<u8>, u64>, agent: Seq<u8>, now: u64, interval: u64, other: Seq<u8>, at: u64)
    requires
        interval > 0,
    ensures
        recent_keys(seen.insert(agent, now), interval, now).contains(agent),
        other != agent ==> (recent_keys(seen.insert(agent, now), interval, at).contains(other)
            == recent_keys(seen, interval, at).contains(other)),
{
}

/// A monotonic nanosecond clock that starts when it is created.
pub struct MonotonicClock {
    origin: tokio::time::Instant,
}

impl MonotonicClock {
    /// A clock whose zero is the moment of this call.
    pub fn start() -> (res: MonotonicClock) {
        MonotonicClock { origin: instant_now() }
    }

    /// Nanoseconds since the clock started.
    pub fn now(&self) -> u64 {
        nanos_since(&self.origin)
    }

    /// Nanoseconds since the clock started, read as no earlier than `floor`,
    /// an earlier reading of this clock: readings taken this way, each
    /// bounded by the one before, never go backwards.
    pub fn now_after(&self, floor: u64) -> (res: u64)
        ensures
            res >= floor,
    {
        let elapsed = self.now();
        if elapsed < floor {
            floor
        } else {
            elapsed
        }
    }
}

#[verifier::external_type_specification]
#[verifier::external_body]
pub struct ExTokioInstant(tokio::time::Instant);

/// Calls `tokio::time::Instant::now`. Nothing is stated of the moment read.
#[verifier::external_body]
fn instant_now() -> tokio::time::Instant {
    tokio::time::Instant::now()
}

/// Calls `tokio::time::Instant::elapsed` and reads it in whole nanoseconds
/// (the resolution of `Duration`; a `u64` holds over 584 years of them).
/// What comes back depends on the time of the call and is not described.
#[verifier::external_body]
fn nanos_since(origin: &tokio::time::Instant) -> u64 {
    origin.elapsed().as_nanos() as u64
}

} // verus!
