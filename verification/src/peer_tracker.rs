//! Tracks which raft peers have recently answered, and picks the voters to
//! remove when they have been silent for too long.

use vstd::prelude::*;
use crate::node::{HcNode, node_keys, distinct_nodes, contains_node, without};
use crate::presence::{PresenceLog, MonotonicClock, recent_keys};

verus! {

/// How long (ns) a peer counts as present after it was last heard from.
pub const PRESENCE_WINDOW: u64 = 5_000_000_000;

/// The peers other than the local node heard from within `interval` ns of
/// `now`.
pub open spec fn responsive_keys(seen: Map<Seq<u8>, u64>, local: Seq<u8>, interval: u64, now: u64) -> Set<Seq<u8>> {
    recent_keys(seen, interval, now).remove(local)
}

/// The voters other than the local node that have not been heard from within
/// `interval` ns of `now`.
pub open spec fn absent_keys(
    seen: Map<Seq<u8>, u64>,
    local: Seq<u8>,
    voters: Seq<HcNode>,
    interval: u64,
    now: u64,
) -> Set<Seq<u8>> {
    node_keys(voters).difference(recent_keys(seen, interval, now)).remove(local)
}

/// The last-seen map after each of `agents` was seen at `now`.
pub open spec fn touched_all(seen: Map<Seq<u8>, u64>, agents: Set<Seq<u8>>, now: u64) -> Map<Seq<u8>, u64> {
    seen.union_prefer_right(Map::new(|k: Seq<u8>| agents.contains(k), |k: Seq<u8>| now))
}

/// Remembers when each peer of a local node was last heard from.
pub struct PeerTracker {
    last_seen: PresenceLog,
    clock: MonotonicClock,
    /// The latest clock reading taken by a call that records or removes.
    latest: u64,
    local: HcNode,
}

impl View for PeerTracker {
    type V = Map<Seq<u8>, u64>;

    closed spec fn view(&self) -> Map<Seq<u8>, u64> {
        self.last_seen@
    }
}

impl PeerTracker {
    #[verifier::type_invariant]
    spec fn well_formed(self) -> bool {
        self.last_seen.well_formed()
    }

    /// The node whose peers are tracked.
    pub closed spec fn local(&self) -> Seq<u8> {
        self.local@
    }

    /// The tracker's latest clock reading (ns): the moment of its latest
    /// clock-read call. Every later clock-read call happens no earlier.
    pub closed spec fn clock(&self) -> u64 {
        self.latest
    }

    /// A tracker for the peers of `local` that has heard from nobody yet.
    pub fn new(local: HcNode) -> (res: PeerTracker)
        ensures
            res@ == Map::<Seq<u8>, u64>::empty(),
            res.local() == local@,
            res.clock() == 0,
    {
        PeerTracker { last_seen: PresenceLog::new(), clock: MonotonicClock::start(), latest: 0, local }
    }

    /// The node whose peers are tracked.
    pub fn local_node(&self) -> (res: &HcNode)
        ensures
            res@ == self.local(),
    {
        &self.local
    }

    /// The tracker's clock reading (ns), no earlier than its latest one.
    pub fn now(&self) -> (res: u64)
        ensures
            res >= self.clock(),
    {
        self.clock.now_after(self.latest)
    }

    /// Records that `agent` was heard from now: at a fresh clock reading, no
    /// earlier than any before it.
    pub fn touch(&mut self, agent: HcNode)
        ensures
            final(self)@ == old(self)@.insert(agent@, final(self).clock()),
            final(self).clock() >= old(self).clock(),
            final(self).local() == old(self).local(),
    {
        proof { use_type_invariant(&*self); }
        let now = self.clock.now_after(self.latest);
        self.latest = now;
        self.touch_at(agent, now);
    }

    /// Records that `agent` was heard from at `now`.
    pub fn touch_at(&mut self, agent: HcNode, now: u64)
        ensures
            final(self)@ == old(self)@.insert(agent@, now),
            final(self).local() == old(self).local(),
            final(self).clock() == old(self).clock(),
    {
        proof { use_type_invariant(&*self); }
        let mut log = PresenceLog::new();
        std::mem::swap(&mut log, &mut self.last_seen);
        log.touch_at(agent, now);
        self.last_seen = log;
    }

    /// The peers heard from within the last `interval` ns, each once; the
    /// local node is never among them.
    pub fn responsive_peers(&self, interval: u64) -> (res: Vec<HcNode>)
        ensures
            exists|now: u64|
                now >= self.clock() && node_keys(res@) == responsive_keys(self@, self.local(), interval, now),
            distinct_nodes(res@),
    {
        let now = self.clock.now_after(self.latest);
        self.responsive_peers_at(interval, now)
    }

    /// The peers heard from within `interval` ns before `now`, each once;
    /// the local node is never among them.
    pub fn responsive_peers_at(&self, interval: u64, now: u64) -> (res: Vec<HcNode>)
        ensures
            node_keys(res@) == responsive_keys(self@, self.local(), interval, now),
            distinct_nodes(res@),
    {
        proof { use_type_invariant(self); }
        let recent = self.last_seen.recent_at(interval, now);
        without(&recent, &self.local)
    }

    /// The voters other than the local node not heard from within `interval`
    /// ns before `now`, each once.
    pub fn unresponsive_members_at(&self, voters: &Vec<HcNode>, interval: u64, now: u64) -> (res: Vec<
        HcNode,
    >)
        ensures
            node_keys(res@) == absent_keys(self@, self.local(), voters@, interval, now),
            distinct_nodes(res@),
    {
        let here = self.responsive_peers_at(interval, now);
        let mut res: Vec<HcNode> = Vec::new();
        let mut i: usize = 0;
        while i < voters.len()
            invariant
                i <= voters@.len(),
                node_keys(here@) == responsive_keys(self@, self.local(), interval, now),
                node_keys(res@) == absent_keys(self@, self.local(), voters@.subrange(0, i as int), interval, now),
                distinct_nodes(res@),
            decreases voters.len() - i,
        {
            let v = &voters[i];
            let ghost before = res@;
            let ghost prefix = voters@.subrange(0, i as int);
            let ghost next = voters@.subrange(0, i + 1);
            if !contains_node(&here, v) && !v.same_as(&self.local) && !contains_node(&res, v) {
                res.push(v.clone());
                assert forall|a: int, b: int| 0 <= a < b < res@.len() implies #[trigger] res@[a]@ != #[trigger] res@[b]@ by {
                    if b == res@.len() - 1 {
                        assert(node_keys(before).contains(before[a]@));
                    }
                }
            }
            assert(node_keys(res@) =~= absent_keys(self@, self.local(), next, interval, now)) by {
                assert forall|k: Seq<u8>| node_keys(next).contains(k) && !recent_keys(self@, interval, now).contains(k)
                    && k != self.local() implies node_keys(res@).contains(k) by {
                    let j = choose|j: int| 0 <= j < next.len() && #[trigger] next[j]@ == k;
                    if j < i {
                        assert(prefix[j]@ == k);
                        assert(node_keys(prefix).contains(k));
                        assert(absent_keys(self@, self.local(), prefix, interval, now).contains(k));
                        assert(node_keys(before).contains(k));
                        let m = choose|m: int| 0 <= m < before.len() && #[trigger] before[m]@ == k;
                        assert(res@[m]@ == k);
                    } else if node_keys(before).contains(k) {
                        let m = choose|m: int| 0 <= m < before.len() && #[trigger] before[m]@ == k;
                        assert(res@[m]@ == k);
                    } else {
                        assert(res@[res@.len() - 1]@ == k);
                    }
                }
                assert forall|k: Seq<u8>| node_keys(res@).contains(k) implies node_keys(next).contains(k)
                    && !recent_keys(self@, interval, now).contains(k) && k != self.local() by {
                    let m = choose|m: int| 0 <= m < res@.len() && #[trigger] res@[m]@ == k;
                    if m < before.len() {
                        assert(before[m]@ == k);
                        assert(node_keys(before).contains(k));
                        let j = choose|j: int| 0 <= j < prefix.len() && #[trigger] prefix[j]@ == k;
                        assert(next[j]@ == k);
                    } else {
                        assert(next[i as int]@ == k);
                        assert(!node_keys(here@).contains(k));
                    }
                }
            }
            i = i + 1;
        }
        assert(voters@.subrange(0, voters@.len() as int) =~= voters@);
        res
    }

    /// The voters other than the local node not heard from within the last
    /// `interval` ns, each once.
    pub fn unresponsive_members(&self, voters: &Vec<HcNode>, interval: u64) -> (res: Vec<HcNode>)
        ensures
            exists|now: u64|
                now >= self.clock() && node_keys(res@) == absent_keys(self@, self.local(), voters@, interval, now),
            distinct_nodes(res@),
    {
        let now = self.clock.now_after(self.latest);
        self.unresponsive_members_at(voters, interval, now)
    }

    /// Picks the voters to remove from the cluster at `now`: those not heard
    /// from within `interval` ns. Each of them is then marked as seen at
    /// `now`, so that a removal is attempted at most once per interval.
    pub fn handle_absentees_at(&mut self, voters: &Vec<HcNode>, interval: u64, now: u64) -> (removed: Vec<
        HcNode,
    >)
        ensures
            node_keys(removed@) == absent_keys(old(self)@, old(self).local(), voters@, interval, now),
            !node_keys(removed@).contains(old(self).local()),
            distinct_nodes(removed@),
            final(self)@ == touched_all(old(self)@, node_keys(removed@), now),
            final(self).local() == old(self).local(),
            final(self).clock() == old(self).clock(),
    {
        let removed = self.unresponsive_members_at(voters, interval, now);
        let ghost start = self@;
        let mut i: usize = 0;
        while i < removed.len()
            invariant
                i <= removed@.len(),
                self@ == touched_all(start, node_keys(removed@.subrange(0, i as int)), now),
                self.local() == old(self).local(),
                self.clock() == old(self).clock(),
            decreases removed.len() - i,
        {
            let ghost before = self@;
            self.touch_at(removed[i].clone(), now);
            proof {
                let prev = node_keys(removed@.subrange(0, i as int));
                let next = node_keys(removed@.subrange(0, i + 1));
                assert(next =~= prev.insert(removed@[i as int]@)) by {
                    assert forall|k: Seq<u8>| next.contains(k) implies prev.insert(removed@[i as int]@).contains(k) by {
                        let j = choose|j: int| 0 <= j < i + 1 && #[trigger] removed@.subrange(0, i + 1)[j]@ == k;
                        if j < i {
                            assert(removed@.subrange(0, i as int)[j]@ == k);
                        }
                    }
                    assert forall|k: Seq<u8>| prev.insert(removed@[i as int]@).contains(k) implies next.contains(k) by {
                        if prev.contains(k) {
                            let j = choose|j: int| 0 <= j < i && #[trigger] removed@.subrange(0, i as int)[j]@ == k;
                            assert(removed@.subrange(0, i + 1)[j]@ == k);
                        } else {
                            assert(removed@.subrange(0, i + 1)[i as int]@ == k);
                        }
                    }
                }
                lemma_touch_one_more(start, prev, removed@[i as int]@, now);
            }
            i = i + 1;
        }
        assert(removed@.subrange(0, removed@.len() as int) =~= removed@);
        removed
    }

    /// Picks and marks the voters that have been silent for longer than the
    /// presence window, judged at one fresh clock reading, no earlier than
    /// any before it.
    pub fn handle_absentees(&mut self, voters: &Vec<HcNode>) -> (removed: Vec<HcNode>)
        ensures
            final(self).clock() >= old(self).clock(),
            node_keys(removed@) == absent_keys(
                old(self)@,
                old(self).local(),
                voters@,
                PRESENCE_WINDOW,
                final(self).clock(),
            ),
            final(self)@ == touched_all(old(self)@, node_keys(removed@), final(self).clock()),
            !node_keys(removed@).contains(old(self).local()),
            distinct_nodes(removed@),
            final(self).local() == old(self).local(),
    {
        proof { use_type_invariant(&*self); }
        let now = self.clock.now_after(self.latest);
        self.latest = now;
        self.handle_absentees_at(voters, PRESENCE_WINDOW, now)
    }

    /// A reply just came from `from` at `now`: records it, then picks and
    /// marks the voters silent for longer than `interval` ns.
    pub fn record_reply_at(&mut self, from: HcNode, voters: &Vec<HcNode>, interval: u64, now: u64) -> (removed: Vec<
        HcNode,
    >)
        ensures
            node_keys(removed@) == absent_keys(old(self)@.insert(from@, now), old(self).local(), voters@, interval, now),
            !node_keys(removed@).contains(old(self).local()),
            distinct_nodes(removed@),
            final(self)@ == touched_all(old(self)@.insert(from@, now), node_keys(removed@), now),
            final(self).local() == old(self).local(),
            final(self).clock() == old(self).clock(),
    {
        self.touch_at(from, now);
        self.handle_absentees_at(voters, interval, now)
    }

    /// [`Self::record_reply_at`] with the presence window, at one fresh
    /// clock reading, no earlier than any before it.
    pub fn record_reply(&mut self, from: HcNode, voters: &Vec<HcNode>) -> (removed: Vec<HcNode>)
        ensures
            final(self).clock() >= old(self).clock(),
            node_keys(removed@) == absent_keys(
                old(self)@.insert(from@, final(self).clock()),
                old(self).local(),
                voters@,
                PRESENCE_WINDOW,
                final(self).clock(),
            ),
            final(self)@ == touched_all(
                old(self)@.insert(from@, final(self).clock()),
                node_keys(removed@),
                final(self).clock(),
            ),
            !node_keys(removed@).contains(old(self).local()),
            distinct_nodes(removed@),
            final(self).local() == old(self).local(),
    {
        proof { use_type_invariant(&*self); }
        let now = self.clock.now_after(self.latest);
        self.latest = now;
        self.record_reply_at(from, voters, PRESENCE_WINDOW, now)
    }

    /// The log of when each peer was last heard from.
    pub fn last_seen(&self) -> (res: &PresenceLog)
        ensures
            res@ == self@,
            res.well_formed(),
    {
        proof { use_type_invariant(self); }
        &self.last_seen
    }
}

/// Marking one more agent as seen at `now` extends the marked set by it.
proof fn lemma_touch_one_more(seen: Map<Seq<u8>, u64>, agents: Set<Seq<u8>>, agent: Seq<u8>, now: u64)
    ensures
        touched_all(seen, agents, now).insert(agent, now) == touched_all(seen, agents.insert(agent), now),
{
    assert(touched_all(seen, agents, now).insert(agent, now) =~= touched_all(seen, agents.insert(agent), now));
}

/// Once the absentees of `voters` have been handled at `now`, none of the
/// voters is absent at `now` any more (for a non-empty window): a removal is
/// not attempted twice within one window.
pub proof fn lemma_handled_absentees_are_present(
    seen: Map<Seq<u8>, u64>,
    local: Seq<u8>,
    voters: Seq<HcNode>,
    interval: u64,
    now: u64,
)
    requires
        interval > 0,
    ensures
        absent_keys(
            touched_all(seen, absent_keys(seen, local, voters, interval, now), now),
            local,
            voters,
            interval,
            now,
        ).is_empty(),
{
    let absent = absent_keys(seen, local, voters, interval, now);
    let after = touched_all(seen, absent, now);
    assert(absent_keys(after, local, voters, interval, now) =~= Set::empty()) by {
        assert forall|k: Seq<u8>| !absent_keys(after, local, voters, interval, now).contains(k) by {
            if node_keys(voters).contains(k) && k != local {
                if absent.contains(k) {
                    assert(after.dom().contains(k) && after[k] == now);
                } else {
                    assert(recent_keys(seen, interval, now).contains(k));
                    assert(after.dom().contains(k) && after[k] == seen[k]);
                }
            }
        }
    }
}

/// A peer other than the local node, last heard from at `heard`, is listed
/// as responsive at any moment `now` no earlier than that exactly while
/// fewer than `interval` ns have passed since it was heard from.
pub proof fn lemma_responsive_while_recent(
    seen: Map<Seq<u8>, u64>,
    local: Seq<u8>,
    agent: Seq<u8>,
    heard: u64,
    now: u64,
    interval: u64,
)
    requires
        agent != local,
        heard <= now,
    ensures
        responsive_keys(seen.insert(agent, heard), local, interval, now).contains(agent) <==> now - heard
            < interval,
{
    let after = seen.insert(agent, heard);
    assert(after.dom().contains(agent) && after[agent] == heard);
}

/// A voter other than the local node, last heard from at `heard`, is picked
/// as absent at any moment `now` no earlier than that exactly when at least
/// `interval` ns have passed since; a voter never heard from is always
/// picked; the local node never is.
pub proof fn lemma_absent_once_silent(
    seen: Map<Seq<u8>, u64>,
    local: Seq<u8>,
    voters: Seq<HcNode>,
    agent: Seq<u8>,
    heard: u64,
    now: u64,
    interval: u64,
)
    requires
        agent != local,
        heard <= now,
        node_keys(voters).contains(agent),
    ensures
        absent_keys(seen.insert(agent, heard), local, voters, interval, now).contains(agent) <==> now - heard
            >= interval,
        !seen.dom().contains(agent) ==> absent_keys(seen, local, voters, interval, now).contains(agent),
        !absent_keys(seen, local, voters, interval, now).contains(local),
{
    let after = seen.insert(agent, heard);
    assert(after.dom().contains(agent) && after[agent] == heard);
}

} // verus!
