//! Decides when a raft instance has been without a quorum of present peers
//! for long enough that a fork should be started.

use vstd::prelude::*;
use crate::node::{HcNode, node_keys, distinct_nodes, contains_node};
use crate::peer_tracker::PRESENCE_WINDOW;
use crate::presence::{PresenceLog, MonotonicClock, recent_keys, age};

verus! {

/// How long (ns) the present peers must have failed to form a quorum before
/// it is time to fork.
pub const FORKING_WINDOW: u64 = 15_000_000_000;

/// Names a fork of a raft instance.
#[derive(Clone, Debug)]
pub struct RaftForkId(pub Vec<u8>);

/// One observation of the fork decision: with an active fork nothing
/// changes; otherwise a quorum clears the start of the quorum-less stretch,
/// and a missing quorum starts one if none is running.
pub open spec fn next_quorumless_since(
    active_fork: bool,
    quorumless_since: Option<u64>,
    is_quorum: bool,
    now: u64,
) -> Option<u64> {
    if active_fork {
        quorumless_since
    } else if is_quorum {
        None
    } else if quorumless_since is None {
        Some(now)
    } else {
        quorumless_since
    }
}

/// Whether the decision says to fork after that observation.
pub open spec fn is_forking_time(
    active_fork: bool,
    quorumless_since: Option<u64>,
    is_quorum: bool,
    now: u64,
    window: u64,
) -> bool {
    !active_fork && match next_quorumless_since(active_fork, quorumless_since, is_quorum, now) {
        Some(t) => age(now, t) > window,
        None => false,
    }
}

/// How many members of a voter configuration are among the present agents.
pub open spec fn present_count(config: Seq<HcNode>, present: Set<Seq<u8>>) -> nat
    decreases config.len(),
{
    if config.len() == 0 {
        0
    } else {
        present_count(config.drop_last(), present) + if present.contains(config.last()@) {
            1nat
        } else {
            0nat
        }
    }
}

/// The present agents form a quorum of a (possibly joint) membership when
/// they are a strict majority of every one of its voter configurations.
pub open spec fn forms_quorum(configs: Seq<Vec<HcNode>>, present: Set<Seq<u8>>) -> bool {
    forall|i: int| 0 <= i < configs.len() ==> 2 * present_count(#[trigger] configs[i]@, present) > configs[i]@.len()
}

/// How many members of one configuration are present.
fn count_present(config: &Vec<HcNode>, present: &Vec<HcNode>) -> (res: usize)
    ensures
        res == present_count(config@, node_keys(present@)),
{
    let mut count: usize = 0;
    let mut i: usize = 0;
    while i < config.len()
        invariant
            i <= config@.len(),
            count == present_count(config@.subrange(0, i as int), node_keys(present@)),
            count <= i,
        decreases config.len() - i,
    {
        assert(config@.subrange(0, i + 1).drop_last() =~= config@.subrange(0, i as int));
        if contains_node(present, &config[i]) {
            count = count + 1;
        }
        i = i + 1;
    }
    assert(config@.subrange(0, config@.len() as int) =~= config@);
    count
}

/// Whether the present agents form a quorum of the voter configurations.
pub fn is_quorum(configs: &Vec<Vec<HcNode>>, present: &Vec<HcNode>) -> (res: bool)
    ensures
        res == forms_quorum(configs@, node_keys(present@)),
{
    let mut i: usize = 0;
    while i < configs.len()
        invariant
            i <= configs@.len(),
            forall|j: int| 0 <= j < i ==> 2 * present_count(#[trigger] configs@[j]@, node_keys(present@)) > configs@[j]@.len(),
        decreases configs.len() - i,
    {
        let config = &configs[i];
        let count = count_present(config, present);
        if count > config.len() / 2 {
            assert(2 * present_count(configs@[i as int]@, node_keys(present@)) > configs@[i as int]@.len());
        } else {
            assert(!(2 * present_count(configs@[i as int]@, node_keys(present@)) > configs@[i as int]@.len()));
            return false;
        }
        i = i + 1;
    }
    true
}

/// The presence log and quorum history behind the fork decision.
pub struct Forker {
    last_seen: PresenceLog,
    first_instant_without_quorum: Option<u64>,
    active_fork: Option<RaftForkId>,
    clock: MonotonicClock,
    /// The latest clock reading taken by a call that records or decides.
    latest: u64,
}

impl View for Forker {
    type V = Map<Seq<u8>, u64>;

    closed spec fn view(&self) -> Map<Seq<u8>, u64> {
        self.last_seen@
    }
}

impl Forker {
    #[verifier::type_invariant]
    spec fn well_formed(self) -> bool {
        self.last_seen.well_formed()
    }

    /// The fork this raft instance is running on, if any.
    pub closed spec fn fork(&self) -> Option<RaftForkId> {
        self.active_fork
    }

    /// Since when (ns) the present peers have not formed a quorum, if so.
    pub closed spec fn quorumless_since(&self) -> Option<u64> {
        self.first_instant_without_quorum
    }

    /// The forker's latest clock reading (ns): the moment of its latest
    /// clock-read call that records or decides. Every later clock-read call
    /// happens no earlier.
    pub closed spec fn clock(&self) -> u64 {
        self.latest
    }

    /// A forker that has seen nobody, has no fork and no quorum-less stretch.
    pub fn new() -> (res: Forker)
        ensures
            res@ == Map::<Seq<u8>, u64>::empty(),
            res.quorumless_since() is None,
            res.fork() is None,
            res.clock() == 0,
    {
        Forker {
            last_seen: PresenceLog::new(),
            first_instant_without_quorum: None,
            active_fork: None,
            clock: MonotonicClock::start(),
            latest: 0,
        }
    }

    /// The forker's clock reading (ns), no earlier than its latest one.
    pub fn now(&self) -> (res: u64)
        ensures
            res >= self.clock(),
    {
        self.clock.now_after(self.latest)
    }

    /// Since when the present peers have not formed a quorum, if so.
    pub fn first_instant_without_quorum(&self) -> (res: Option<u64>)
        ensures
            res == self.quorumless_since(),
    {
        self.first_instant_without_quorum
    }

    /// The fork this raft instance is running on, if any.
    pub fn active_fork(&self) -> (res: &Option<RaftForkId>)
        ensures
            *res == self.fork(),
    {
        &self.active_fork
    }

    /// Records the fork this raft instance now runs on (or none).
    pub fn set_active_fork(&mut self, fork: Option<RaftForkId>)
        ensures
            final(self).fork() == fork,
            final(self)@ == old(self)@,
            final(self).quorumless_since() == old(self).quorumless_since(),
            final(self).clock() == old(self).clock(),
    {
        proof { use_type_invariant(&*self); }
        self.active_fork = fork;
    }

    /// Records that `agent` was heard from at `now`.
    pub fn touch_at(&mut self, agent: HcNode, now: u64)
        ensures
            final(self)@ == old(self)@.insert(agent@, now),
            final(self).quorumless_since() == old(self).quorumless_since(),
            final(self).fork() == old(self).fork(),
            final(self).clock() == old(self).clock(),
    {
        proof { use_type_invariant(&*self); }
        let mut log = PresenceLog::new();
        std::mem::swap(&mut log, &mut self.last_seen);
        log.touch_at(agent, now);
        self.last_seen = log;
    }

    /// Records that `agent` was heard from now: at a fresh clock reading, no
    /// earlier than any before it.
    pub fn touch(&mut self, agent: HcNode)
        ensures
            final(self)@ == old(self)@.insert(agent@, final(self).clock()),
            final(self).clock() >= old(self).clock(),
            final(self).quorumless_since() == old(self).quorumless_since(),
            final(self).fork() == old(self).fork(),
    {
        proof { use_type_invariant(&*self); }
        let now = self.clock.now_after(self.latest);
        self.latest = now;
        self.touch_at(agent, now);
    }

    /// The agents heard from within `interval` ns before `now`, each once.
    pub fn who_else_is_here_at(&self, interval: u64, now: u64) -> (res: Vec<HcNode>)
        ensures
            node_keys(res@) == recent_keys(self@, interval, now),
            distinct_nodes(res@),
    {
        proof { use_type_invariant(self); }
        self.last_seen.recent_at(interval, now)
    }

    /// The agents heard from within the last `interval` ns, each once.
    pub fn who_else_is_here(&self, interval: u64) -> (res: Vec<HcNode>)
        ensures
            exists|now: u64| now >= self.clock() && node_keys(res@) == recent_keys(self@, interval, now),
            distinct_nodes(res@),
    {
        let now = self.clock.now_after(self.latest);
        self.who_else_is_here_at(interval, now)
    }

    /// The log of when each agent was last heard from.
    pub fn last_seen(&self) -> (res: &PresenceLog)
        ensures
            res@ == self@,
            res.well_formed(),
    {
        proof { use_type_invariant(self); }
        &self.last_seen
    }

    /// Takes one observation at `now` of whether the present peers form a
    /// quorum, and says whether they have failed to for longer than `window`
    /// ns. With an active fork it is never forking time and nothing changes.
    pub fn its_forking_time_at(&mut self, is_quorum: bool, now: u64, window: u64) -> (res: bool)
        ensures
            res == is_forking_time(
                old(self).fork() is Some,
                old(self).quorumless_since(),
                is_quorum,
                now,
                window,
            ),
            final(self).quorumless_since() == next_quorumless_since(
                old(self).fork() is Some,
                old(self).quorumless_since(),
                is_quorum,
                now,
            ),
            final(self)@ == old(self)@,
            final(self).fork() == old(self).fork(),
            final(self).clock() == old(self).clock(),
    {
        proof { use_type_invariant(&*self); }
        if self.active_fork.is_some() {
            return false;
        }
        if is_quorum {
            self.first_instant_without_quorum = None;
        } else if self.first_instant_without_quorum.is_none() {
            self.first_instant_without_quorum = Some(now);
        }
        match self.first_instant_without_quorum {
            Some(t) => {
                let elapsed: u64 = if now >= t { now - t } else { 0 };
                elapsed > window
            },
            None => false,
        }
    }

    /// The fork decision at `now` for a membership with voter configurations
    /// `configs`: the agents heard from within the presence window must form
    /// a quorum of it.
    pub fn its_forking_time_with(&mut self, configs: &Vec<Vec<HcNode>>, now: u64, window: u64) -> (res: bool)
        ensures
            ({
                let q = forms_quorum(configs@, recent_keys(old(self)@, PRESENCE_WINDOW, now));
                &&& res == is_forking_time(old(self).fork() is Some, old(self).quorumless_since(), q, now, window)
                &&& final(self).quorumless_since() == next_quorumless_since(
                    old(self).fork() is Some,
                    old(self).quorumless_since(),
                    q,
                    now,
                )
            }),
            final(self)@ == old(self)@,
            final(self).fork() == old(self).fork(),
            final(self).clock() == old(self).clock(),
    {
        let here = self.who_else_is_here_at(PRESENCE_WINDOW, now);
        let q = is_quorum(configs, &here);
        self.its_forking_time_at(q, now, window)
    }

    /// The fork decision for a membership with voter configurations
    /// `configs`, with the forking window, taken at a fresh clock reading no
    /// earlier than any before it: presence is judged, and a new quorum-less
    /// stretch dated, at that reading.
    pub fn its_forking_time(&mut self, configs: &Vec<Vec<HcNode>>) -> (res: bool)
        ensures
            final(self).clock() >= old(self).clock(),
            ({
                let now = final(self).clock();
                let q = forms_quorum(configs@, recent_keys(old(self)@, PRESENCE_WINDOW, now));
                &&& res == is_forking_time(
                    old(self).fork() is Some,
                    old(self).quorumless_since(),
                    q,
                    now,
                    FORKING_WINDOW,
                )
                &&& final(self).quorumless_since() == next_quorumless_since(
                    old(self).fork() is Some,
                    old(self).quorumless_since(),
                    q,
                    now,
                )
            }),
            final(self)@ == old(self)@,
            final(self).fork() == old(self).fork(),
    {
        proof { use_type_invariant(&*self); }
        let now = self.clock.now_after(self.latest);
        self.latest = now;
        self.its_forking_time_with(configs, now, FORKING_WINDOW)
    }
}

/// The start of the quorum-less stretch after a series of observations
/// `(is_quorum, now)` without an active fork.
pub open spec fn quorumless_since_after(start: Option<u64>, observations: Seq<(bool, u64)>) -> Option<u64>
    decreases observations.len(),
{
    if observations.len() == 0 {
        start
    } else {
        let last = observations.last();
        next_quorumless_since(
            false,
            quorumless_since_after(start, observations.drop_last()),
            last.0,
            last.1,
        )
    }
}

/// Without a fork, a stretch of observations that all lack a quorum, begun
/// with no stretch running, is dated from its first observation: later
/// observations do not move its start.
pub proof fn lemma_quorumless_stretch_starts_at_first(observations: Seq<(bool, u64)>)
    requires
        observations.len() > 0,
        forall|i: int| 0 <= i < observations.len() ==> !(#[trigger] observations[i]).0,
    ensures
        quorumless_since_after(None, observations) == Some(observations[0].1),
    decreases observations.len(),
{
    if observations.len() > 1 {
        let rest = observations.drop_last();
        assert forall|i: int| 0 <= i < rest.len() implies !(#[trigger] rest[i]).0 by {
            assert(rest[i] == observations[i]);
        }
        lemma_quorumless_stretch_starts_at_first(rest);
        assert(rest[0] == observations[0]);
    } else {
        assert(quorumless_since_after(None, observations.drop_last()) is None);
    }
}

/// Without a fork, after a stretch of observations that all lack a quorum
/// (begun with no stretch running), the last observation says to fork
/// exactly when more than `window` ns separate it from the first.
pub proof fn lemma_forks_after_window(observations: Seq<(bool, u64)>, window: u64)
    requires
        observations.len() > 0,
        forall|i: int| 0 <= i < observations.len() ==> !(#[trigger] observations[i]).0,
    ensures
        is_forking_time(
            false,
            quorumless_since_after(None, observations.drop_last()),
            false,
            observations.last().1,
            window,
        ) == (age(observations.last().1, observations[0].1) > window),
{
    let rest = observations.drop_last();
    if rest.len() > 0 {
        assert forall|i: int| 0 <= i < rest.len() implies !(#[trigger] rest[i]).0 by {
            assert(rest[i] == observations[i]);
        }
        lemma_quorumless_stretch_starts_at_first(rest);
        assert(rest[0] == observations[0]);
    } else {
        assert(observations.last() == observations[0]);
    }
}

/// Fork decisions taken on one forker's clock, whose readings never go
/// backwards, with no fork and no stretch running before them: after a run
/// of calls that all see no quorum, the last one says to fork exactly when
/// more than `window` ns have passed since the first of them.
pub proof fn lemma_forks_on_clock(observations: Seq<(bool, u64)>, window: u64)
    requires
        observations.len() > 0,
        forall|i: int| 0 <= i < observations.len() ==> !(#[trigger] observations[i]).0,
        forall|i: int, j: int|
            0 <= i <= j < observations.len() ==> (#[trigger] observations[i]).1 <= (#[trigger] observations[j]).1,
    ensures
        is_forking_time(
            false,
            quorumless_since_after(None, observations.drop_last()),
            false,
            observations.last().1,
            window,
        ) == (observations.last().1 - observations[0].1 > window),
{
    lemma_forks_after_window(observations, window);
    assert(observations[0].1 <= observations[observations.len() - 1].1);
}

/// One past the last observation that saw a quorum (0 when none did).
pub open spec fn last_quorum_end(observations: Seq<(bool, u64)>) -> nat
    decreases observations.len(),
{
    if observations.len() == 0 {
        0
    } else if observations.last().0 {
        observations.len()
    } else {
        last_quorum_end(observations.drop_last())
    }
}

/// Since when the present peers have been without a quorum after a history
/// of observations, read off the history: none when the last observation
/// saw a quorum; otherwise the first observation after the last one that saw
/// a quorum, or, when none did, the stretch already running before the
/// history (if any) or else the history's first observation.
pub open spec fn stretch_start(start: Option<u64>, observations: Seq<(bool, u64)>) -> Option<u64> {
    let k = last_quorum_end(observations);
    if k == observations.len() && k > 0 {
        None
    } else if k > 0 {
        Some(observations[k as int].1)
    } else if start is Some {
        start
    } else if observations.len() > 0 {
        Some(observations[0].1)
    } else {
        None
    }
}

proof fn lemma_last_quorum_end_bound(observations: Seq<(bool, u64)>)
    ensures
        last_quorum_end(observations) <= observations.len(),
        last_quorum_end(observations) > 0 ==> observations[last_quorum_end(observations) - 1].0,
        forall|i: int| last_quorum_end(observations) <= i < observations.len() ==> !(#[trigger] observations[i]).0,
    decreases observations.len(),
{
    if observations.len() > 0 {
        let rest = observations.drop_last();
        lemma_last_quorum_end_bound(rest);
        if !observations.last().0 {
            assert forall|i: int| last_quorum_end(observations) <= i < observations.len() implies !(#[trigger] observations[i]).0 by {
                if i < rest.len() {
                    assert(rest[i] == observations[i]);
                }
            }
            if last_quorum_end(rest) > 0 {
                assert(rest[last_quorum_end(rest) - 1] == observations[last_quorum_end(rest) - 1]);
            }
        }
    }
}

/// Without a fork, the start of the quorum-less stretch after any history of
/// observations is the one read off the history by `stretch_start`.
pub proof fn lemma_stretch_start(start: Option<u64>, observations: Seq<(bool, u64)>)
    ensures
        quorumless_since_after(start, observations) == stretch_start(start, observations),
    decreases observations.len(),
{
    if observations.len() > 0 {
        let rest = observations.drop_last();
        lemma_stretch_start(start, rest);
        lemma_last_quorum_end_bound(rest);
        let k = last_quorum_end(rest);
        if !observations.last().0 {
            assert(last_quorum_end(observations) == k);
            if k > 0 {
                assert(observations[k as int] == if k < rest.len() { rest[k as int] } else { observations.last() });
                if k < rest.len() {
                    assert(rest[k as int] == observations[k as int]);
                }
            } else if rest.len() > 0 {
                assert(rest[0] == observations[0]);
            }
        }
    }
}

/// The fork decision over any history without a fork: the call that takes
/// the last observation says to fork exactly when that observation lacks a
/// quorum and more than `window` ns have passed since the start of the
/// stretch of quorum-less observations it ends (begun at the first call after
/// the last quorum, or carried over from before the history).
pub proof fn lemma_forking_decision(start: Option<u64>, observations: Seq<(bool, u64)>, window: u64)
    requires
        observations.len() > 0,
    ensures
        is_forking_time(
            false,
            quorumless_since_after(start, observations.drop_last()),
            observations.last().0,
            observations.last().1,
            window,
        ) == match stretch_start(start, observations) {
            Some(t) => age(observations.last().1, t) > window,
            None => false,
        },
{
    lemma_stretch_start(start, observations);
}

/// Successive fork decisions on one forker without a fork: the `i`-th call
/// took `observations[i]`, found the stretch start `states[i]` and left
/// `states[i + 1]`, answering `results[i]`, each as `its_forking_time_at`
/// states. Then every call answers by the stretch read off all calls so far:
/// it says to fork exactly when it sees no quorum and more than `window` ns
/// have passed since the first call after the last one that saw a quorum (or
/// since the stretch already running before the first call).
pub proof fn lemma_forking_calls(
    states: Seq<Option<u64>>,
    results: Seq<bool>,
    observations: Seq<(bool, u64)>,
    window: u64,
)
    requires
        states.len() == observations.len() + 1,
        results.len() == observations.len(),
        forall|i: int|
            0 <= i < observations.len() ==> states[i + 1] == next_quorumless_since(
                false,
                #[trigger] states[i],
                observations[i].0,
                observations[i].1,
            ),
        forall|i: int|
            0 <= i < observations.len() ==> #[trigger] results[i] == is_forking_time(
                false,
                states[i],
                observations[i].0,
                observations[i].1,
                window,
            ),
    ensures
        forall|i: int|
            0 <= i < observations.len() ==> #[trigger] results[i] == match stretch_start(
                states[0],
                observations.take(i + 1),
            ) {
                Some(t) => age(observations[i].1, t) > window,
                None => false,
            },
{
    assert forall|i: int| 0 <= i <= observations.len() implies #[trigger] states[i] == quorumless_since_after(
        states[0],
        observations.take(i),
    ) by {
        lemma_states_follow(states, observations, i);
    }
    assert forall|i: int| 0 <= i < observations.len() implies #[trigger] results[i] == match stretch_start(
        states[0],
        observations.take(i + 1),
    ) {
        Some(t) => age(observations[i].1, t) > window,
        None => false,
    } by {
        let h = observations.take(i + 1);
        assert(h.drop_last() =~= observations.take(i));
        assert(h.last() == observations[i]);
        assert(states[i] == quorumless_since_after(states[0], observations.take(i)));
        lemma_forking_decision(states[0], h, window);
    }
}

proof fn lemma_states_follow(states: Seq<Option<u64>>, observations: Seq<(bool, u64)>, i: int)
    requires
        states.len() == observations.len() + 1,
        forall|j: int|
            0 <= j < observations.len() ==> states[j + 1] == next_quorumless_since(
                false,
                #[trigger] states[j],
                observations[j].0,
                observations[j].1,
            ),
        0 <= i <= observations.len(),
    ensures
        states[i] == quorumless_since_after(states[0], observations.take(i)),
    decreases i,
{
    if i > 0 {
        lemma_states_follow(states, observations, i - 1);
        assert(observations.take(i).drop_last() =~= observations.take(i - 1));
        assert(observations.take(i).last() == observations[i - 1]);
        assert(states[(i - 1) + 1] == next_quorumless_since(false, states[i - 1], observations[i - 1].0, observations[i - 1].1));
    } else {
        assert(observations.take(0).len() == 0);
    }
}

/// When every member of a configuration is present, all of them count.
proof fn lemma_all_present_count(config: Seq<HcNode>, present: Set<Seq<u8>>)
    requires
        forall|i: int| 0 <= i < config.len() ==> present.contains(#[trigger] config[i]@),
    ensures
        present_count(config, present) == config.len(),
    decreases config.len(),
{
    if config.len() > 0 {
        let rest = config.drop_last();
        assert forall|i: int| 0 <= i < rest.len() implies present.contains(#[trigger] rest[i]@) by {
            assert(rest[i] == config[i]);
        }
        lemma_all_present_count(rest, present);
        assert(present.contains(config[config.len() - 1]@));
    }
}

/// When nobody is present, nobody counts.
proof fn lemma_none_present_count(config: Seq<HcNode>)
    ensures
        present_count(config, Set::empty()) == 0,
    decreases config.len(),
{
    if config.len() > 0 {
        lemma_none_present_count(config.drop_last());
    }
}

/// Every member of every (non-empty) configuration being present is a
/// quorum, and nobody being present is not a quorum of any membership with a
/// configuration.
pub proof fn lemma_quorum_bounds(configs: Seq<Vec<HcNode>>, present: Set<Seq<u8>>)
    ensures
        (forall|i: int| 0 <= i < configs.len() ==> (#[trigger] configs[i])@.len() > 0)
            && (forall|i: int, j: int|
            0 <= i < configs.len() && 0 <= j < configs[i]@.len() ==> present.contains(#[trigger] configs[i]@[j]@))
            ==> forms_quorum(configs, present),
        configs.len() > 0 ==> !forms_quorum(configs, Set::empty()),
{
    if (forall|i: int| 0 <= i < configs.len() ==> (#[trigger] configs[i])@.len() > 0)
        && (forall|i: int, j: int|
        0 <= i < configs.len() && 0 <= j < configs[i]@.len() ==> present.contains(#[trigger] configs[i]@[j]@)) {
        assert forall|i: int| 0 <= i < configs.len() implies 2 * present_count(#[trigger] configs[i]@, present)
            > configs[i]@.len() by {
            assert forall|j: int| 0 <= j < configs[i]@.len() implies present.contains(#[trigger] configs[i]@[j]@) by {}
            lemma_all_present_count(configs[i]@, present);
        }
    }
    if configs.len() > 0 {
        lemma_none_present_count(configs[0]@);
    }
}

/// Any observation of a quorum ends the stretch: right after it, it is not
/// forking time, whatever the window.
pub proof fn lemma_quorum_resets(quorumless_since: Option<u64>, now: u64, window: u64)
    ensures
        next_quorumless_since(false, quorumless_since, true, now) is None,
        !is_forking_time(false, quorumless_since, true, now, window),
{
}

/// An active fork freezes the decision: never forking time, nothing changes.
pub proof fn lemma_active_fork_freezes(quorumless_since: Option<u64>, is_quorum: bool, now: u64, window: u64)
    ensures
        next_quorumless_since(true, quorumless_since, is_quorum, now) == quorumless_since,
        !is_forking_time(true, quorumless_since, is_quorum, now, window),
{
}

} // verus!
