//! Which sessions are being published to, and which runs can be stopped.
//!
//! Both registries are in-process: a subscriber or a stop reaches a run just
//! when it lands on the instance that owns it.
use vstd::prelude::*;

verus! {

/// How many events a subscriber may fall behind before it is told to re-sync.
///
/// A slow client must never stall the run that is feeding it, so the channel
/// drops rather than blocks.
pub const BROADCAST_CAPACITY: usize = 1024;

/// One session's channel, and how many runs are still publishing to it.
///
/// The count is what makes an entry safe to drop. Removing a channel a run
/// still holds does not stop that run, but it does route the *next* subscriber
/// to a different channel, which would show an empty stream while a run was
/// plainly in progress.
#[derive(Debug, Clone, Copy, PartialEq, Eq, Structural)]
pub struct SessionChannel {
    /// Tells this channel apart from any other the registry ever opened.
    pub channel: u64,
    pub active_runs: usize,
    /// How many subscribers were last seen listening.
    pub listeners: usize,
}

impl SessionChannel {
    /// Nothing is publishing and nobody is listening.
    pub open spec fn inert(self) -> bool {
        self.active_runs == 0 && self.listeners == 0
    }

    pub fn is_inert(&self) -> (r: bool)
        ensures
            r == self.inert(),
    {
        self.active_runs == 0 && self.listeners == 0
    }
}

/// Live channels, keyed by session.
#[derive(Debug)]
pub struct RunRegistry {
    entries: Vec<(u128, SessionChannel)>,
    next_channel: u64,
}

/// The mapping that a list of entries spells out, where no key occurs twice.
pub closed spec fn entries_map(entries: Seq<(u128, SessionChannel)>) -> Map<u128, SessionChannel>
    decreases entries.len(),
{
    if entries.len() == 0 {
        Map::empty()
    } else {
        entries_map(entries.drop_last()).insert(entries.last().0, entries.last().1)
    }
}

/// Whether no key occurs twice.
spec fn keyed(entries: Seq<(u128, SessionChannel)>) -> bool {
    forall|i: int, j: int|
        0 <= i < j < entries.len() ==> (#[trigger] entries[i]).0 != (#[trigger] entries[j]).0
}

proof fn lemma_entries(entries: Seq<(u128, SessionChannel)>)
    requires
        keyed(entries),
    ensures
        forall|i: int|
            0 <= i < entries.len() ==> entries_map(entries).dom().contains(
                (#[trigger] entries[i]).0,
            ) && entries_map(entries)[entries[i].0] == entries[i].1,
        forall|key: u128| #[trigger]
            entries_map(entries).dom().contains(key) ==> exists|i: int|
                0 <= i < entries.len() && (#[trigger] entries[i]).0 == key,
    decreases entries.len(),
{
    if entries.len() > 0 {
        let shorter = entries.drop_last();
        assert(keyed(shorter));
        lemma_entries(shorter);
        assert forall|i: int| 0 <= i < entries.len() implies entries_map(entries).dom().contains(
            (#[trigger] entries[i]).0,
        ) && entries_map(entries)[entries[i].0] == entries[i].1 by {
            if i < shorter.len() {
                assert(shorter[i] == entries[i]);
                assert(entries[i].0 != entries[entries.len() - 1].0);
            }
        }
        assert forall|key: u128| #[trigger]
            entries_map(entries).dom().contains(key) implies exists|i: int|
            0 <= i < entries.len() && (#[trigger] entries[i]).0 == key by {
            if key == entries.last().0 {
                assert(entries[entries.len() - 1].0 == key);
            } else {
                assert(entries_map(shorter).dom().contains(key));
                let i = choose|i: int| 0 <= i < shorter.len() && (#[trigger] shorter[i]).0 == key;
                assert(entries[i].0 == key);
            }
        }
    }
}

impl View for RunRegistry {
    type V = Map<u128, SessionChannel>;

    closed spec fn view(&self) -> Map<u128, SessionChannel> {
        entries_map(self.entries@)
    }
}

/// `channels` without the inert ones, but for the one of `kept`.
pub open spec fn swept(channels: Map<u128, SessionChannel>, kept: u128) -> Map<
    u128,
    SessionChannel,
> {
    channels.restrict(Set::new(|id: u128| channels.dom().contains(id) && (id == kept || !channels[id].inert())))
}

impl RunRegistry {
    /// No session has two channels, and no channel was numbered ahead of time.
    pub closed spec fn wf(&self) -> bool {
        &&& keyed(self.entries@)
        &&& forall|i: int|
            0 <= i < self.entries@.len() ==> (#[trigger] self.entries@[i]).1.channel
                < self.next_channel
    }

    /// The number the next channel gets.
    pub closed spec fn next(&self) -> int {
        self.next_channel as int
    }

    pub fn new() -> (r: RunRegistry)
        ensures
            r.wf(),
            r@ == Map::<u128, SessionChannel>::empty(),
            r.next() == 0,
    {
        RunRegistry { entries: Vec::new(), next_channel: 0 }
    }

    fn position(&self, session_id: u128) -> (r: Option<usize>)
        requires
            self.wf(),
        ensures
            match r {
                Some(i) => i < self.entries@.len() && self.entries@[i as int].0 == session_id
                    && self@.dom().contains(session_id) && self@[session_id]
                    == self.entries@[i as int].1,
                None => !self@.dom().contains(session_id),
            },
    {
        let mut i: usize = 0;
        while i < self.entries.len()
            invariant
                i <= self.entries@.len(),
                self.wf(),
                forall|k: int| 0 <= k < i ==> (#[trigger] self.entries@[k]).0 != session_id,
            decreases self.entries@.len() - i,
        {
            if self.entries[i].0 == session_id {
                proof {
                    lemma_entries(self.entries@);
                    assert(self.entries@[i as int].0 == session_id);
                }
                return Some(i);
            }
            i += 1;
        }
        proof {
            lemma_entries(self.entries@);
        }
        None
    }

    /// Drops every inert channel but the session's own.
    fn sweep(&mut self, kept: u128)
        requires
            old(self).wf(),
        ensures
            final(self).wf(),
            final(self)@ == swept(old(self)@, kept),
            final(self).next() == old(self).next(),
    {
        let ghost before = self.entries@;
        let ghost was = self@;
        proof {
            lemma_entries(before);
        }
        let mut left: Vec<(u128, SessionChannel)> = Vec::new();
        let ghost mut from: Seq<int> = Seq::empty();
        let mut i: usize = 0;
        while i < self.entries.len()
            invariant
                i <= self.entries@.len(),
                self.entries@ == before,
                self.wf(),
                from.len() == left@.len(),
                forall|k: int|
                    #![trigger left@[k]]
                    #![trigger from[k]]
                    0 <= k < left@.len() ==> 0 <= from[k] < i && left@[k] == before[from[k]] && (
                    left@[k].0 == kept || !left@[k].1.inert()),
                forall|j: int, k: int| 0 <= j < k < from.len() ==> from[j] < from[k],
                forall|m: int|
                    #![trigger before[m]]
                    0 <= m < i && (before[m].0 == kept || !before[m].1.inert())
                        ==> left@.contains(before[m]),
            decreases self.entries@.len() - i,
        {
            let entry = self.entries[i];
            let ghost prior = left@;
            if entry.0 == kept || !entry.1.is_inert() {
                left.push(entry);
                proof {
                    let earlier = from;
                    from = from.push(i as int);
                    assert forall|k: int| 0 <= k < earlier.len() implies from[k] == earlier[k] by {}
                    assert forall|k: int| 0 <= k < prior.len() implies left@[k] == prior[k] by {}
                    assert(left@[prior.len() as int] == before[i as int]);
                    assert forall|m: int|
                        #![trigger before[m]]
                        0 <= m < i + 1 && (before[m].0 == kept
                            || !before[m].1.inert()) implies left@.contains(before[m]) by {
                        if m < i {
                            let k = choose|k: int| 0 <= k < prior.len() && prior[k] == before[m];
                            assert(left@[k] == before[m]);
                        }
                    }
                }
            }
            i += 1;
        }
        proof {
            assert forall|j: int, k: int| 0 <= j < k < left@.len() implies (#[trigger] left@[j]).0
                != (#[trigger] left@[k]).0 by {
                assert(from[j] < from[k]);
                assert(left@[j] == before[from[j]] && left@[k] == before[from[k]]);
            }
            lemma_entries(left@);
            assert forall|id: u128| swept(was, kept).dom().contains(id) implies entries_map(
                left@,
            ).dom().contains(id) && entries_map(left@)[id] == was[id] by {
                let m = choose|m: int| 0 <= m < before.len() && (#[trigger] before[m]).0 == id;
                assert(was[id] == before[m].1);
                assert(left@.contains(before[m]));
                let k = choose|k: int| 0 <= k < left@.len() && left@[k] == before[m];
                assert(left@[k].0 == id);
            }
            assert forall|id: u128| entries_map(left@).dom().contains(id) implies swept(
                was,
                kept,
            ).dom().contains(id) by {
                let k = choose|k: int| 0 <= k < left@.len() && (#[trigger] left@[k]).0 == id;
                assert(left@[k] == before[from[k]]);
            }
            assert(entries_map(left@) =~= swept(was, kept));
        }
        self.entries = left;
    }

    /// Puts `channel` in for the session.
    fn put(&mut self, session_id: u128, channel: SessionChannel)
        requires
            old(self).wf(),
            channel.channel < old(self).next(),
        ensures
            final(self).wf(),
            final(self)@ == old(self)@.insert(session_id, channel),
            final(self).next() == old(self).next(),
    {
        let ghost before = self.entries@;
        let ghost was = self@;
        proof {
            lemma_entries(before);
        }
        let ghost at: int;
        match self.position(session_id) {
            Some(i) => {
                proof {
                    at = i as int;
                }
                self.entries.set(i, (session_id, channel));
            },
            None => {
                proof {
                    assert forall|k: int| 0 <= k < before.len() implies (#[trigger] before[k]).0
                        != session_id by {
                        assert(was.dom().contains(before[k].0));
                    }
                }
                proof {
                    at = before.len() as int;
                }
                self.entries.push((session_id, channel));
            },
        }
        proof {
            let after = self.entries@;
            assert(keyed(after));
            lemma_entries(after);
            assert forall|id: u128| #[trigger]
                was.insert(session_id, channel).dom().contains(id) implies entries_map(
                after,
            ).dom().contains(id) && entries_map(after)[id] == was.insert(session_id, channel)[id] by {
                if id == session_id {
                    assert(entries_map(after)[after[at].0] == after[at].1);
                } else {
                    let m = choose|m: int| 0 <= m < before.len() && (#[trigger] before[m]).0 == id;
                    assert(after[m] == before[m]);
                }
            }
            assert forall|id: u128| #[trigger]
                entries_map(after).dom().contains(id) implies was.insert(
                session_id,
                channel,
            ).dom().contains(id) by {
                let k = choose|k: int| 0 <= k < after.len() && (#[trigger] after[k]).0 == id;
                if k < before.len() && after[k].0 != session_id {
                    assert(before[k].0 == id);
                }
            }
            assert(entries_map(after) =~= was.insert(session_id, channel));
        }
    }

    /// Takes the session's entry out.
    fn take(&mut self, session_id: u128)
        requires
            old(self).wf(),
        ensures
            final(self).wf(),
            final(self)@ == old(self)@.remove(session_id),
            final(self).next() == old(self).next(),
    {
        let ghost before = self.entries@;
        let ghost was = self@;
        proof {
            lemma_entries(before);
        }
        match self.position(session_id) {
            Some(i) => {
                let _ = self.entries.remove(i);
                proof {
                    let after = self.entries@;
                    assert forall|k: int| 0 <= k < after.len() implies #[trigger] after[k]
                        == before[if k < i {
                        k
                    } else {
                        k + 1
                    }] by {}
                    assert(keyed(after));
                    lemma_entries(after);
                    assert forall|id: u128| #[trigger]
                        was.remove(session_id).dom().contains(id) implies entries_map(
                        after,
                    ).dom().contains(id) && entries_map(after)[id] == was[id] by {
                        let m = choose|m: int|
                            0 <= m < before.len() && (#[trigger] before[m]).0 == id;
                        let k = if m < i {
                            m
                        } else {
                            m - 1
                        };
                        assert(after[k] == before[m]);
                    }
                    assert forall|id: u128| #[trigger]
                        entries_map(after).dom().contains(id) implies was.remove(
                        session_id,
                    ).dom().contains(id) by {
                        let k = choose|k: int|
                            0 <= k < after.len() && (#[trigger] after[k]).0 == id;
                        let m = if k < i {
                            k
                        } else {
                            k + 1
                        };
                        assert(before[m].0 == id);
                        assert(before[i as int].0 == session_id);
                    }
                    assert(entries_map(after) =~= was.remove(session_id));
                }
            },
            None => {
                assert(was =~= was.remove(session_id));
            },
        }
    }

    /// The session's channel, a fresh one where it has none.
    fn channel(&mut self, session_id: u128) -> (r: SessionChannel)
        requires
            old(self).wf(),
            old(self).next() < u64::MAX,
        ensures
            final(self).wf(),
            final(self)@ == old(self)@,
            r == session_channel(old(self)@, old(self).next(), session_id),
            r.channel < final(self).next(),
            final(self).next() == next_after(old(self)@, old(self).next(), session_id),
    {
        match self.position(session_id) {
            Some(i) => self.entries[i].1,
            None => {
                let channel = SessionChannel {
                    channel: self.next_channel,
                    active_runs: 0,
                    listeners: 0,
                };
                self.next_channel = self.next_channel + 1;
                channel
            },
        }
    }
}

/// The session's channel, a fresh one where it has none.
pub open spec fn session_channel(
    channels: Map<u128, SessionChannel>,
    next: int,
    session_id: u128,
) -> SessionChannel {
    if channels.dom().contains(session_id) {
        channels[session_id]
    } else {
        SessionChannel { channel: next as u64, active_runs: 0, listeners: 0 }
    }
}

/// The number the next channel gets once the session has one.
pub open spec fn next_after(
    channels: Map<u128, SessionChannel>,
    next: int,
    session_id: u128,
) -> int {
    if channels.dom().contains(session_id) {
        next
    } else {
        next + 1
    }
}

/// The channels once a run claimed the session's.
pub open spec fn opened(
    channels: Map<u128, SessionChannel>,
    next: int,
    session_id: u128,
) -> Map<u128, SessionChannel> {
    let channel = session_channel(channels, next, session_id);
    swept(channels, session_id).insert(
        session_id,
        SessionChannel { active_runs: (channel.active_runs + 1) as usize, ..channel },
    )
}

/// The channels once a subscriber listens to the session's.
pub open spec fn subscribed(
    channels: Map<u128, SessionChannel>,
    next: int,
    session_id: u128,
) -> Map<u128, SessionChannel> {
    let channel = session_channel(channels, next, session_id);
    swept(channels, session_id).insert(
        session_id,
        SessionChannel { listeners: (channel.listeners + 1) as usize, ..channel },
    )
}

/// The channels once a run let go of the session's.
pub open spec fn released(channels: Map<u128, SessionChannel>, session_id: u128) -> Map<
    u128,
    SessionChannel,
> {
    if !channels.dom().contains(session_id) {
        channels
    } else {
        let channel = channels[session_id];
        let left = SessionChannel {
            active_runs: if channel.active_runs > 0 {
                (channel.active_runs - 1) as usize
            } else {
                0
            },
            ..channel
        };
        if left.inert() {
            channels.remove(session_id)
        } else {
            channels.insert(session_id, left)
        }
    }
}

/// The channels once `listeners` were counted on the session's.
pub open spec fn observed(
    channels: Map<u128, SessionChannel>,
    session_id: u128,
    listeners: usize,
) -> Map<u128, SessionChannel> {
    if channels.dom().contains(session_id) {
        channels.insert(session_id, SessionChannel { listeners, ..channels[session_id] })
    } else {
        channels
    }
}

/// Claims the session's channel for a run that is about to start, and says
/// which channel that is.
pub fn open_run(registry: &mut RunRegistry, session_id: u128) -> (r: u64)
    requires
        old(registry).wf(),
        old(registry).next() < u64::MAX,
        session_channel(old(registry)@, old(registry).next(), session_id).active_runs < usize::MAX,
    ensures
        final(registry).wf(),
        final(registry)@ == opened(old(registry)@, old(registry).next(), session_id),
        final(registry).next() == next_after(old(registry)@, old(registry).next(), session_id),
        r == session_channel(old(registry)@, old(registry).next(), session_id).channel,
{
    registry.sweep(session_id);
    let found = registry.channel(session_id);
    let channel = SessionChannel {
        channel: found.channel,
        active_runs: found.active_runs + 1,
        listeners: found.listeners,
    };
    registry.put(session_id, channel);
    found.channel
}

/// Releases a run's claim, dropping the channel once nothing needs it.
pub fn close_run(registry: &mut RunRegistry, session_id: u128)
    requires
        old(registry).wf(),
    ensures
        final(registry).wf(),
        final(registry)@ == released(old(registry)@, session_id),
        final(registry).next() == old(registry).next(),
{
    match registry.position(session_id) {
        Some(i) => {
            let found = registry.entries[i].1;
            let left = SessionChannel {
                channel: found.channel,
                active_runs: if found.active_runs > 0 {
                    found.active_runs - 1
                } else {
                    0
                },
                listeners: found.listeners,
            };
            if left.is_inert() {
                registry.take(session_id);
            } else {
                registry.put(session_id, left);
            }
        },
        None => {},
    }
}

/// Subscribes to a session's live events, and says on which channel.
///
/// Creates the channel if there is none: opening the stream *before* sending
/// the first message is the normal order for a UI, and a subscriber that
/// connected first must not be the one that misses the run.
pub fn subscribe(registry: &mut RunRegistry, session_id: u128) -> (r: u64)
    requires
        old(registry).wf(),
        old(registry).next() < u64::MAX,
        session_channel(old(registry)@, old(registry).next(), session_id).listeners < usize::MAX,
    ensures
        final(registry).wf(),
        final(registry)@ == subscribed(old(registry)@, old(registry).next(), session_id),
        final(registry).next() == next_after(old(registry)@, old(registry).next(), session_id),
        r == session_channel(old(registry)@, old(registry).next(), session_id).channel,
{
    registry.sweep(session_id);
    let found = registry.channel(session_id);
    let channel = SessionChannel {
        channel: found.channel,
        active_runs: found.active_runs,
        listeners: found.listeners + 1,
    };
    registry.put(session_id, channel);
    found.channel
}

/// Notes how many subscribers listen to a session.
pub fn observe(registry: &mut RunRegistry, session_id: u128, listeners: usize)
    requires
        old(registry).wf(),
    ensures
        final(registry).wf(),
        final(registry)@ == observed(old(registry)@, session_id, listeners),
        final(registry).next() == old(registry).next(),
{
    match registry.position(session_id) {
        Some(i) => {
            let found = registry.entries[i].1;
            let seen = SessionChannel {
                channel: found.channel,
                active_runs: found.active_runs,
                listeners,
            };
            registry.put(session_id, seen);
        },
        None => {},
    }
}

/// Anything that happens to the registry.
pub enum Step {
    Open(u128),
    Close(u128),
    Subscribe(u128),
    Observe(u128, usize),
}

/// The channels after a step.
pub open spec fn after(channels: Map<u128, SessionChannel>, next: int, step: Step) -> Map<
    u128,
    SessionChannel,
> {
    match step {
        Step::Open(id) => opened(channels, next, id),
        Step::Close(id) => released(channels, id),
        Step::Subscribe(id) => subscribed(channels, next, id),
        Step::Observe(id, listeners) => observed(channels, id, listeners),
    }
}

/// While a run publishes to a session's channel, nothing but that run's own
/// release takes the channel away: every subscriber that arrives in the
/// meantime is routed to it.
pub proof fn a_publishing_channel_stays(
    channels: Map<u128, SessionChannel>,
    next: int,
    session_id: u128,
    step: Step,
)
    requires
        channels.dom().contains(session_id),
        channels[session_id].active_runs > 0,
        channels[session_id].active_runs < usize::MAX,
    ensures
        step == Step::Close(session_id) && channels[session_id].active_runs == 1 || ({
            let now = after(channels, next, step);
            &&& now.dom().contains(session_id)
            &&& now[session_id].channel == channels[session_id].channel
            &&& now[session_id].active_runs > 0
        }),
        session_channel(channels, next, session_id).channel == channels[session_id].channel,
{
}

/// Likewise while somebody listens, whatever the runs do.
pub proof fn a_heard_channel_stays(
    channels: Map<u128, SessionChannel>,
    next: int,
    session_id: u128,
    step: Step,
)
    requires
        channels.dom().contains(session_id),
        0 < channels[session_id].listeners < usize::MAX,
        !(step matches Step::Observe(_, _)),
    ensures
        after(channels, next, step).dom().contains(session_id),
        after(channels, next, step)[session_id].channel == channels[session_id].channel,
{
}

/// A run that opened and closed its claim leaves the session's channel as it
/// was, or leaves none where nobody else needs one.
pub proof fn a_claim_is_given_back(
    channels: Map<u128, SessionChannel>,
    next: int,
    session_id: u128,
)
    requires
        0 <= next < u64::MAX,
        session_channel(channels, next, session_id).active_runs < usize::MAX,
    ensures
        ({
            let was = session_channel(channels, next, session_id);
            let now = released(opened(channels, next, session_id), session_id);
            if was.inert() {
                !now.dom().contains(session_id)
            } else {
                now.dom().contains(session_id) && now[session_id] == was
            }
        }),
{
}

/// Every run this instance can still stop, keyed by run. A stop names one run:
/// a session may have several in flight, and stopping the wrong one is worse
/// than stopping none.
#[derive(Debug)]
pub struct InterruptRegistry {
    raised: std::collections::HashMap<u128, bool>,
}

impl View for InterruptRegistry {
    type V = Map<u128, bool>;

    closed spec fn view(&self) -> Map<u128, bool> {
        self.raised@
    }
}

impl InterruptRegistry {
    pub fn new() -> (r: InterruptRegistry)
        ensures
            r@ == Map::<u128, bool>::empty(),
    {
        broadcast use vstd::std_specs::hash::group_hash_axioms;

        InterruptRegistry { raised: std::collections::HashMap::new() }
    }

    /// Whether the run's stop was raised.
    pub fn raised(&self, run_id: u128) -> (r: bool)
        ensures
            r == (self@.dom().contains(run_id) && self@[run_id]),
    {
        broadcast use vstd::std_specs::hash::group_hash_axioms;

        match self.raised.get(&run_id) {
            Some(raised) => *raised,
            None => false,
        }
    }
}

/// Registers a run as interruptible.
pub fn open_interrupt(registry: &mut InterruptRegistry, run_id: u128)
    ensures
        final(registry)@ == old(registry)@.insert(run_id, false),
{
    broadcast use vstd::std_specs::hash::group_hash_axioms;

    registry.raised.insert(run_id, false);
}

/// Forgets a finished run.
pub fn close_interrupt(registry: &mut InterruptRegistry, run_id: u128)
    ensures
        final(registry)@ == old(registry)@.remove(run_id),
{
    broadcast use vstd::std_specs::hash::group_hash_axioms;

    registry.raised.remove(&run_id);
}

/// Raises the stop for a run this instance owns. `false` when it owns no such
/// run: either it finished, or it belongs to another instance.
pub fn raise_interrupt(registry: &mut InterruptRegistry, run_id: u128) -> (r: bool)
    ensures
        r == old(registry)@.dom().contains(run_id),
        final(registry)@ == if r {
            old(registry)@.insert(run_id, true)
        } else {
            old(registry)@
        },
{
    broadcast use vstd::std_specs::hash::group_hash_axioms;

    if registry.raised.contains_key(&run_id) {
        registry.raised.insert(run_id, true);
        true
    } else {
        false
    }
}

/// Raising a stop twice is the same as raising it once, and reaches no run but
/// the one it names.
pub proof fn a_stop_is_a_state(runs: Map<u128, bool>, run_id: u128, other: u128)
    requires
        runs.dom().contains(run_id),
    ensures
        runs.insert(run_id, true).insert(run_id, true) == runs.insert(run_id, true),
        other != run_id && runs.dom().contains(other) ==> runs.insert(run_id, true)[other]
            == runs[other],
{
    assert(runs.insert(run_id, true).insert(run_id, true) =~= runs.insert(run_id, true));
}

/// A claim and a subscription count one more on the session's own channel and
/// change nothing else of it; a release counts one run less; and what was
/// counted of listeners is what is held.
pub proof fn a_step_counts_on_its_own_channel(
    channels: Map<u128, SessionChannel>,
    next: int,
    session_id: u128,
    listeners: usize,
)
    requires
        channels.dom().contains(session_id),
        channels[session_id].active_runs < usize::MAX,
        channels[session_id].listeners < usize::MAX,
    ensures
        ({
            let was = channels[session_id];
            let claimed = opened(channels, next, session_id)[session_id];
            let heard = subscribed(channels, next, session_id)[session_id];
            let counted = observed(channels, session_id, listeners)[session_id];
            let left = released(channels, session_id);
            &&& claimed.channel == was.channel && claimed.active_runs == was.active_runs + 1
                && claimed.listeners == was.listeners
            &&& heard.channel == was.channel && heard.active_runs == was.active_runs
                && heard.listeners == was.listeners + 1
            &&& counted.channel == was.channel && counted.active_runs == was.active_runs
                && counted.listeners == listeners
            &&& left.dom().contains(session_id) ==> left[session_id].channel == was.channel
                && left[session_id].listeners == was.listeners && (was.active_runs > 0
                ==> left[session_id].active_runs == was.active_runs - 1)
            &&& left.dom().contains(session_id) <==> was.listeners > 0 || was.active_runs > 1
        }),
{
}

/// A step for one session leaves the channels of the others as they are; a claim
/// and a subscription drop those that nothing is published to and nobody
/// listens to.
pub proof fn a_step_leaves_the_other_channels(
    channels: Map<u128, SessionChannel>,
    next: int,
    session_id: u128,
    other: u128,
    listeners: usize,
)
    requires
        other != session_id,
    ensures
        ({
            let kept = channels.dom().contains(other) && (channels[other].active_runs > 0
                || channels[other].listeners > 0);
            let claimed = opened(channels, next, session_id);
            let heard = subscribed(channels, next, session_id);
            let counted = observed(channels, session_id, listeners);
            let left = released(channels, session_id);
            &&& claimed.dom().contains(other) <==> kept
            &&& heard.dom().contains(other) <==> kept
            &&& kept ==> claimed[other] == channels[other] && heard[other] == channels[other]
            &&& left.dom().contains(other) <==> channels.dom().contains(other)
            &&& counted.dom().contains(other) <==> channels.dom().contains(other)
            &&& channels.dom().contains(other) ==> left[other] == channels[other]
                && counted[other] == channels[other]
        }),
{
}

/// A session without a channel gets the next one, with what opened it and
/// nothing else; one that has a channel takes no number.
pub proof fn a_new_channel_starts_empty(
    channels: Map<u128, SessionChannel>,
    next: int,
    session_id: u128,
)
    requires
        0 <= next < u64::MAX,
    ensures
        !channels.dom().contains(session_id) ==> {
            &&& opened(channels, next, session_id)[session_id] == (SessionChannel {
                channel: next as u64,
                active_runs: 1,
                listeners: 0,
            })
            &&& subscribed(channels, next, session_id)[session_id] == (SessionChannel {
                channel: next as u64,
                active_runs: 0,
                listeners: 1,
            })
            &&& next_after(channels, next, session_id) == next + 1
            &&& released(channels, session_id) == channels
        },
        channels.dom().contains(session_id) ==> next_after(channels, next, session_id) == next,
{
}

} // verus!
