use vstd::prelude::*;
use std::collections::VecDeque;
use crate::api::Envelope;
use crate::config::{Config, RemoteConfig, SchedulerConfig};
use crate::error::Error;
use crate::text::contains_at_sign;
use crate::tags::{hash_tag, tag_hash, TagMap};
use crate::monitor::{ActorStats, SchedulerMetrics};
use crate::timer::{TaskQueue, due_prefix, sorted_by_time};
use crate::time::{nanos_of, duration_as_nanos};

verus! {

/// An envelope that waits until a moment in time (in nanoseconds on the
/// clock of the running system) before it is delivered to `tag`.
pub struct Entry<M> {
    pub at: u64,
    pub tag: String,
    pub envelope: Envelope<M>,
}

/// The address of the actor that sends envelopes to remote systems.
pub const CLIENT: &'static str = "$CLIENT";

/// The address of the actor that accepts connections from remote systems.
pub const SERVER: &'static str = "$SERVER";

/// Where an envelope for `address` goes: an address with an `@` names an
/// actor of a remote system, so the envelope, now addressed to it, goes to
/// the local client actor; any other address is a local actor.
pub fn adjust_remote_address<'a, M>(address: &'a str, envelope: &mut Envelope<M>) -> (r: &'a str)
    ensures
        address@.contains('@') ==> {
            &&& r == CLIENT
            &&& final(envelope).to@ == address@
            &&& final(envelope).from == old(envelope).from
            &&& final(envelope).message == old(envelope).message
        },
        !address@.contains('@') ==> r == address && *final(envelope) == *old(envelope),
{
    if contains_at_sign(address) {
        envelope.to = address.to_owned();
        return CLIENT;
    }
    address
}

/// The worker thread, out of `n`, that runs the actor at `tag`: always the
/// same one for the same tag.
pub fn worker_for(tag: &str, n: usize) -> (w: usize)
    requires
        n > 0,
    ensures
        w == (tag_hash(tag@) as usize) % n,
        w < n,
{
    (hash_tag(tag) as usize) % n
}

/// The shortest and longest wait, in milliseconds, of the scheduling loop.
pub const MIN_TIMEOUT_MILLIS: u64 = 1;
pub const MAX_TIMEOUT_MILLIS: u64 = 256;

/// The next wait of the scheduling loop: halved (down to the shortest) after
/// an action arrived, doubled (up to the longest) after a wait in vain, which
/// is counted as a miss.
pub fn adapt_timeout(timeout_millis: u64, received: bool, metrics: &mut SchedulerMetrics) -> (next: u64)
    requires
        !received ==> timeout_millis <= u64::MAX / 2,
        !received ==> old(metrics).miss < u64::MAX,
    ensures
        next == if received {
            if timeout_millis / 2 > MIN_TIMEOUT_MILLIS { timeout_millis / 2 } else { MIN_TIMEOUT_MILLIS }
        } else {
            if timeout_millis * 2 < MAX_TIMEOUT_MILLIS { (timeout_millis * 2) as u64 } else { MAX_TIMEOUT_MILLIS }
        },
        MIN_TIMEOUT_MILLIS <= timeout_millis <= MAX_TIMEOUT_MILLIS ==> MIN_TIMEOUT_MILLIS <= next
            <= MAX_TIMEOUT_MILLIS,
        received ==> *final(metrics) == *old(metrics),
        !received ==> *final(metrics) == (SchedulerMetrics { miss: (old(metrics).miss + 1) as u64, ..*old(metrics) }),
{
    if received {
        let half = timeout_millis / 2;
        if half > MIN_TIMEOUT_MILLIS { half } else { MIN_TIMEOUT_MILLIS }
    } else {
        metrics.miss += 1;
        let double = timeout_millis * 2;
        if double < MAX_TIMEOUT_MILLIS { double } else { MAX_TIMEOUT_MILLIS }
    }
}

/// A named actor system on a host, with its settings, ready to run.
pub struct System {
    name: String,
    host: String,
    config: Config,
}

/// A field-by-field copy of a configuration.
fn copy_config(config: &Config) -> (c: Config)
    ensures
        c == *config,
{
    Config {
        scheduler: config.scheduler,
        remote: RemoteConfig {
            enabled: config.remote.enabled,
            listening: config.remote.listening.clone(),
            server: config.remote.server,
            client: config.remote.client,
        },
    }
}

impl System {
    /// The name of the system.
    pub closed spec fn name_view(&self) -> Seq<char> {
        self.name@
    }

    /// The host the system runs on.
    pub closed spec fn host_view(&self) -> Seq<char> {
        self.host@
    }

    /// The settings of the system.
    pub closed spec fn config_view(&self) -> Config {
        self.config
    }

    /// A system with this name, host and settings.
    pub fn new(name: &str, host: &str, config: &Config) -> (s: System)
        ensures
            s.name_view() == name@,
            s.host_view() == host@,
            s.config_view() == *config,
    {
        System { name: name.to_owned(), host: host.to_owned(), config: copy_config(config) }
    }

    /// The name of the system.
    pub fn name(&self) -> (r: &str)
        ensures
            r@ == self.name_view(),
    {
        self.name.as_str()
    }

    /// The host the system runs on.
    pub fn host(&self) -> (r: &str)
        ensures
            r@ == self.host_view(),
    {
        self.host.as_str()
    }

    /// The settings of the system.
    pub fn config(&self) -> (r: &Config)
        ensures
            *r == self.config_view(),
    {
        &self.config
    }

    /// Whether a pool of `available` threads is large enough to run the
    /// system; the error says how many it needs.
    pub fn check_pool(&self, available: usize) -> (r: Result<(), Error>)
        requires
            self.config_view().scheduler.threads_required() <= usize::MAX,
        ensures
            r is Ok <==> available > self.config_view().scheduler.actor_worker_threads
                + self.config_view().scheduler.extra_worker_threads,
            r is Err ==> r == (Err::<(), Error>(
                Error::ThreadPoolTooSmall {
                    required: (self.config_view().scheduler.actor_worker_threads
                        + self.config_view().scheduler.extra_worker_threads + 1) as usize,
                    available,
                },
            )),
            available >= self.config_view().scheduler.threads_required() ==> r is Ok,
            available < self.config_view().scheduler.threads_required() ==> r == (Err::<(), Error>(
                Error::ThreadPoolTooSmall {
                    required: self.config_view().scheduler.threads_required() as usize,
                    available,
                },
            )),
    {
        let required = self.config.scheduler.total_threads_required();
        if available < required {
            Err(Error::ThreadPoolTooSmall { required, available })
        } else {
            Ok(())
        }
    }
}

impl Default for System {
    fn default() -> (s: System)
        ensures
            s.name_view() == Seq::<char>::empty(),
            s.host_view() == Seq::<char>::empty(),
            s.config_view().scheduler.is_default(),
            s.config_view().remote.is_default(),
    {
        System { name: String::new(), host: String::new(), config: Config::default() }
    }
}

/// What worker threads and the outside world ask of the scheduler.
pub enum Action<A, M, R> {
    /// A worker hands an actor back after it processed an envelope; `ok` is
    /// false when the actor failed while doing so.
    Return { tag: String, actor: A, ok: bool, elapsed_us: u64 },
    /// Bind a new actor under an address.
    Spawn { tag: String, actor: A },
    /// Deliver an envelope to the actor at an address.
    Queue { tag: String, envelope: Envelope<M> },
    /// Deliver an envelope once its time has come.
    Delay { entry: Entry<M> },
    /// Stop the actor at an address.
    Stop { tag: String },
    /// Logs or metrics that the scheduler passes on to reporting.
    Report { report: R },
    /// Stop the scheduler.
    Shutdown,
}

/// Work handed to a worker thread.
pub enum Event<A, M> {
    /// Let the actor process one envelope.
    Mail { tag: String, actor: A, envelope: Envelope<M> },
    /// Let the actor clean up: it is stopped for good.
    Stop { tag: String, actor: A },
}

/// What the scheduler does after handling one action.
pub enum Step<A, M, R> {
    /// Nothing leaves the scheduler.
    Idle,
    /// Send this event to the worker chosen by `worker_for` on its tag.
    Dispatch { event: Event<A, M> },
    /// Pass this on to reporting.
    Report { report: R },
    /// Leave the scheduling loop.
    Shutdown,
}

/// A live actor: the actor itself while it is idle (absent while a worker
/// holds it), and the envelopes that wait for it.
pub struct Slot<A, M> {
    pub actor: Option<A>,
    pub mailbox: VecDeque<Envelope<M>>,
}

/// The abstract state of one live actor.
pub struct SlotView<A, M> {
    pub idle: Option<A>,
    pub mailbox: Seq<Envelope<M>>,
}

/// The abstract state of the scheduler: live actors by address, their
/// statistics by address, and the delayed envelopes in the order they fall due.
pub struct Model<A, M> {
    pub live: Map<Seq<char>, SlotView<A, M>>,
    pub stats: Map<Seq<char>, ActorStats>,
    pub tasks: Seq<Entry<M>>,
}

/// The statistics after one more processed envelope.
pub open spec fn recorded(s: ActorStats, elapsed_us: u64) -> ActorStats {
    ActorStats {
        count: (s.count + 1) as u64,
        elapsed_sum_us: (s.elapsed_sum_us + elapsed_us) as u64,
        elapsed_min_us: if elapsed_us < s.elapsed_min_us { elapsed_us } else { s.elapsed_min_us },
        elapsed_max_us: if elapsed_us > s.elapsed_max_us { elapsed_us } else { s.elapsed_max_us },
        ..s
    }
}

/// The statistics after a mailbox reached `depth` envelopes.
pub open spec fn deepened(s: ActorStats, depth: nat) -> ActorStats {
    if depth > s.mailbox_depth_max {
        ActorStats { mailbox_depth_max: depth as usize, ..s }
    } else {
        s
    }
}

/// The statistics of the actor at `tag` before it processed anything.
pub open spec fn fresh_stats(tag: String) -> ActorStats {
    ActorStats {
        tag,
        count: 0,
        elapsed_sum_us: 0,
        elapsed_min_us: u64::MAX,
        elapsed_max_us: 0,
        mailbox_depth_max: 0,
    }
}

/// `s` with one more entry, placed after every entry due at or before it.
pub open spec fn scheduled<M>(s: Seq<Entry<M>>, e: Entry<M>) -> Seq<Entry<M>> {
    s.insert(due_prefix(s, e.at) as int, e)
}

/// The rules by which the scheduler handles one action: the next state, and
/// what leaves the scheduler.
pub open spec fn transition<A, M, R>(m: Model<A, M>, a: Action<A, M, R>) -> (Model<A, M>, Step<A, M, R>) {
    match a {
        Action::Return { tag, actor, ok, elapsed_us } => {
            let k = tag@;
            if m.live.contains_key(k) {
                let stats = if m.stats.contains_key(k) {
                    m.stats.insert(k, recorded(m.stats[k], elapsed_us))
                } else {
                    m.stats
                };
                let slot = m.live[k];
                if !ok {
                    (Model { live: m.live.remove(k), stats, tasks: m.tasks }, Step::Idle)
                } else if slot.mailbox.len() > 0 {
                    (
                        Model {
                            live: m.live.insert(
                                k,
                                SlotView { idle: slot.idle, mailbox: slot.mailbox.drop_first() },
                            ),
                            stats,
                            tasks: m.tasks,
                        },
                        Step::Dispatch {
                            event: Event::Mail { tag, actor, envelope: slot.mailbox[0] },
                        },
                    )
                } else {
                    (
                        Model {
                            live: m.live.insert(
                                k,
                                SlotView { idle: Some(actor), mailbox: slot.mailbox },
                            ),
                            stats,
                            tasks: m.tasks,
                        },
                        Step::Idle,
                    )
                }
            } else if ok {
                (m, Step::Dispatch { event: Event::Stop { tag, actor } })
            } else {
                (m, Step::Idle)
            }
        },
        Action::Queue { tag, envelope } => {
            let k = tag@;
            if m.live.contains_key(k) {
                let slot = m.live[k];
                match slot.idle {
                    Some(actor) => (
                        Model {
                            live: m.live.insert(k, SlotView { idle: None, mailbox: slot.mailbox }),
                            ..m
                        },
                        Step::Dispatch { event: Event::Mail { tag, actor, envelope } },
                    ),
                    None => {
                        let mailbox = slot.mailbox.push(envelope);
                        (
                            Model {
                                live: m.live.insert(k, SlotView { idle: None, mailbox }),
                                stats: if m.stats.contains_key(k) {
                                    m.stats.insert(k, deepened(m.stats[k], mailbox.len()))
                                } else {
                                    m.stats
                                },
                                tasks: m.tasks,
                            },
                            Step::Idle,
                        )
                    },
                }
            } else {
                (m, Step::Idle)
            }
        },
        Action::Spawn { tag, actor } => {
            let k = tag@;
            if m.live.contains_key(k) {
                (m, Step::Idle)
            } else {
                (
                    Model {
                        live: m.live.insert(k, SlotView { idle: Some(actor), mailbox: Seq::empty() }),
                        stats: m.stats.insert(k, fresh_stats(tag)),
                        tasks: m.tasks,
                    },
                    Step::Idle,
                )
            }
        },
        Action::Delay { entry } => (Model { tasks: scheduled(m.tasks, entry), ..m }, Step::Idle),
        Action::Stop { tag } => {
            let k = tag@;
            if m.live.contains_key(k) {
                let next = Model { live: m.live.remove(k), stats: m.stats.remove(k), tasks: m.tasks };
                match m.live[k].idle {
                    Some(actor) => (next, Step::Dispatch { event: Event::Stop { tag, actor } }),
                    None => (next, Step::Idle),
                }
            } else {
                (m, Step::Idle)
            }
        },
        Action::Report { report } => (m, Step::Report { report }),
        Action::Shutdown => (m, Step::Shutdown),
    }
}

/// The latest time at which a delayed envelope is delivered by a tick at
/// `now`: half the delay precision later.
pub open spec fn tick_threshold(now: u64, config: SchedulerConfig) -> u64 {
    (now + nanos_of(config.delay_precision) / 2) as u64
}

/// The scheduler's counters after handling one action in state `m`: every
/// action is a hit, and each is counted by what became of it.
pub open spec fn counted<A, M, R>(c: SchedulerMetrics, m: Model<A, M>, a: Action<A, M, R>) -> SchedulerMetrics {
    let c = SchedulerMetrics { hit: (c.hit + 1) as u64, ..c };
    match a {
        Action::Return { tag, ok, .. } => {
            if !m.live.contains_key(tag@) {
                c
            } else if ok {
                SchedulerMetrics { returns: (c.returns + 1) as u64, ..c }
            } else {
                SchedulerMetrics { failures: (c.failures + 1) as u64, ..c }
            }
        },
        Action::Queue { tag, .. } => {
            if m.live.contains_key(tag@) {
                SchedulerMetrics {
                    queues: (c.queues + 1) as u64,
                    messages: (c.messages + 1) as u64,
                    ..c
                }
            } else {
                SchedulerMetrics { drops: (c.drops + 1) as u64, ..c }
            }
        },
        Action::Spawn { tag, .. } => {
            if m.live.contains_key(tag@) {
                SchedulerMetrics { drops: (c.drops + 1) as u64, ..c }
            } else {
                SchedulerMetrics { spawns: (c.spawns + 1) as u64, ..c }
            }
        },
        Action::Delay { .. } => SchedulerMetrics { delays: (c.delays + 1) as u64, ..c },
        Action::Stop { tag } => {
            if m.live.contains_key(tag@) {
                SchedulerMetrics { stops: (c.stops + 1) as u64, ..c }
            } else {
                SchedulerMetrics { drops: (c.drops + 1) as u64, ..c }
            }
        },
        _ => c,
    }
}

/// What holds of every state the scheduler reaches: an idle actor has no
/// waiting envelope, statistics are filed under their own tag, and delayed
/// envelopes are ordered by time.
pub open spec fn model_inv<A, M>(m: Model<A, M>) -> bool {
    &&& forall|k: Seq<char>| #[trigger] m.live.contains_key(k) && m.live[k].idle is Some ==> m.live[k].mailbox.len() == 0
    &&& forall|k: Seq<char>| #[trigger] m.stats.contains_key(k) ==> m.stats[k].tag@ == k
    &&& sorted_by_time(m.tasks)
}

/// The action can be handled without a counter overflowing: the counters
/// that it raises are below `u64::MAX`, a new actor finds room in the maps,
/// and a returning actor's statistics can take one more sample.
pub open spec fn fits<A, M, R>(c: SchedulerMetrics, m: Model<A, M>, a: Action<A, M, R>) -> bool {
    &&& c.hit < u64::MAX
    &&& match a {
        Action::Return { tag, ok, elapsed_us, .. } => m.live.contains_key(tag@) ==> {
            &&& if ok { c.returns < u64::MAX } else { c.failures < u64::MAX }
            &&& m.stats.contains_key(tag@) ==> m.stats[tag@].can_record(elapsed_us)
        },
        Action::Queue { tag, .. } => if m.live.contains_key(tag@) {
            c.queues < u64::MAX && c.messages < u64::MAX
        } else {
            c.drops < u64::MAX
        },
        Action::Spawn { tag, .. } => if m.live.contains_key(tag@) {
            c.drops < u64::MAX
        } else {
            &&& c.spawns < u64::MAX
            &&& m.live.len() < usize::MAX
            &&& m.stats.contains_key(tag@) || m.stats.len() < usize::MAX
        },
        Action::Delay { .. } => c.delays < u64::MAX,
        Action::Stop { tag } => if m.live.contains_key(tag@) {
            c.stops < u64::MAX
        } else {
            c.drops < u64::MAX
        },
        _ => true,
    }
}

/// The state of the scheduling thread: live actors and their mailboxes,
/// per-actor statistics, and delayed envelopes.
pub struct Scheduler<A, M> {
    config: SchedulerConfig,
    slots: TagMap<Slot<A, M>>,
    stats: TagMap<ActorStats>,
    tasks: TaskQueue<M>,
}

impl<A, M> Scheduler<A, M> {
    /// The abstract state.
    pub closed spec fn model(&self) -> Model<A, M> {
        Model {
            live: self.slots@.map_values(|s: Slot<A, M>| SlotView { idle: s.actor, mailbox: s.mailbox@ }),
            stats: self.stats@,
            tasks: self.tasks@,
        }
    }

    /// The settings the scheduler was made with.
    pub closed spec fn config(&self) -> SchedulerConfig {
        self.config
    }

    /// The inner structures are consistent and the abstract state meets `model_inv`.
    pub closed spec fn wf(&self) -> bool {
        &&& self.slots.wf()
        &&& self.stats.wf()
        &&& self.tasks.wf()
        &&& model_inv(self.model())
    }

    /// Every state of a well-formed scheduler meets the invariant.
    pub proof fn lemma_wf_inv(&self)
        requires
            self.wf(),
        ensures
            model_inv(self.model()),
    {
    }

    /// A scheduler with no actor and no delayed envelope.
    pub fn with_config(config: &SchedulerConfig) -> (s: Self)
        ensures
            s.wf(),
            s.config() == *config,
            s.model().live == Map::<Seq<char>, SlotView<A, M>>::empty(),
            s.model().stats == Map::<Seq<char>, ActorStats>::empty(),
            s.model().tasks == Seq::<Entry<M>>::empty(),
    {
        let s = Scheduler {
            config: *config,
            slots: TagMap::new(),
            stats: TagMap::new(),
            tasks: TaskQueue::new(),
        };
        assert(s.model().live =~= Map::<Seq<char>, SlotView<A, M>>::empty());
        s
    }
    /// Whether `handle` can take `action` without a counter overflowing.
    pub fn can_handle<R>(&self, action: &Action<A, M, R>, metrics: &SchedulerMetrics) -> (b: bool)
        requires
            self.wf(),
        ensures
            b == fits(*metrics, self.model(), *action),
    {
        proof {
            assert(self.model().live.dom() =~= self.slots@.dom());
        }
        if metrics.hit == u64::MAX {
            return false;
        }
        match action {
            Action::Return { tag, ok, elapsed_us, .. } => {
                if self.slots.contains_key(tag) {
                    let room = if *ok { metrics.returns < u64::MAX } else { metrics.failures < u64::MAX };
                    room && match self.stats.get(tag) {
                        Some(s) => s.room_for(*elapsed_us),
                        None => true,
                    }
                } else {
                    true
                }
            },
            Action::Queue { tag, .. } => {
                if self.slots.contains_key(tag) {
                    metrics.queues < u64::MAX && metrics.messages < u64::MAX
                } else {
                    metrics.drops < u64::MAX
                }
            },
            Action::Spawn { tag, .. } => {
                if self.slots.contains_key(tag) {
                    metrics.drops < u64::MAX
                } else {
                    metrics.spawns < u64::MAX && self.slots.len() < usize::MAX && (self.stats.contains_key(tag)
                        || self.stats.len() < usize::MAX)
                }
            },
            Action::Delay { .. } => metrics.delays < u64::MAX,
            Action::Stop { tag } => {
                if self.slots.contains_key(tag) {
                    metrics.stops < u64::MAX
                } else {
                    metrics.drops < u64::MAX
                }
            },
            _ => true,
        }
    }

    /// Handles one action by the rules of `transition`, and counts it.
    pub fn handle<R>(&mut self, action: Action<A, M, R>, metrics: &mut SchedulerMetrics) -> (step: Step<A, M, R>)
        requires
            old(self).wf(),
            fits(*old(metrics), old(self).model(), action),
        ensures
            final(self).wf(),
            final(self).config() == old(self).config(),
            final(self).model() == transition(old(self).model(), action).0,
            step == transition(old(self).model(), action).1,
            *final(metrics) == counted(*old(metrics), old(self).model(), action),
    {
        let ghost m0 = self.model();
        let ghost a0 = action;
        proof {
            self.slots.lemma_len_bound();
            self.stats.lemma_len_bound();
            assert(m0.live.dom() =~= self.slots@.dom());
        }
        metrics.hit += 1;
        match action {
            Action::Return { tag, actor, ok, elapsed_us } => {
                match self.slots.remove(&tag) {
                    Some(mut slot) => {
                        assert(m0.live.contains_key(tag@));
                        match self.stats.remove(&tag) {
                            Some(mut st) => {
                                st.record_elapsed(elapsed_us);
                                self.stats.insert(tag.clone(), st);
                            },
                            None => {},
                        }
                        if !ok {
                            metrics.failures += 1;
                            proof {
                                assert(self.model().live =~= m0.live.remove(tag@));
                                assert(self.model().stats =~= transition(m0, a0).0.stats);
                            }
                            Step::Idle
                        } else {
                            metrics.returns += 1;
                            match slot.mailbox.pop_front() {
                                Some(envelope) => {
                                    let ghost sv = slot;
                                    self.slots.insert(tag.clone(), slot);
                                    proof {
                                        assert(self.model().live =~= transition(m0, a0).0.live);
                                        assert(self.model().stats =~= transition(m0, a0).0.stats);
                                    }
                                    Step::Dispatch { event: Event::Mail { tag, actor, envelope } }
                                },
                                None => {
                                    slot.actor = Some(actor);
                                    self.slots.insert(tag.clone(), slot);
                                    proof {
                                        assert(self.model().live =~= transition(m0, a0).0.live);
                                        assert(self.model().stats =~= transition(m0, a0).0.stats);
                                    }
                                    Step::Idle
                                },
                            }
                        }
                    },
                    None => {
                        proof {
                            assert(self.model().live =~= m0.live);
                        }
                        if ok {
                            Step::Dispatch { event: Event::Stop { tag, actor } }
                        } else {
                            Step::Idle
                        }
                    },
                }
            },
            Action::Queue { tag, envelope } => {
                match self.slots.remove(&tag) {
                    Some(mut slot) => {
                        metrics.queues += 1;
                        metrics.messages += 1;
                        match slot.actor.take() {
                            Some(actor) => {
                                self.slots.insert(tag.clone(), slot);
                                proof {
                                    assert(self.model().live =~= transition(m0, a0).0.live);
                                }
                                Step::Dispatch { event: Event::Mail { tag, actor, envelope } }
                            },
                            None => {
                                slot.mailbox.push_back(envelope);
                                let depth = slot.mailbox.len();
                                self.slots.insert(tag.clone(), slot);
                                match self.stats.remove(&tag) {
                                    Some(mut st) => {
                                        if depth > st.mailbox_depth_max {
                                            st.mailbox_depth_max = depth;
                                        }
                                        self.stats.insert(tag.clone(), st);
                                    },
                                    None => {},
                                }
                                proof {
                                    assert(self.model().live =~= transition(m0, a0).0.live);
                                    assert(self.model().stats =~= transition(m0, a0).0.stats);
                                }
                                Step::Idle
                            },
                        }
                    },
                    None => {
                        metrics.drops += 1;
                        proof {
                            assert(self.model().live =~= m0.live);
                        }
                        Step::Idle
                    },
                }
            },
            Action::Spawn { tag, actor } => {
                if self.slots.contains_key(&tag) {
                    metrics.drops += 1;
                    Step::Idle
                } else {
                    metrics.spawns += 1;
                    let slot = Slot {
                        actor: Some(actor),
                        mailbox: VecDeque::with_capacity(self.config.default_mailbox_capacity),
                    };
                    self.slots.insert(tag.clone(), slot);
                    self.stats.insert(tag.clone(), ActorStats::new(tag));
                    proof {
                        assert(self.model().live =~= transition(m0, a0).0.live);
                        assert(self.model().stats =~= transition(m0, a0).0.stats);
                    }
                    Step::Idle
                }
            },
            Action::Delay { entry } => {
                metrics.delays += 1;
                self.tasks.push(entry);
                Step::Idle
            },
            Action::Stop { tag } => {
                match self.slots.remove(&tag) {
                    Some(slot) => {
                        metrics.stops += 1;
                        let _ = self.stats.remove(&tag);
                        proof {
                            assert(self.model().live =~= m0.live.remove(tag@));
                        }
                        match slot.actor {
                            Some(actor) => Step::Dispatch { event: Event::Stop { tag, actor } },
                            None => Step::Idle,
                        }
                    },
                    None => {
                        metrics.drops += 1;
                        proof {
                            assert(self.model().live =~= m0.live);
                        }
                        Step::Idle
                    },
                }
            },
            Action::Report { report } => Step::Report { report },
            Action::Shutdown => Step::Shutdown,
        }
    }
    /// The number of live actors.
    pub fn len(&self) -> (n: usize)
        requires
            self.wf(),
        ensures
            n == self.model().live.len(),
    {
        proof {
            assert(self.model().live.dom() =~= self.slots@.dom());
        }
        self.slots.len()
    }

    /// Whether no actor is alive.
    pub fn is_empty(&self) -> (b: bool)
        requires
            self.wf(),
        ensures
            b == (self.model().live.len() == 0),
    {
        self.len() == 0
    }

    /// Nanoseconds to wait for the next action at time `now`: the configured
    /// timeout, or less when a delayed envelope falls due sooner.
    pub fn next_wait(&self, now: u64, timeout_millis: u64) -> (wait: u64)
        requires
            self.wf(),
            timeout_millis * 1_000_000 <= u64::MAX,
        ensures
            wait == if self.model().tasks.len() > 0 && self.model().tasks[0].at < now + timeout_millis * 1_000_000 {
                if self.model().tasks[0].at > now { self.model().tasks[0].at - now } else { 0 }
            } else {
                timeout_millis * 1_000_000
            },
    {
        let timeout = timeout_millis * 1_000_000;
        match self.tasks.first_at() {
            Some(at) => {
                let until = if at > now { at - now } else { 0 };
                if until < timeout { until } else { timeout }
            },
            None => timeout,
        }
    }

    /// Ends one round of the scheduling loop at time `now`: takes out, in
    /// order, every delayed envelope due within half the configured delay
    /// precision from now, and counts the tick.
    pub fn tick(&mut self, now: u64, metrics: &mut SchedulerMetrics) -> (due: Vec<Entry<M>>)
        requires
            old(self).wf(),
            now + nanos_of(old(self).config().delay_precision) / 2 <= u64::MAX,
            old(metrics).ticks < u64::MAX,
        ensures
            final(self).wf(),
            final(self).config() == old(self).config(),
            due@ == old(self).model().tasks.take(
                due_prefix(old(self).model().tasks, tick_threshold(now, old(self).config())) as int,
            ),
            final(self).model().tasks == old(self).model().tasks.skip(
                due_prefix(old(self).model().tasks, tick_threshold(now, old(self).config())) as int,
            ),
            final(self).model().live == old(self).model().live,
            final(self).model().stats == old(self).model().stats,
            *final(metrics) == (SchedulerMetrics { ticks: (old(metrics).ticks + 1) as u64, ..*old(metrics) }),
            forall|i: int| 0 <= i < due@.len() ==> #[trigger] due@[i].at <= now + nanos_of(
                old(self).config().delay_precision,
            ) / 2,
            forall|i: int| 0 <= i < final(self).model().tasks.len() ==> #[trigger] final(self).model().tasks[i].at
                > now + nanos_of(old(self).config().delay_precision) / 2,
    {
        proof {
            assert(model_inv(self.model()));
            law_tick_takes_what_is_due(self.model().tasks, now, self.config);
        }
        let half = duration_as_nanos(self.config.delay_precision) / 2;
        let threshold = now + half as u64;
        let due = self.tasks.pop_due(threshold);
        metrics.ticks += 1;
        proof {
            assert(self.model().live =~= old(self).model().live);
            assert(self.model().stats == old(self).model().stats);
            assert(model_inv(old(self).model()));
            let t0 = old(self).model().tasks;
            let d = due_prefix(t0, threshold) as int;
            assert forall|i: int| 0 <= i < due@.len() implies #[trigger] due@[i].at <= now + nanos_of(
                self.config.delay_precision,
            ) / 2 by {
                assert(due@[i] == t0[i]);
            }
            assert forall|i: int| 0 <= i < self.model().tasks.len() implies #[trigger] self.model().tasks[i].at
                > now + nanos_of(self.config.delay_precision) / 2 by {
                assert(self.model().tasks[i] == t0[d + i]);
            }
        }
        due
    }

    /// Takes a copy of every actor's statistics and resets them all.
    pub fn snapshot_stats(&mut self) -> (r: Vec<ActorStats>)
        requires
            old(self).wf(),
        ensures
            final(self).wf(),
            final(self).config() == old(self).config(),
            final(self).model().live == old(self).model().live,
            final(self).model().tasks == old(self).model().tasks,
            final(self).model().stats == old(self).model().stats.map_values(|s: ActorStats| fresh_stats(s.tag)),
            r@.len() == old(self).model().stats.len(),
            forall|i: int| 0 <= i < r@.len() ==> {
                &&& #[trigger] old(self).model().stats.contains_key(r@[i].tag@)
                &&& old(self).model().stats[r@[i].tag@] == r@[i]
            },
            forall|k: Seq<char>| #[trigger] old(self).model().stats.contains_key(k) ==>
                exists|i: int| 0 <= i < r@.len() && #[trigger] r@[i].tag@ == k,
    {
        let ghost old_stats = self.stats@;
        proof {
            self.stats.lemma_len_bound();
            assert(model_inv(self.model()));
            assert(self.model().stats == old_stats);
            assert forall|k: Seq<char>| #[trigger] old_stats.contains_key(k) implies old_stats[k].tag@ == k by {
                assert(self.model().stats.contains_key(k));
            }
        }
        let entries = self.stats.drain();
        let mut fresh: TagMap<ActorStats> = TagMap::new();
        let mut taken: Vec<ActorStats> = Vec::new();
        let mut i: usize = 0;
        let mut entries = entries;
        let ghost all = entries@;
        while i < entries.len()
            invariant
                fresh.wf(),
                0 <= i <= all.len(),
                entries@ == all,
                taken@.len() == i,
                all.len() == old_stats.len(),
                forall|a: int, b: int| 0 <= a < b < all.len() ==> #[trigger] all[a].0@ != #[trigger] all[b].0@,
                forall|a: int|
                    0 <= a < all.len() ==> {
                        &&& #[trigger] old_stats.contains_key(all[a].0@)
                        &&& old_stats[all[a].0@] == all[a].1
                    },
                forall|k: Seq<char>| #[trigger] old_stats.contains_key(k) ==> old_stats[k].tag@ == k,
                forall|a: int| 0 <= a < i ==> #[trigger] taken@[a] == all[a].1,
                forall|k: Seq<char>| #[trigger] fresh@.contains_key(k) <==> exists|a: int| 0 <= a < i && #[trigger] all[a].0@ == k,
                forall|k: Seq<char>| #[trigger] fresh@.contains_key(k) ==> fresh@[k] == fresh_stats(old_stats[k].tag),
                fresh@.len() == i,
                old_stats.len() <= usize::MAX,
            decreases all.len() - i,
        {
            let tag = entries[i].0.clone();
            let st_tag = entries[i].1.tag.clone();
            proof {
                assert(old_stats.contains_key(all[i as int].0@));
                if fresh@.contains_key(tag@) {
                    let a = choose|a: int| 0 <= a < i && #[trigger] all[a].0@ == tag@;
                    assert(all[a].0@ != all[i as int].0@);
                }
            }
            proof {
                fresh.lemma_len_bound();
            }
            fresh.insert(tag, ActorStats::new(st_tag));
            taken.push(entries[i].1.clone_stats());
            proof {
                assert forall|k: Seq<char>| #[trigger] fresh@.contains_key(k) <==> exists|a: int| 0 <= a < i + 1 && #[trigger] all[a].0@ == k by {
                    if fresh@.contains_key(k) && k != all[i as int].0@ {
                        let a = choose|a: int| 0 <= a < i && #[trigger] all[a].0@ == k;
                    }
                    if exists|a: int| 0 <= a < i + 1 && #[trigger] all[a].0@ == k {
                        let a = choose|a: int| 0 <= a < i + 1 && #[trigger] all[a].0@ == k;
                        if a < i {
                            assert(exists|b: int| 0 <= b < i && #[trigger] all[b].0@ == k);
                        }
                    }
                }
            }
            i = i + 1;
        }
        self.stats = fresh;
        proof {
            assert forall|k: Seq<char>| #[trigger] self.stats@.contains_key(k) <==> old_stats.contains_key(k) by {
                if old_stats.contains_key(k) {
                    let a = choose|a: int| 0 <= a < all.len() && #[trigger] all[a].0@ == k;
                }
            }
            assert(self.stats@ =~= old_stats.map_values(|s: ActorStats| fresh_stats(s.tag)));
            assert(self.model().live =~= old(self).model().live);
            assert forall|a: int| 0 <= a < taken@.len() implies {
                &&& #[trigger] old_stats.contains_key(taken@[a].tag@)
                &&& old_stats[taken@[a].tag@] == taken@[a]
            } by {
                assert(old_stats.contains_key(all[a].0@));
                assert(taken@[a] == all[a].1);
            }
            assert forall|k: Seq<char>| #[trigger] old(self).model().stats.contains_key(k) implies
                exists|a: int| 0 <= a < taken@.len() && #[trigger] taken@[a].tag@ == k by {
                let a = choose|a: int| 0 <= a < all.len() && #[trigger] all[a].0@ == k;
                assert(taken@[a].tag@ == k);
            }
        }
        taken
    }
}

} // verus!

verus! {

/// Every action keeps the invariant of the scheduler's state.
pub proof fn lemma_transition_keeps_inv<A, M, R>(m: Model<A, M>, a: Action<A, M, R>)
    requires
        model_inv(m),
    ensures
        model_inv(transition(m, a).0),
{
    let n = transition(m, a).0;
    match a {
        Action::Delay { entry } => {
            crate::timer::lemma_due_prefix(m.tasks, entry.at);
            let k = due_prefix(m.tasks, entry.at) as int;
            let t = n.tasks;
            assert forall|i: int, j: int| 0 <= i <= j < t.len() implies #[trigger] t[i].at
                <= #[trigger] t[j].at by {
                if i < k {
                    if j < k {
                        assert(m.tasks[i].at <= m.tasks[j].at);
                    } else if j > k {
                        assert(m.tasks[i].at <= m.tasks[j - 1].at);
                    }
                } else if i == k {
                    if j > k {
                        assert(m.tasks[j - 1].at > entry.at);
                    }
                } else {
                    assert(m.tasks[i - 1].at <= m.tasks[j - 1].at);
                }
            }
        },
        _ => {},
    }
}

/// An envelope sent to a freshly spawned actor is handed to that actor at once.
pub proof fn law_spawn_then_send_delivers<A, M, R>(
    m: Model<A, M>,
    tag: String,
    to: String,
    actor: A,
    envelope: Envelope<M>,
)
    requires
        !m.live.contains_key(tag@),
        to@ == tag@,
    ensures
        ({
            let m1 = transition(m, Action::<A, M, R>::Spawn { tag, actor }).0;
            transition(m1, Action::<A, M, R>::Queue { tag: to, envelope }).1 == Step::<A, M, R>::Dispatch {
                event: Event::Mail { tag: to, actor, envelope },
            }
        }),
{
}

/// A busy actor gets the envelopes sent to it meanwhile one by one, in the
/// order in which they were sent.
pub proof fn law_envelopes_arrive_in_order<A, M, R>(
    m: Model<A, M>,
    tag: String,
    e1: Envelope<M>,
    e2: Envelope<M>,
    a1: A,
    a2: A,
)
    requires
        m.live.contains_key(tag@),
        m.live[tag@].idle is None,
        m.live[tag@].mailbox.len() == 0,
    ensures
        ({
            let m1 = transition(m, Action::<A, M, R>::Queue { tag, envelope: e1 }).0;
            let m2 = transition(m1, Action::<A, M, R>::Queue { tag, envelope: e2 }).0;
            let (m3, s3) = transition(m2, Action::<A, M, R>::Return { tag, actor: a1, ok: true, elapsed_us: 0 });
            let (m4, s4) = transition(m3, Action::<A, M, R>::Return { tag, actor: a2, ok: true, elapsed_us: 0 });
            &&& s3 == Step::<A, M, R>::Dispatch { event: Event::Mail { tag, actor: a1, envelope: e1 } }
            &&& s4 == Step::<A, M, R>::Dispatch { event: Event::Mail { tag, actor: a2, envelope: e2 } }
            &&& m4.live[tag@].mailbox.len() == 0
        }),
{
    let m1 = transition(m, Action::<A, M, R>::Queue { tag, envelope: e1 }).0;
    let m2 = transition(m1, Action::<A, M, R>::Queue { tag, envelope: e2 }).0;
    assert(m2.live[tag@].mailbox =~= seq![e1, e2]);
    let m3 = transition(m2, Action::<A, M, R>::Return { tag, actor: a1, ok: true, elapsed_us: 0 }).0;
    assert(m3.live[tag@].mailbox =~= seq![e2]);
}

/// An actor processes one envelope at a time: the scheduler hands an actor
/// an envelope only when it is idle or when a worker has just handed it
/// back, and afterwards counts it as busy.
pub proof fn law_one_envelope_at_a_time<A, M, R>(m: Model<A, M>, a: Action<A, M, R>)
    requires
        model_inv(m),
    ensures
        ({
            let (n, step) = transition(m, a);
            match step {
                Step::Dispatch { event: Event::Mail { tag, actor, .. } } => {
                    &&& n.live.contains_key(tag@)
                    &&& n.live[tag@].idle is None
                    &&& match a {
                        Action::Queue { tag: t, .. } => t == tag && m.live[tag@].idle == Some(actor),
                        Action::Return { tag: t, actor: returned, ok, .. } => t == tag && returned == actor
                            && ok && m.live.contains_key(tag@) && m.live[tag@].idle is None,
                        _ => false,
                    }
                },
                _ => true,
            }
        }),
{
}

/// Once an actor is stopped, envelopes sent to its address are dropped.
pub proof fn law_stopped_actor_receives_nothing<A, M, R>(
    m: Model<A, M>,
    tag: String,
    to: String,
    envelope: Envelope<M>,
)
    requires
        to@ == tag@,
    ensures
        ({
            let m1 = transition(m, Action::<A, M, R>::Stop { tag }).0;
            &&& !m1.live.contains_key(tag@)
            &&& transition(m1, Action::<A, M, R>::Queue { tag: to, envelope }) == (m1, Step::<A, M, R>::Idle)
        }),
{
}

/// A stopped actor is always handed back for its last word: at once when it
/// is idle, or when it returns from the envelope it was processing.
pub proof fn law_stopped_actor_is_told<A, M, R>(m: Model<A, M>, tag: String, returned: A)
    requires
        m.live.contains_key(tag@),
    ensures
        ({
            let (m1, s1) = transition(m, Action::<A, M, R>::Stop { tag });
            match m.live[tag@].idle {
                Some(actor) => s1 == Step::<A, M, R>::Dispatch { event: Event::Stop { tag, actor } },
                None => transition(m1, Action::<A, M, R>::Return { tag, actor: returned, ok: true, elapsed_us: 0 }).1
                    == Step::<A, M, R>::Dispatch { event: Event::Stop { tag, actor: returned } },
            }
        }),
{
}

/// An actor that failed while processing an envelope is no longer alive.
pub proof fn law_failed_actor_is_removed<A, M, R>(m: Model<A, M>, tag: String, actor: A, elapsed_us: u64)
    requires
        m.live.contains_key(tag@),
    ensures
        ({
            let (m1, s1) = transition(m, Action::<A, M, R>::Return { tag, actor, ok: false, elapsed_us });
            &&& !m1.live.contains_key(tag@)
            &&& s1 == Step::<A, M, R>::Idle
        }),
{
}

/// Spawning at an address that is taken changes nothing: the actor there stays.
pub proof fn law_spawn_at_taken_address_is_ignored<A, M, R>(m: Model<A, M>, tag: String, actor: A)
    requires
        m.live.contains_key(tag@),
    ensures
        transition(m, Action::<A, M, R>::Spawn { tag, actor }) == (m, Step::<A, M, R>::Idle),
{
}

/// A delayed envelope is delivered by the first tick whose threshold is at or
/// after its time, and not before.
pub proof fn law_delayed_envelope_fires_when_due<M>(tasks: Seq<Entry<M>>, e: Entry<M>, threshold: u64)
    requires
        sorted_by_time(tasks),
    ensures
        ({
            let s = scheduled(tasks, e);
            let due = s.take(due_prefix(s, threshold) as int);
            let rest = s.skip(due_prefix(s, threshold) as int);
            &&& e.at <= threshold ==> due.contains(e)
            &&& e.at > threshold ==> rest.contains(e)
        }),
{
    let s = scheduled(tasks, e);
    let k = due_prefix(tasks, e.at) as int;
    crate::timer::lemma_due_prefix(tasks, e.at);
    assert(s[k] == e);
    assert(sorted_by_time(s)) by {
        let m = Model::<(), M> { live: Map::empty(), stats: Map::empty(), tasks };
        lemma_transition_keeps_inv(m, Action::<(), M, ()>::Delay { entry: e });
    }
    crate::timer::lemma_due_prefix(s, threshold);
    let d = due_prefix(s, threshold) as int;
    if e.at <= threshold {
        if k >= d {
            assert(s[k].at > threshold);
        }
        assert(s.take(d)[k] == e);
    } else {
        if k < d {
            assert(s[k].at <= threshold);
        }
        assert(s.skip(d)[k - d] == e);
    }
}

/// An envelope sent to a busy actor waits behind every envelope already
/// waiting for it: it joins the end of the mailbox, and nothing leaves.
pub proof fn law_queue_to_busy_actor_appends<A, M, R>(m: Model<A, M>, tag: String, envelope: Envelope<M>)
    requires
        m.live.contains_key(tag@),
        m.live[tag@].idle is None,
    ensures
        ({
            let (n, step) = transition(m, Action::<A, M, R>::Queue { tag, envelope });
            &&& n.live.contains_key(tag@)
            &&& n.live[tag@].idle is None
            &&& n.live[tag@].mailbox == m.live[tag@].mailbox.push(envelope)
            &&& step == Step::<A, M, R>::Idle
        }),
{
}

/// An actor that comes back well while envelopes wait for it is handed the
/// oldest of them, which leaves the front of its mailbox.
pub proof fn law_return_hands_out_oldest<A, M, R>(m: Model<A, M>, tag: String, actor: A, elapsed_us: u64)
    requires
        m.live.contains_key(tag@),
        m.live[tag@].mailbox.len() > 0,
    ensures
        ({
            let (n, step) = transition(m, Action::<A, M, R>::Return { tag, actor, ok: true, elapsed_us });
            let waiting = m.live[tag@].mailbox;
            &&& step == Step::<A, M, R>::Dispatch {
                event: Event::Mail { tag, actor, envelope: waiting[0] },
            }
            &&& n.live.contains_key(tag@)
            &&& n.live[tag@].idle == m.live[tag@].idle
            &&& n.live[tag@].mailbox == waiting.subrange(1, waiting.len() as int)
        }),
{
}

/// The state after handling `actions` one after another from `m`, and the
/// step that each of them gave.
pub open spec fn run<A, M, R>(m: Model<A, M>, actions: Seq<Action<A, M, R>>) -> (Model<A, M>, Seq<Step<A, M, R>>)
    decreases actions.len(),
{
    if actions.len() == 0 {
        (m, Seq::empty())
    } else {
        let before = run(m, actions.drop_last());
        let after = transition(before.0, actions.last());
        (after.0, before.1.push(after.1))
    }
}

/// Sending each of `envelopes` in turn to the actor at `tag`.
pub open spec fn sends<A, M, R>(tag: String, envelopes: Seq<Envelope<M>>) -> Seq<Action<A, M, R>> {
    envelopes.map_values(|e: Envelope<M>| Action::Queue { tag, envelope: e })
}

/// The actor at `tag` coming back well after `elapsed_us` microseconds, as
/// each of `actors` in turn.
pub open spec fn comebacks<A, M, R>(tag: String, actors: Seq<A>, elapsed_us: u64) -> Seq<Action<A, M, R>> {
    actors.map_values(|a: A| Action::Return { tag, actor: a, ok: true, elapsed_us })
}

/// Handling `xs` and then `ys` is handling `xs + ys`.
proof fn lemma_run_append<A, M, R>(m: Model<A, M>, xs: Seq<Action<A, M, R>>, ys: Seq<Action<A, M, R>>)
    ensures
        ({
            let first = run(m, xs);
            let second = run(first.0, ys);
            run(m, xs + ys) == (second.0, first.1 + second.1)
        }),
    decreases ys.len(),
{
    if ys.len() == 0 {
        assert(xs + ys =~= xs);
        assert(run(m, xs).1 + Seq::<Step<A, M, R>>::empty() =~= run(m, xs).1);
    } else {
        lemma_run_append(m, xs, ys.drop_last());
        assert((xs + ys).drop_last() =~= xs + ys.drop_last());
        assert((xs + ys).last() == ys.last());
        let first = run(m, xs);
        let mid = run(first.0, ys.drop_last());
        let last = transition(mid.0, ys.last());
        assert((first.1 + mid.1).push(last.1) =~= first.1 + mid.1.push(last.1));
    }
}

/// Envelopes sent to a busy actor one after another join its mailbox in the
/// order sent, and none is handed out meanwhile.
proof fn lemma_run_sends<A, M, R>(m: Model<A, M>, tag: String, envelopes: Seq<Envelope<M>>)
    requires
        m.live.contains_key(tag@),
        m.live[tag@].idle is None,
    ensures
        ({
            let (n, steps) = run(m, sends::<A, M, R>(tag, envelopes));
            &&& n.live.contains_key(tag@)
            &&& n.live[tag@].idle is None
            &&& n.live[tag@].mailbox == m.live[tag@].mailbox + envelopes
            &&& steps.len() == envelopes.len()
            &&& forall|i: int| 0 <= i < steps.len() ==> steps[i] == Step::<A, M, R>::Idle
        }),
    decreases envelopes.len(),
{
    let acts = sends::<A, M, R>(tag, envelopes);
    if envelopes.len() == 0 {
        assert(m.live[tag@].mailbox + envelopes =~= m.live[tag@].mailbox);
    } else {
        let init = envelopes.drop_last();
        lemma_run_sends::<A, M, R>(m, tag, init);
        assert(acts.drop_last() =~= sends::<A, M, R>(tag, init));
        assert(acts.last() == Action::<A, M, R>::Queue { tag, envelope: envelopes.last() });
        let before = run(m, sends::<A, M, R>(tag, init));
        law_queue_to_busy_actor_appends::<A, M, R>(before.0, tag, envelopes.last());
        assert((m.live[tag@].mailbox + init).push(envelopes.last()) =~= m.live[tag@].mailbox + envelopes);
    }
}

/// A busy actor that comes back well again and again, at most as often as
/// envelopes wait for it, is handed the waiting envelopes front to back.
proof fn lemma_run_returns<A, M, R>(m: Model<A, M>, tag: String, actors: Seq<A>, elapsed_us: u64)
    requires
        m.live.contains_key(tag@),
        m.live[tag@].idle is None,
        actors.len() <= m.live[tag@].mailbox.len(),
    ensures
        ({
            let waiting = m.live[tag@].mailbox;
            let (n, steps) = run(m, comebacks::<A, M, R>(tag, actors, elapsed_us));
            &&& n.live.contains_key(tag@)
            &&& n.live[tag@].idle is None
            &&& n.live[tag@].mailbox == waiting.skip(actors.len() as int)
            &&& steps.len() == actors.len()
            &&& forall|i: int| 0 <= i < steps.len() ==> steps[i] == Step::<A, M, R>::Dispatch {
                event: Event::Mail { tag, actor: actors[i], envelope: waiting[i] },
            }
        }),
    decreases actors.len(),
{
    let waiting = m.live[tag@].mailbox;
    let acts = comebacks::<A, M, R>(tag, actors, elapsed_us);
    if actors.len() == 0 {
        assert(waiting.skip(0) =~= waiting);
    } else {
        let init = actors.drop_last();
        let k = init.len() as int;
        lemma_run_returns::<A, M, R>(m, tag, init, elapsed_us);
        assert(acts.drop_last() =~= comebacks::<A, M, R>(tag, init, elapsed_us));
        assert(acts.last() == Action::<A, M, R>::Return { tag, actor: actors.last(), ok: true, elapsed_us });
        let before = run(m, comebacks::<A, M, R>(tag, init, elapsed_us));
        law_return_hands_out_oldest::<A, M, R>(before.0, tag, actors.last(), elapsed_us);
        let left = waiting.skip(k);
        assert(left[0] == waiting[k]);
        assert(left.subrange(1, left.len() as int) =~= waiting.skip(k + 1));
    }
}

/// A busy actor gets the envelopes sent to it in the order in which they
/// were sent, however many there are: while it works, sending `envelopes`
/// hands out nothing, and each time it then comes back well it is handed the
/// oldest envelope still waiting, first those that waited already, then the
/// new ones in turn.
pub proof fn law_mailbox_is_first_in_first_out<A, M, R>(
    m: Model<A, M>,
    tag: String,
    envelopes: Seq<Envelope<M>>,
    actors: Seq<A>,
    elapsed_us: u64,
)
    requires
        m.live.contains_key(tag@),
        m.live[tag@].idle is None,
        actors.len() <= m.live[tag@].mailbox.len() + envelopes.len(),
    ensures
        ({
            let waiting = m.live[tag@].mailbox + envelopes;
            let actions = sends::<A, M, R>(tag, envelopes) + comebacks::<A, M, R>(tag, actors, elapsed_us);
            let (n, steps) = run(m, actions);
            &&& steps.len() == envelopes.len() + actors.len()
            &&& forall|i: int| 0 <= i < envelopes.len() ==> steps[i] == Step::<A, M, R>::Idle
            &&& forall|i: int| 0 <= i < actors.len() ==> steps[envelopes.len() + i] == Step::<A, M, R>::Dispatch {
                event: Event::Mail { tag, actor: actors[i], envelope: waiting[i] },
            }
            &&& n.live[tag@].mailbox == waiting.skip(actors.len() as int)
        }),
{
    let xs = sends::<A, M, R>(tag, envelopes);
    let ys = comebacks::<A, M, R>(tag, actors, elapsed_us);
    lemma_run_append(m, xs, ys);
    lemma_run_sends::<A, M, R>(m, tag, envelopes);
    let first = run(m, xs);
    lemma_run_returns::<A, M, R>(first.0, tag, actors, elapsed_us);
    let second = run(first.0, ys);
    let steps = first.1 + second.1;
    assert forall|i: int| 0 <= i < actors.len() implies steps[envelopes.len() + i] == second.1[i] by {}
}

/// A tick at `now` delivers exactly the delayed envelopes whose time is at
/// most half the delay precision after `now`: each one it takes out is due
/// by then, and each one it leaves is due later.
pub proof fn law_tick_takes_what_is_due<M>(tasks: Seq<Entry<M>>, now: u64, config: SchedulerConfig)
    requires
        sorted_by_time(tasks),
        now + nanos_of(config.delay_precision) / 2 <= u64::MAX,
    ensures
        ({
            let d = due_prefix(tasks, tick_threshold(now, config)) as int;
            let latest = now + nanos_of(config.delay_precision) / 2;
            &&& d <= tasks.len()
            &&& forall|i: int| 0 <= i < d ==> #[trigger] tasks[i].at <= latest
            &&& forall|i: int| d <= i < tasks.len() ==> #[trigger] tasks[i].at > latest
        }),
{
    crate::timer::lemma_due_prefix(tasks, tick_threshold(now, config));
}

} // verus!
