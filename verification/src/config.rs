use vstd::prelude::*;
use std::time::Duration;
use crate::time::{nanos_of, duration_from_secs, duration_from_millis};

verus! {

/// Settings of a whole actor system: its scheduler and its remote endpoint.
#[derive(Clone)]
pub struct Config {
    pub scheduler: SchedulerConfig,
    pub remote: RemoteConfig,
}

impl Config {
    /// Puts the two parts together.
    pub fn new(scheduler: SchedulerConfig, remote: RemoteConfig) -> (c: Config)
        ensures
            c.scheduler == scheduler,
            c.remote == remote,
    {
        Config { scheduler, remote }
    }
}

impl Default for Config {
    fn default() -> (c: Config)
        ensures
            c.scheduler.is_default(),
            c.remote.is_default(),
    {
        Config { scheduler: SchedulerConfig::default(), remote: RemoteConfig::default() }
    }
}

/// Buffer and event-queue sizes of the TCP server.
#[derive(Debug, Clone, Copy)]
pub struct ServerConfig {
    pub events_capacity: usize,
    pub recv_buffer_size: usize,
    pub send_buffer_size: usize,
}

impl Default for ServerConfig {
    fn default() -> (c: ServerConfig)
        ensures
            c.events_capacity == 1024,
            c.recv_buffer_size == 1024,
            c.send_buffer_size == 1024,
    {
        ServerConfig { events_capacity: 1024, recv_buffer_size: 1024, send_buffer_size: 1024 }
    }
}

/// Buffer and event-queue sizes of the TCP client.
#[derive(Debug, Clone, Copy)]
pub struct ClientConfig {
    pub events_capacity: usize,
    pub recv_buffer_size: usize,
    pub send_buffer_size: usize,
}

impl Default for ClientConfig {
    fn default() -> (c: ClientConfig)
        ensures
            c.events_capacity == 1024,
            c.recv_buffer_size == 1024,
            c.send_buffer_size == 1024,
    {
        ClientConfig { events_capacity: 1024, recv_buffer_size: 1024, send_buffer_size: 1024 }
    }
}

/// Whether and where the system listens for remote actors.
#[derive(Clone)]
pub struct RemoteConfig {
    pub enabled: bool,
    pub listening: String,
    pub server: ServerConfig,
    pub client: ClientConfig,
}

impl RemoteConfig {
    /// The settings a default `RemoteConfig` has: disabled, listening nowhere.
    pub open spec fn is_default(&self) -> bool {
        &&& !self.enabled
        &&& self.listening@ == Seq::<char>::empty()
        &&& self.server.events_capacity == 1024
        &&& self.server.recv_buffer_size == 1024
        &&& self.server.send_buffer_size == 1024
        &&& self.client.events_capacity == 1024
        &&& self.client.recv_buffer_size == 1024
        &&& self.client.send_buffer_size == 1024
    }

    /// Remote actors enabled, with the server listening at `listening`.
    pub fn listening_at(listening: &str, server: ServerConfig, client: ClientConfig) -> (c: Self)
        ensures
            c.enabled,
            c.listening@ == listening@,
            c.server == server,
            c.client == client,
    {
        RemoteConfig { enabled: true, listening: listening.to_owned(), server, client }
    }
}

impl Default for RemoteConfig {
    fn default() -> (c: RemoteConfig)
        ensures
            c.is_default(),
    {
        RemoteConfig {
            enabled: false,
            listening: String::new(),
            server: ServerConfig::default(),
            client: ClientConfig::default(),
        }
    }
}

/// Settings of the scheduler thread and of its worker threads.
#[derive(Clone, Copy)]
pub struct SchedulerConfig {
    /// Maximum number of envelopes an actor can process at single scheduled execution.
    pub actor_throughput: usize,
    pub default_mailbox_capacity: usize,
    pub logging_enabled: bool,
    pub metric_reporting_enabled: bool,
    pub metric_reporting_interval: Duration,
    pub delay_precision: Duration,
    pub actor_worker_threads: usize,
    pub extra_worker_threads: usize,
    /// Stop the scheduler as soon as no actor is alive.
    pub eager_shutdown_enabled: bool,
}

impl SchedulerConfig {
    /// Everything but the number of actor worker threads as in the default.
    pub open spec fn is_default_but_threads(&self) -> bool {
        &&& self.actor_throughput == 1
        &&& self.default_mailbox_capacity == 16
        &&& self.logging_enabled
        &&& !self.metric_reporting_enabled
        &&& nanos_of(self.metric_reporting_interval) == 1_000_000_000
        &&& nanos_of(self.delay_precision) == 1_000_000
        &&& self.extra_worker_threads == 1
        &&& !self.eager_shutdown_enabled
    }

    /// The default settings.
    pub open spec fn is_default(&self) -> bool {
        &&& self.is_default_but_threads()
        &&& self.actor_worker_threads == 4
    }

    /// The default settings with `total_threads` actor worker threads.
    pub fn with_total_threads(total_threads: usize) -> (c: Self)
        ensures
            c.is_default_but_threads(),
            c.actor_worker_threads == total_threads,
    {
        let mut config = SchedulerConfig::default();
        config.actor_worker_threads = total_threads;
        config
    }

    /// Threads a pool needs to run a system: the actor workers, the extra
    /// workers and the scheduler itself.
    pub open spec fn threads_required(&self) -> int {
        self.actor_worker_threads + self.extra_worker_threads + 1
    }

    /// The number of pool threads needed to run a system with these settings.
    pub fn total_threads_required(&self) -> (n: usize)
        requires
            self.threads_required() <= usize::MAX,
        ensures
            n == self.threads_required(),
            n == self.actor_worker_threads + self.extra_worker_threads + 1,
    {
        self.actor_worker_threads + self.extra_worker_threads + 1
    }
}

impl Default for SchedulerConfig {
    fn default() -> (c: SchedulerConfig)
        ensures
            c.is_default(),
    {
        SchedulerConfig {
            actor_throughput: 1,
            default_mailbox_capacity: 16,
            logging_enabled: true,
            metric_reporting_enabled: false,
            metric_reporting_interval: duration_from_secs(1),
            delay_precision: duration_from_millis(1),
            actor_worker_threads: 4,
            extra_worker_threads: 1,
            eager_shutdown_enabled: false,
        }
    }
}

/// A pool runs a system only with a thread for each actor worker, one for
/// each extra worker, and one more for the scheduler, whatever the counts.
pub proof fn law_pool_holds_every_worker_and_the_scheduler(c: SchedulerConfig)
    ensures
        c.threads_required() == c.actor_worker_threads + c.extra_worker_threads + 1,
        c.threads_required() > c.actor_worker_threads + c.extra_worker_threads,
        c.threads_required() >= 1,
{
}

} // verus!
