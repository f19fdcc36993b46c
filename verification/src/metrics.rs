use vstd::prelude::*;

verus! {

/// A plain snapshot of scheduler counters.
#[derive(Default, Copy, Clone, Debug)]
pub struct SchedulerMetrics {
    pub at: u64,
    pub millis: u64,
    pub miss: u64,
    pub hit: u64,
    pub tick: u64,
    pub messages: u64,
    pub queues: u64,
    pub returns: u64,
    pub spawns: u64,
    pub delays: u64,
}

} // verus!
