use vstd::prelude::*;

verus! {

/// Where a log line or a metric comes from.
#[derive(Debug)]
pub struct Meta {
    pub host: String,
    pub app: String,
    pub tag: String,
}

/// One log line written by an actor, with the time (milliseconds since the
/// Unix epoch) at which it was written.
#[derive(Debug)]
pub struct LoggerEntry {
    pub at: u64,
    pub meta: Meta,
    pub log: String,
}

impl View for LoggerEntry {
    /// When, on which host, by which system, from which actor, and what.
    type V = (u64, Seq<char>, Seq<char>, Seq<char>, Seq<char>);

    open spec fn view(&self) -> (u64, Seq<char>, Seq<char>, Seq<char>, Seq<char>) {
        (self.at, self.meta.host@, self.meta.app@, self.meta.tag@, self.log@)
    }
}

/// The log lines of one actor, as entries of the system `app` on `host`.
pub open spec fn actor_log_lines(app: Seq<char>, host: Seq<char>, tag: Seq<char>, lines: Seq<(u64, String)>) -> Seq<
    (u64, Seq<char>, Seq<char>, Seq<char>, Seq<char>),
> {
    lines.map_values(|l: (u64, String)| (l.0, host, app, tag, l.1@))
}

/// The log lines of all actors, actor after actor, each in the order written.
pub open spec fn log_lines(app: Seq<char>, host: Seq<char>, logs: Seq<(String, Vec<(u64, String)>)>) -> Seq<
    (u64, Seq<char>, Seq<char>, Seq<char>, Seq<char>),
>
    decreases logs.len(),
{
    if logs.len() == 0 {
        Seq::empty()
    } else {
        log_lines(app, host, logs.drop_last()) + actor_log_lines(app, host, logs.last().0@, logs.last().1@)
    }
}

/// Turns the collected log lines (each with its time in milliseconds since
/// the Unix epoch) into entries of the system `app` on `host`, ready to print.
pub fn log_entries(app: &str, host: &str, logs: Vec<(String, Vec<(u64, String)>)>) -> (r: Vec<LoggerEntry>)
    ensures
        r@.map_values(|e: LoggerEntry| e@) == log_lines(app@, host@, logs@),
{
    let mut r: Vec<LoggerEntry> = Vec::new();
    let mut i: usize = 0;
    while i < logs.len()
        invariant
            i <= logs@.len(),
            r@.map_values(|e: LoggerEntry| e@) == log_lines(app@, host@, logs@.take(i as int)),
        decreases logs@.len() - i,
    {
        let tag = &logs[i].0;
        let lines = &logs[i].1;
        let ghost before = r@.map_values(|e: LoggerEntry| e@);
        let mut j: usize = 0;
        while j < lines.len()
            invariant
                j <= lines@.len(),
                i < logs@.len(),
                *tag == logs@[i as int].0,
                *lines == logs@[i as int].1,
                r@.map_values(|e: LoggerEntry| e@) == before + actor_log_lines(app@, host@, tag@, lines@.take(j as int)),
            decreases lines@.len() - j,
        {
            let entry = LoggerEntry {
                at: lines[j].0,
                meta: Meta { host: host.to_owned(), app: app.to_owned(), tag: tag.clone() },
                log: lines[j].1.clone(),
            };
            let ghost ev = entry@;
            let ghost r0 = r@;
            assert(ev == (lines@[j as int].0, host@, app@, tag@, lines@[j as int].1@));
            r.push(entry);
            proof {
                assert(r@.map_values(|e: LoggerEntry| e@) =~= r0.map_values(|e: LoggerEntry| e@).push(ev));
                assert(lines@.take(j + 1) =~= lines@.take(j as int).push(lines@[j as int]));
                assert(r@.map_values(|e: LoggerEntry| e@) =~= before + actor_log_lines(app@, host@, tag@, lines@.take(j + 1)));
            }
            j = j + 1;
        }
        proof {
            assert(lines@.take(j as int) =~= lines@);
            assert(logs@.take(i + 1).drop_last() =~= logs@.take(i as int));
            assert(logs@.take(i + 1).last() == logs@[i as int]);
        }
        i = i + 1;
    }
    proof {
        assert(logs@.take(i as int) =~= logs@);
    }
    r
}

/// Every log line of an actor is reported, in the order written: one entry
/// per line, the i-th entry carrying the time and the text of the i-th line.
pub proof fn law_each_line_is_reported(app: Seq<char>, host: Seq<char>, tag: Seq<char>, lines: Seq<(u64, String)>)
    ensures
        actor_log_lines(app, host, tag, lines).len() == lines.len(),
        forall|i: int| 0 <= i < lines.len() ==> #[trigger] actor_log_lines(app, host, tag, lines)[i] == (
            lines[i].0,
            host,
            app,
            tag,
            lines[i].1@,
        ),
{
}

/// The lines of one more actor are reported after those of the actors
/// before it: one entry for each of its lines, in the order written.
pub proof fn law_next_actor_lines_follow(
    app: Seq<char>,
    host: Seq<char>,
    logs: Seq<(String, Vec<(u64, String)>)>,
    tag: String,
    lines: Vec<(u64, String)>,
)
    ensures
        ({
            let before = log_lines(app, host, logs);
            let after = log_lines(app, host, logs.push((tag, lines)));
            &&& after.len() == before.len() + lines@.len()
            &&& after.take(before.len() as int) == before
            &&& forall|i: int| 0 <= i < lines@.len() ==> #[trigger] after[before.len() + i] == (
                lines@[i].0,
                host,
                app,
                tag@,
                lines@[i].1@,
            )
        }),
{
    let before = log_lines(app, host, logs);
    let after = log_lines(app, host, logs.push((tag, lines)));
    assert(logs.push((tag, lines)).drop_last() =~= logs);
    assert(after.take(before.len() as int) =~= before);
}

/// Counters that the scheduler keeps between two reports.
#[derive(Debug, Clone)]
pub struct SchedulerMetrics {
    pub name: String,
    pub at: u64,
    pub ticks: u64,
    pub miss: u64,
    pub hit: u64,
    pub messages: u64,
    pub queues: u64,
    pub returns: u64,
    pub spawns: u64,
    pub delays: u64,
    pub stops: u64,
    pub drops: u64,
    pub failures: u64,
    pub actors: u64,
}

impl SchedulerMetrics {
    /// Every counter (and `at`) is zero.
    pub open spec fn is_zero(&self) -> bool {
        &&& self.at == 0
        &&& self.ticks == 0
        &&& self.miss == 0
        &&& self.hit == 0
        &&& self.messages == 0
        &&& self.queues == 0
        &&& self.returns == 0
        &&& self.spawns == 0
        &&& self.delays == 0
        &&& self.stops == 0
        &&& self.drops == 0
        &&& self.failures == 0
        &&& self.actors == 0
    }

    /// Fresh counters for the system called `name`.
    pub fn named(name: String) -> (m: Self)
        ensures
            m.name == name,
            m.is_zero(),
    {
        SchedulerMetrics {
            name,
            at: 0,
            ticks: 0,
            miss: 0,
            hit: 0,
            messages: 0,
            queues: 0,
            returns: 0,
            spawns: 0,
            delays: 0,
            stops: 0,
            drops: 0,
            failures: 0,
            actors: 0,
        }
    }

    /// Sets every counter back to zero; the name stays.
    pub fn reset(&mut self)
        ensures
            final(self).name == old(self).name,
            final(self).is_zero(),
    {
        self.at = 0;
        self.ticks = 0;
        self.miss = 0;
        self.hit = 0;
        self.messages = 0;
        self.queues = 0;
        self.returns = 0;
        self.spawns = 0;
        self.delays = 0;
        self.stops = 0;
        self.drops = 0;
        self.failures = 0;
        self.actors = 0;
    }
}

impl Default for SchedulerMetrics {
    fn default() -> (m: SchedulerMetrics)
        ensures
            m.name@ == Seq::<char>::empty(),
            m.is_zero(),
    {
        SchedulerMetrics::named(String::new())
    }
}

/// Timing statistics of one actor: how many envelopes it processed, and the
/// sum, least and greatest of their processing times in microseconds.
#[derive(Debug, Clone)]
pub struct ActorStats {
    pub tag: String,
    pub count: u64,
    pub elapsed_sum_us: u64,
    pub elapsed_min_us: u64,
    pub elapsed_max_us: u64,
    pub mailbox_depth_max: usize,
}

impl ActorStats {
    /// The statistics of an actor that has processed nothing yet.
    pub open spec fn is_fresh(&self) -> bool {
        &&& self.count == 0
        &&& self.elapsed_sum_us == 0
        &&& self.elapsed_min_us == u64::MAX
        &&& self.elapsed_max_us == 0
        &&& self.mailbox_depth_max == 0
    }

    /// One more sample of `elapsed_us` fits the counters.
    pub open spec fn can_record(&self, elapsed_us: u64) -> bool {
        &&& self.count < u64::MAX
        &&& self.elapsed_sum_us + elapsed_us <= u64::MAX
    }

    /// Empty statistics for the actor at `tag`.
    pub fn new(tag: String) -> (s: Self)
        ensures
            s.tag == tag,
            s.is_fresh(),
            stats_consistent(s),
    {
        ActorStats {
            tag,
            count: 0,
            elapsed_sum_us: 0,
            elapsed_min_us: u64::MAX,
            elapsed_max_us: 0,
            mailbox_depth_max: 0,
        }
    }

    /// A field-by-field copy.
    pub fn clone_stats(&self) -> (c: Self)
        ensures
            c == *self,
    {
        ActorStats {
            tag: self.tag.clone(),
            count: self.count,
            elapsed_sum_us: self.elapsed_sum_us,
            elapsed_min_us: self.elapsed_min_us,
            elapsed_max_us: self.elapsed_max_us,
            mailbox_depth_max: self.mailbox_depth_max,
        }
    }

    /// Whether one more sample of `elapsed_us` fits the counters.
    pub fn room_for(&self, elapsed_us: u64) -> (b: bool)
        ensures
            b == self.can_record(elapsed_us),
    {
        self.count < u64::MAX && elapsed_us <= u64::MAX - self.elapsed_sum_us
    }

    /// Counts one processed envelope that took `elapsed_us` microseconds.
    pub fn record_elapsed(&mut self, elapsed_us: u64)
        requires
            old(self).can_record(elapsed_us),
        ensures
            final(self).tag == old(self).tag,
            final(self).count == old(self).count + 1,
            final(self).elapsed_sum_us == old(self).elapsed_sum_us + elapsed_us,
            final(self).elapsed_min_us == if elapsed_us < old(self).elapsed_min_us {
                elapsed_us
            } else {
                old(self).elapsed_min_us
            },
            final(self).elapsed_max_us == if elapsed_us > old(self).elapsed_max_us {
                elapsed_us
            } else {
                old(self).elapsed_max_us
            },
            final(self).mailbox_depth_max == old(self).mailbox_depth_max,
            stats_consistent(*old(self)) ==> stats_consistent(*final(self)),
    {
        self.count += 1;
        self.elapsed_sum_us += elapsed_us;
        if elapsed_us < self.elapsed_min_us {
            self.elapsed_min_us = elapsed_us;
        }
        if elapsed_us > self.elapsed_max_us {
            self.elapsed_max_us = elapsed_us;
        }
    }

    /// Forgets every sample; the tag stays.
    pub fn reset(&mut self)
        ensures
            final(self).tag == old(self).tag,
            final(self).is_fresh(),
            stats_consistent(*final(self)),
    {
        self.count = 0;
        self.elapsed_sum_us = 0;
        self.elapsed_min_us = u64::MAX;
        self.elapsed_max_us = 0;
        self.mailbox_depth_max = 0;
    }

    /// The least and the average processing time as reported: the least is 0
    /// while nothing was recorded, the average is the integer mean (0 while
    /// nothing was recorded).
    pub fn summary(&self) -> (r: (u64, u64))
        ensures
            r.0 == if self.elapsed_min_us == u64::MAX { 0 } else { self.elapsed_min_us },
            r.1 == if self.count > 0 { self.elapsed_sum_us / self.count } else { 0 },
    {
        let avg_us = if self.count > 0 { self.elapsed_sum_us / self.count } else { 0 };
        let min_us = if self.elapsed_min_us == u64::MAX { 0 } else { self.elapsed_min_us };
        (min_us, avg_us)
    }
}

/// Between two resets the recorded samples stay ordered: once at least one
/// sample is recorded, the least is at most the greatest, and the sum is at
/// least the greatest.
pub open spec fn stats_consistent(s: ActorStats) -> bool {
    &&& s.count > 0 ==> s.elapsed_min_us <= s.elapsed_max_us
    &&& s.elapsed_max_us <= s.elapsed_sum_us
    &&& s.count == 0 ==> s.elapsed_sum_us == 0 && s.elapsed_max_us == 0 && s.elapsed_min_us
        == u64::MAX
}

} // verus!
