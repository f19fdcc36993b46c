use std::collections::hash_map::DefaultHasher;
use std::hash::{Hash, Hasher};
use uppercut::api::Envelope;
use uppercut::config::{Config, RemoteConfig, SchedulerConfig, ServerConfig, ClientConfig};
use uppercut::error::Error;
use uppercut::monitor::SchedulerMetrics;
use uppercut::runtime::{
    adapt_timeout, adjust_remote_address, worker_for, Action, Entry, Event, Scheduler, Step,
    System, CLIENT, SERVER,
};

type S = Scheduler<u32, &'static str>;
type A = Action<u32, &'static str, &'static str>;

fn fresh() -> (S, SchedulerMetrics) {
    let config = SchedulerConfig::default();
    (Scheduler::with_config(&config), SchedulerMetrics::named("test".to_string()))
}

fn handle(s: &mut S, m: &mut SchedulerMetrics, a: A) -> Step<u32, &'static str, &'static str> {
    assert!(s.can_handle(&a, m));
    s.handle(a, m)
}

fn mail(tag: &str, msg: &'static str) -> A {
    Action::Queue { tag: tag.to_string(), envelope: Envelope::of(msg) }
}

fn ret(tag: &str, actor: u32, ok: bool) -> A {
    Action::Return { tag: tag.to_string(), actor, ok, elapsed_us: 5 }
}

fn expect_mail(step: Step<u32, &'static str, &'static str>) -> (String, u32, &'static str) {
    match step {
        Step::Dispatch { event: Event::Mail { tag, actor, envelope } } => (tag, actor, envelope.message),
        _ => panic!("expected a mail event"),
    }
}

fn expect_stop(step: Step<u32, &'static str, &'static str>) -> (String, u32) {
    match step {
        Step::Dispatch { event: Event::Stop { tag, actor } } => (tag, actor),
        _ => panic!("expected a stop event"),
    }
}

fn is_idle(step: &Step<u32, &'static str, &'static str>) -> bool {
    matches!(step, Step::Idle)
}

#[test]
fn test_spawn_then_send_dispatches_at_once() {
    let (mut s, mut m) = fresh();
    assert!(is_idle(&handle(&mut s, &mut m, Action::Spawn { tag: "a".to_string(), actor: 7 })));
    assert_eq!(s.len(), 1);
    let (tag, actor, msg) = expect_mail(handle(&mut s, &mut m, mail("a", "hello")));
    assert_eq!((tag.as_str(), actor, msg), ("a", 7, "hello"));
    assert_eq!(m.spawns, 1);
    assert_eq!(m.queues, 1);
    assert_eq!(m.messages, 1);
    assert_eq!(m.hit, 2);
}

#[test]
fn test_busy_actor_gets_envelopes_in_order() {
    let (mut s, mut m) = fresh();
    handle(&mut s, &mut m, Action::Spawn { tag: "a".to_string(), actor: 1 });
    let (_, actor, _) = expect_mail(handle(&mut s, &mut m, mail("a", "m0")));
    assert!(is_idle(&handle(&mut s, &mut m, mail("a", "m1"))));
    assert!(is_idle(&handle(&mut s, &mut m, mail("a", "m2"))));
    let (_, actor, msg) = expect_mail(handle(&mut s, &mut m, ret("a", actor, true)));
    assert_eq!(msg, "m1");
    let (_, actor, msg) = expect_mail(handle(&mut s, &mut m, ret("a", actor, true)));
    assert_eq!(msg, "m2");
    assert!(is_idle(&handle(&mut s, &mut m, ret("a", actor, true))));
    // idle again: the next envelope goes out directly
    let (_, actor, msg) = expect_mail(handle(&mut s, &mut m, mail("a", "m3")));
    assert_eq!((actor, msg), (1, "m3"));
    assert_eq!(m.returns, 3);
}

#[test]
fn test_send_to_unknown_address_is_dropped() {
    let (mut s, mut m) = fresh();
    assert!(is_idle(&handle(&mut s, &mut m, mail("nobody", "x"))));
    assert_eq!(m.drops, 1);
    assert_eq!(m.hit, 1);
    assert!(s.is_empty());
}

#[test]
fn test_spawn_at_taken_address_is_dropped() {
    let (mut s, mut m) = fresh();
    handle(&mut s, &mut m, Action::Spawn { tag: "a".to_string(), actor: 1 });
    handle(&mut s, &mut m, Action::Spawn { tag: "a".to_string(), actor: 2 });
    assert_eq!(m.spawns, 1);
    assert_eq!(m.drops, 1);
    let (_, actor, _) = expect_mail(handle(&mut s, &mut m, mail("a", "x")));
    assert_eq!(actor, 1);
}

#[test]
fn test_stop_idle_actor_hands_it_back() {
    let (mut s, mut m) = fresh();
    handle(&mut s, &mut m, Action::Spawn { tag: "a".to_string(), actor: 9 });
    let (tag, actor) = expect_stop(handle(&mut s, &mut m, Action::Stop { tag: "a".to_string() }));
    assert_eq!((tag.as_str(), actor), ("a", 9));
    assert_eq!(m.stops, 1);
    assert!(is_idle(&handle(&mut s, &mut m, mail("a", "late"))));
    assert_eq!(m.drops, 1);
    assert!(is_idle(&handle(&mut s, &mut m, Action::Stop { tag: "a".to_string() })));
    assert_eq!(m.drops, 2);
}

#[test]
fn test_stop_busy_actor_then_return_stops_it() {
    let (mut s, mut m) = fresh();
    handle(&mut s, &mut m, Action::Spawn { tag: "a".to_string(), actor: 3 });
    let (_, actor, _) = expect_mail(handle(&mut s, &mut m, mail("a", "work")));
    assert!(is_idle(&handle(&mut s, &mut m, Action::Stop { tag: "a".to_string() })));
    let (tag, actor) = expect_stop(handle(&mut s, &mut m, ret("a", actor, true)));
    assert_eq!((tag.as_str(), actor), ("a", 3));
    // a failed return of a stopped actor is dropped silently
    assert!(is_idle(&handle(&mut s, &mut m, ret("a", 3, false))));
}

#[test]
fn test_failed_actor_is_removed() {
    let (mut s, mut m) = fresh();
    handle(&mut s, &mut m, Action::Spawn { tag: "a".to_string(), actor: 4 });
    let (_, actor, _) = expect_mail(handle(&mut s, &mut m, mail("a", "boom")));
    assert!(is_idle(&handle(&mut s, &mut m, mail("a", "pending"))));
    assert!(is_idle(&handle(&mut s, &mut m, ret("a", actor, false))));
    assert_eq!(m.failures, 1);
    assert!(s.is_empty());
    assert!(is_idle(&handle(&mut s, &mut m, mail("a", "after"))));
    assert_eq!(m.drops, 1);
}

#[test]
fn test_report_and_shutdown_pass_through() {
    let (mut s, mut m) = fresh();
    match handle(&mut s, &mut m, Action::Report { report: "logs" }) {
        Step::Report { report } => assert_eq!(report, "logs"),
        _ => panic!("expected a report"),
    }
    assert!(matches!(handle(&mut s, &mut m, Action::Shutdown), Step::Shutdown));
    assert_eq!(m.hit, 2);
}

#[test]
fn test_delayed_envelopes_fire_in_time_order() {
    let (mut s, mut m) = fresh();
    handle(&mut s, &mut m, Action::Spawn { tag: "a".to_string(), actor: 1 });
    let delay = |at: u64, msg: &'static str| Action::Delay {
        entry: Entry { at, tag: "a".to_string(), envelope: Envelope::of(msg) },
    };
    handle(&mut s, &mut m, delay(3_000_000, "late"));
    handle(&mut s, &mut m, delay(1_000_000, "early"));
    handle(&mut s, &mut m, delay(1_000_000, "early-too"));
    assert_eq!(m.delays, 3);
    // default precision is 1ms: a tick at `now` delivers what is due by now + 0.5ms
    assert_eq!(s.next_wait(0, 256), 1_000_000);
    let due = s.tick(400_000, &mut m);
    assert!(due.is_empty());
    let due = s.tick(500_000, &mut m);
    let msgs: Vec<&str> = due.iter().map(|e| e.envelope.message).collect();
    assert_eq!(msgs, vec!["early", "early-too"]);
    assert_eq!(s.next_wait(500_000, 256), 2_500_000);
    assert_eq!(s.next_wait(500_000, 1), 1_000_000);
    let due = s.tick(10_000_000, &mut m);
    assert_eq!(due.len(), 1);
    assert_eq!(due[0].envelope.message, "late");
    assert_eq!(m.ticks, 3);
    assert_eq!(s.next_wait(0, 2), 2_000_000);
}

#[test]
fn test_actor_stats_snapshot_and_reset() {
    let (mut s, mut m) = fresh();
    handle(&mut s, &mut m, Action::Spawn { tag: "a".to_string(), actor: 1 });
    let (_, actor, _) = expect_mail(handle(&mut s, &mut m, mail("a", "x")));
    handle(&mut s, &mut m, mail("a", "y"));
    handle(&mut s, &mut m, mail("a", "z"));
    let (_, actor, _) = expect_mail(handle(&mut s, &mut m, ret("a", actor, true)));
    let _ = handle(&mut s, &mut m, Action::Return { tag: "a".to_string(), actor, ok: true, elapsed_us: 11 });
    let stats = s.snapshot_stats();
    assert_eq!(stats.len(), 1);
    assert_eq!(stats[0].tag, "a");
    assert_eq!(stats[0].count, 2);
    assert_eq!(stats[0].elapsed_sum_us, 16);
    assert_eq!(stats[0].elapsed_min_us, 5);
    assert_eq!(stats[0].elapsed_max_us, 11);
    assert_eq!(stats[0].mailbox_depth_max, 2);
    assert_eq!(stats[0].summary(), (5, 8));
    let again = s.snapshot_stats();
    assert_eq!(again[0].count, 0);
    assert_eq!(again[0].summary(), (0, 0));
}

#[test]
fn test_adapt_timeout_stays_between_bounds() {
    let mut m = SchedulerMetrics::default();
    assert_eq!(adapt_timeout(256, true, &mut m), 128);
    assert_eq!(adapt_timeout(1, true, &mut m), 1);
    assert_eq!(adapt_timeout(3, true, &mut m), 1);
    assert_eq!(m.miss, 0);
    assert_eq!(adapt_timeout(100, false, &mut m), 200);
    assert_eq!(adapt_timeout(200, false, &mut m), 256);
    assert_eq!(adapt_timeout(256, false, &mut m), 256);
    assert_eq!(m.miss, 3);
}

#[test]
fn test_adjust_remote_address() {
    let mut e = Envelope::of(1u8).from("me");
    assert_eq!(adjust_remote_address("local", &mut e), "local");
    assert_eq!(e.to, "");
    assert_eq!(adjust_remote_address("echo@127.0.0.1:20002", &mut e), CLIENT);
    assert_eq!(CLIENT, "$CLIENT");
    assert_eq!(SERVER, "$SERVER");
    assert_eq!(e.to, "echo@127.0.0.1:20002");
    assert_eq!(e.from, "me");
    let mut u = Envelope::of(2u8);
    assert_eq!(adjust_remote_address("é@x", &mut u), CLIENT);
    assert_eq!(adjust_remote_address("ééé", &mut u), "ééé");
}

#[test]
fn test_worker_for_is_stable_and_in_range() {
    for tag in ["a", "b", "some-actor", "$CLIENT"] {
        let w = worker_for(tag, 4);
        assert!(w < 4);
        assert_eq!(w, worker_for(tag, 4));
        let mut h = DefaultHasher::new();
        tag.hash(&mut h);
        assert_eq!(w, (h.finish() as usize) % 4);
    }
    assert_eq!(worker_for("x", 1), 0);
}

#[test]
fn test_system_checks_pool_size() {
    let config = Config::new(
        SchedulerConfig::with_total_threads(2),
        RemoteConfig::listening_at("127.0.0.1:10001", ServerConfig::default(), ClientConfig::default()),
    );
    let sys = System::new("A", "localhost", &config);
    assert_eq!(sys.name(), "A");
    assert_eq!(sys.host(), "localhost");
    assert_eq!(sys.config().remote.listening, "127.0.0.1:10001");
    assert!(sys.config().remote.enabled);
    assert!(sys.check_pool(4).is_ok());
    assert!(sys.check_pool(5).is_ok());
    match sys.check_pool(3) {
        Err(Error::ThreadPoolTooSmall { required, available }) => {
            assert_eq!((required, available), (4, 3));
        }
        _ => panic!("expected ThreadPoolTooSmall"),
    }
    let d = System::default();
    assert_eq!(d.name(), "");
    assert!(!d.config().remote.enabled);
}

#[test]
fn test_can_handle_checks_counters() {
    let (mut s, mut m) = fresh();
    m.drops = u64::MAX;
    assert!(!s.can_handle(&mail("nobody", "x"), &m));
    let spawn: A = Action::Spawn { tag: "a".to_string(), actor: 1 };
    assert!(s.can_handle(&spawn, &m));
    handle(&mut s, &mut m, Action::Spawn { tag: "a".to_string(), actor: 1 });
    assert!(s.can_handle(&mail("a", "x"), &m));
    m.hit = u64::MAX;
    assert!(!s.can_handle(&mail("a", "x"), &m));
    let shutdown: A = Action::Shutdown;
    assert!(!s.can_handle(&shutdown, &m));
}
