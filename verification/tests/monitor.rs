use std::time::Duration;
use uppercut::config::{ClientConfig, Config, RemoteConfig, SchedulerConfig, ServerConfig};
use uppercut::monitor::{log_entries, ActorStats, SchedulerMetrics};

#[test]
fn test_config_defaults() {
    let s = SchedulerConfig::default();
    assert_eq!(s.actor_throughput, 1);
    assert_eq!(s.default_mailbox_capacity, 16);
    assert!(s.logging_enabled);
    assert!(!s.metric_reporting_enabled);
    assert_eq!(s.metric_reporting_interval, Duration::from_secs(1));
    assert_eq!(s.delay_precision, Duration::from_millis(1));
    assert_eq!(s.actor_worker_threads, 4);
    assert_eq!(s.extra_worker_threads, 1);
    assert_eq!(s.total_threads_required(), 6);
    let t = SchedulerConfig::with_total_threads(2);
    assert_eq!(t.actor_worker_threads, 2);
    assert_eq!(t.total_threads_required(), 4);
    let r = RemoteConfig::default();
    assert!(!r.enabled);
    assert_eq!(r.listening, "");
    let srv = ServerConfig::default();
    assert_eq!((srv.events_capacity, srv.recv_buffer_size, srv.send_buffer_size), (1024, 1024, 1024));
    let cli = ClientConfig::default();
    assert_eq!((cli.events_capacity, cli.recv_buffer_size, cli.send_buffer_size), (1024, 1024, 1024));
    let c = Config::default();
    assert_eq!(c.scheduler.actor_worker_threads, 4);
    let l = RemoteConfig::listening_at("0.0.0.0:9000", srv, cli);
    assert!(l.enabled);
    assert_eq!(l.listening, "0.0.0.0:9000");
}

#[test]
fn test_actor_stats() {
    let mut s = ActorStats::new("a".to_string());
    assert_eq!(s.summary(), (0, 0));
    s.record_elapsed(10);
    s.record_elapsed(4);
    s.record_elapsed(7);
    assert_eq!((s.count, s.elapsed_sum_us, s.elapsed_min_us, s.elapsed_max_us), (3, 21, 4, 10));
    assert_eq!(s.summary(), (4, 7));
    assert!(s.room_for(u64::MAX - 21));
    assert!(!s.room_for(u64::MAX - 20));
    s.mailbox_depth_max = 3;
    s.reset();
    assert_eq!(s.tag, "a");
    assert_eq!((s.count, s.elapsed_sum_us, s.elapsed_min_us, s.elapsed_max_us, s.mailbox_depth_max), (0, 0, u64::MAX, 0, 0));
}

#[test]
fn test_scheduler_metrics_named_and_reset() {
    let mut m = SchedulerMetrics::named("sys".to_string());
    assert_eq!(m.name, "sys");
    assert_eq!(m.hit, 0);
    m.hit = 5;
    m.drops = 2;
    m.actors = 9;
    m.at = 17;
    m.reset();
    assert_eq!(m.name, "sys");
    assert_eq!((m.hit, m.drops, m.actors, m.at), (0, 0, 0, 0));
}

#[test]
fn test_log_entries_flatten_in_order() {
    let logs = vec![
        ("a".to_string(), vec![(1u64, "one".to_string()), (2, "two".to_string())]),
        ("b".to_string(), vec![]),
        ("c".to_string(), vec![(3u64, "three".to_string())]),
    ];
    let entries = log_entries("app", "host", logs);
    let flat: Vec<(u64, &str, &str, &str, &str)> = entries
        .iter()
        .map(|e| (e.at, e.meta.host.as_str(), e.meta.app.as_str(), e.meta.tag.as_str(), e.log.as_str()))
        .collect();
    assert_eq!(
        flat,
        vec![
            (1, "host", "app", "a", "one"),
            (2, "host", "app", "a", "two"),
            (3, "host", "app", "c", "three")
        ]
    );
}
