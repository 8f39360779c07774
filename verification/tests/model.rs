use platform_metrics::model::label_keys;
use platform_metrics::model::timestamp::{MAX_UNIX_SECS, MIN_UNIX_SECS};
use platform_metrics::model::{
    KeyedMap, MetricLabels, MetricSemantics, MetricUnit, MetricValue, MetricsCore, Platform,
    PlatformMetric, ResourceId, ResourceKind, Timestamp,
};

fn ts(secs: i64) -> Timestamp {
    Timestamp::from_unix(secs, 0).unwrap()
}

#[test]
fn resource_id_new_keeps_fields() {
    let r = ResourceId::new(Platform::Kubernetes, ResourceKind::Workload, "pod/nsA/pod-123");
    assert_eq!(r.platform, Platform::Kubernetes);
    assert_eq!(r.kind, ResourceKind::Workload);
    assert_eq!(r.key, "pod/nsA/pod-123");
}

#[test]
fn resource_id_same_as_compares_every_part() {
    let a = ResourceId::new(Platform::Docker, ResourceKind::Container, "container/redis");
    let b = ResourceId::new(Platform::Docker, ResourceKind::Container, "container/redis");
    let c = ResourceId::new(Platform::DockerCompose, ResourceKind::Container, "container/redis");
    let d = ResourceId::new(Platform::Docker, ResourceKind::Host, "container/redis");
    let e = ResourceId::new(Platform::Docker, ResourceKind::Container, "container/redis2");
    assert!(a.same_as(&b));
    assert!(!a.same_as(&c));
    assert!(!a.same_as(&d));
    assert!(!a.same_as(&e));
}

#[test]
fn labels_insert_get_and_override() {
    let mut l = MetricLabels::new();
    assert!(l.is_empty());
    l.insert(label_keys::TEAM, "payments");
    l.insert(label_keys::ZONE, "eu-west-1a");
    assert_eq!(l.get("team").map(|s| s.as_str()), Some("payments"));
    assert_eq!(l.get("zone").map(|s| s.as_str()), Some("eu-west-1a"));
    assert_eq!(l.get("owner"), None);
    l.insert("team", "billing");
    assert_eq!(l.get("team").map(|s| s.as_str()), Some("billing"));
    assert_eq!(l.as_map().len(), 2);
    assert!(!l.is_empty());
}

#[test]
fn labels_remove_gives_back_the_value() {
    let mut l = MetricLabels::new();
    l.insert("namespace", "nsA");
    assert_eq!(l.remove("namespace"), Some("nsA".to_string()));
    assert_eq!(l.remove("namespace"), None);
    assert_eq!(l.get("namespace"), None);
    assert!(l.is_empty());
}

#[test]
fn labels_entries_are_sorted_by_key() {
    let mut l = MetricLabels::new();
    l.insert("zone", "z");
    l.insert("app", "a");
    l.insert("cluster", "c");
    l.insert("Zeta", "upper");
    let keys: Vec<&str> = l.as_map().iter().map(|(k, _)| k.as_str()).collect();
    assert_eq!(keys, vec!["Zeta", "app", "cluster", "zone"]);
    let entries = l.into_map();
    assert_eq!(entries[1], ("app".to_string(), "a".to_string()));
}

#[test]
fn labels_with_same_contents_are_equal_whatever_the_insertion_order() {
    let mut a = MetricLabels::new();
    a.insert("x", "1");
    a.insert("y", "2");
    let mut b = MetricLabels::default();
    b.insert("y", "2");
    b.insert("x", "0");
    b.insert("x", "1");
    assert_eq!(a, b);
}

#[test]
fn labels_order_non_ascii_keys_by_bytes() {
    let mut l = MetricLabels::new();
    l.insert("é", "1");
    l.insert("z", "2");
    l.insert("ab", "3");
    l.insert("a", "4");
    let keys: Vec<&str> = l.as_map().iter().map(|(k, _)| k.as_str()).collect();
    let mut sorted = keys.clone();
    sorted.sort();
    assert_eq!(keys, sorted);
    assert_eq!(keys, vec!["a", "ab", "z", "é"]);
}

#[test]
fn keyed_map_insert_returns_previous_value_and_clone_copies() {
    let mut m: KeyedMap<u32> = KeyedMap::new();
    assert_eq!(m.insert("b".to_string(), 1), None);
    assert_eq!(m.insert("a".to_string(), 2), None);
    assert_eq!(m.insert("b".to_string(), 3), Some(1));
    assert_eq!(m.get("b"), Some(&3));
    let c = m.clone();
    assert_eq!(c, m);
    assert_eq!(c.entries().clone(), vec![("a".to_string(), 2), ("b".to_string(), 3)]);
    let mut d = c.clone();
    assert_eq!(d.remove("a"), Some(2));
    assert_eq!(d.into_entries(), vec![("b".to_string(), 3)]);
}

#[test]
fn metric_value_constructors_set_semantics() {
    let g = MetricValue::gauge(MetricUnit::Bytes, 42);
    assert_eq!(g.semantics, MetricSemantics::Gauge);
    assert_eq!(g.unit, MetricUnit::Bytes);
    assert_eq!(g.value, 42);
    let c = MetricValue::counter(MetricUnit::NanoSeconds, -7);
    assert_eq!(c.semantics, MetricSemantics::Counter);
    assert_eq!(c.unit, MetricUnit::NanoSeconds);
    assert_eq!(c.value, -7);
}

#[test]
fn metrics_core_default_is_blank() {
    let m = MetricsCore::default();
    assert_eq!(m.cpu_usage_core_nano_seconds, None);
    assert_eq!(m.memory_limit_bytes, None);
    assert!(m.extras.is_empty());
}

#[test]
fn platform_metric_builders() {
    let r = ResourceId::new(Platform::Vm, ResourceKind::Host, "node/ip-10-0-0-1");
    let m = PlatformMetric::new(ts(1_700_000_000), r.clone())
        .with_label("region", "eu")
        .with_extra("gpu_utilization", MetricValue::gauge(MetricUnit::Count, 77));
    assert_eq!(m.timestamp, ts(1_700_000_000));
    assert_eq!(m.resource, r);
    assert_eq!(m.labels.get("region").map(|s| s.as_str()), Some("eu"));
    assert_eq!(
        m.metrics.extras.get("gpu_utilization"),
        Some(&MetricValue::gauge(MetricUnit::Count, 77))
    );
    assert_eq!(m.metrics.cpu_usage_millicores, None);
}

#[test]
fn timestamp_range_is_chronos_range() {
    assert_eq!(chrono::DateTime::<chrono::Utc>::MIN_UTC.timestamp(), MIN_UNIX_SECS);
    assert_eq!(chrono::DateTime::<chrono::Utc>::MAX_UTC.timestamp(), MAX_UNIX_SECS);
}

#[test]
fn timestamp_from_unix_accepts_what_chrono_accepts() {
    let cases: Vec<(i64, u32, bool)> = vec![
        (0, 0, true),
        (59, 1_500_000_000, true),
        (-1, 1_999_999_999, true),
        (58, 1_500_000_000, false),
        (1, 999_999_999, true),
        (59, 2_000_000_000, false),
        (-1, 0, true),
        (MIN_UNIX_SECS, 0, true),
        (MIN_UNIX_SECS - 1, 999_999_999, false),
        (MAX_UNIX_SECS, 999_999_999, true),
        (MAX_UNIX_SECS + 1, 0, false),
        (i64::MIN, 0, false),
        (i64::MAX, 0, false),
    ];
    for (secs, nanos, expected) in cases {
        let ours = Timestamp::from_unix(secs, nanos);
        let theirs = chrono::DateTime::from_timestamp(secs, nanos);
        assert_eq!(ours.is_some(), expected, "secs {} nanos {}", secs, nanos);
        assert_eq!(theirs.is_some(), expected, "secs {} nanos {}", secs, nanos);
        if let (Some(t), Some(d)) = (ours, theirs) {
            assert_eq!(t.secs(), d.timestamp());
            assert_eq!(t.subsec_nanos(), d.timestamp_subsec_nanos());
        }
    }
}

#[test]
fn timestamps_order_by_seconds_then_nanoseconds() {
    let a = Timestamp::from_unix(10, 5).unwrap();
    let b = Timestamp::from_unix(10, 6).unwrap();
    let c = Timestamp::from_unix(11, 0).unwrap();
    assert!(a.is_at_or_before(&a));
    assert!(a.is_at_or_before(&b));
    assert!(!b.is_at_or_before(&a));
    assert!(b.is_at_or_before(&c));
    assert!(!c.is_at_or_before(&a));
    assert!(a < b && b < c);
}
