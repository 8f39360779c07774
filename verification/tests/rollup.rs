use platform_metrics::model::{
    MetricUnit, MetricValue, MetricsCore, Platform, PlatformMetric, ResourceId, ResourceKind,
    Timestamp,
};
use platform_metrics::policy::core_policy;
use platform_metrics::policy::{
    AggregationPolicy, CounterResetPolicy, FieldSemantics, FieldSpec, Resolution, RollupFn,
    RollupWindow,
};
use platform_metrics::rollup::engine::{get_core_u64, rollup, set_core_u64, RollupError};

const HOUR0: i64 = 1_700_002_800; // 2023-11-14 23:00:00 UTC, an hour boundary

fn ts(secs: i64) -> Timestamp {
    Timestamp::from_unix(secs, 0).unwrap()
}

fn res(key: &str) -> ResourceId {
    ResourceId::new(Platform::Kubernetes, ResourceKind::Container, key)
}

fn sample(key: &str, secs: i64) -> PlatformMetric {
    PlatformMetric::new(ts(secs), res(key))
}

fn with_mem(mut m: PlatformMetric, v: u64) -> PlatformMetric {
    m.metrics.memory_working_set_bytes = Some(v);
    m
}

fn with_cpu(mut m: PlatformMetric, v: u64) -> PlatformMetric {
    m.metrics.cpu_usage_core_nano_seconds = Some(v);
    m
}

fn leak(specs: Vec<FieldSpec>) -> AggregationPolicy {
    AggregationPolicy::new(Box::leak(specs.into_boxed_slice()))
}

fn gauge(rollup: RollupFn) -> AggregationPolicy {
    leak(vec![FieldSpec::gauge("memory_working_set_bytes", rollup)])
}

fn counter(reset: CounterResetPolicy) -> AggregationPolicy {
    leak(vec![FieldSpec::counter_delta("cpu_usage_core_nano_seconds", reset)])
}

fn hourly() -> RollupWindow {
    RollupWindow::new(Resolution::Minute, Resolution::Hour)
}

fn mem_values(values: &[u64]) -> Vec<PlatformMetric> {
    values
        .iter()
        .enumerate()
        .map(|(i, v)| with_mem(sample("c/app", HOUR0 + 60 * i as i64), *v))
        .collect()
}

#[test]
fn invalid_window_is_refused() {
    let w = RollupWindow::new(Resolution::Hour, Resolution::Minute);
    match rollup(vec![], w, &core_policy::canonical()) {
        Err(RollupError::InvalidWindow(m)) => assert_eq!(m, "unsupported rollup direction"),
        other => panic!("unexpected {:?}", other),
    }
    let w = RollupWindow::new(Resolution::Day, Resolution::Day);
    match rollup(vec![sample("a", HOUR0)], w, &core_policy::canonical()) {
        Err(RollupError::InvalidWindow(m)) => {
            assert_eq!(m, "source and target resolutions are the same")
        },
        other => panic!("unexpected {:?}", other),
    }
}

#[test]
fn unknown_field_is_refused_once_there_is_a_sample() {
    let p = leak(vec![
        FieldSpec::gauge("memory_working_set_bytes", RollupFn::Avg),
        FieldSpec::gauge("gpu_utilization", RollupFn::Avg),
        FieldSpec::gauge("also_unknown", RollupFn::Avg),
    ]);
    match rollup(vec![with_mem(sample("a", HOUR0), 1)], hourly(), &p) {
        Err(RollupError::UnknownField(f)) => assert_eq!(f, "gpu_utilization"),
        other => panic!("unexpected {:?}", other),
    }
    let out = rollup(vec![], hourly(), &p).unwrap();
    assert!(out.is_empty());
}

#[test]
fn no_samples_give_no_records() {
    let out = rollup(vec![], hourly(), &core_policy::canonical()).unwrap();
    assert!(out.is_empty());
}

#[test]
fn gauge_avg_rounds_down() {
    let out = rollup(mem_values(&[10, 20, 31]), hourly(), &gauge(RollupFn::Avg)).unwrap();
    assert_eq!(out.len(), 1);
    assert_eq!(out[0].timestamp, ts(HOUR0));
    assert_eq!(out[0].metrics.memory_working_set_bytes, Some(20));
}

#[test]
fn gauge_max_min_sum_last() {
    let v = [5, 9, 2, 7];
    let get = |f: RollupFn| {
        rollup(mem_values(&v), hourly(), &gauge(f)).unwrap()[0].metrics.memory_working_set_bytes
    };
    assert_eq!(get(RollupFn::Max), Some(9));
    assert_eq!(get(RollupFn::Min), Some(2));
    assert_eq!(get(RollupFn::Sum), Some(23));
    assert_eq!(get(RollupFn::Last), Some(7));
    // a gauge with the delta rollup falls back to its last value
    assert_eq!(get(RollupFn::Delta), Some(7));
}

#[test]
fn gauge_sum_is_capped_at_u64_max() {
    let out = rollup(mem_values(&[u64::MAX, u64::MAX, 3]), hourly(), &gauge(RollupFn::Sum)).unwrap();
    assert_eq!(out[0].metrics.memory_working_set_bytes, Some(u64::MAX));
    let out = rollup(mem_values(&[u64::MAX, u64::MAX - 1]), hourly(), &gauge(RollupFn::Avg)).unwrap();
    assert_eq!(out[0].metrics.memory_working_set_bytes, Some(u64::MAX - 1));
}

#[test]
fn counter_delta_is_last_minus_first() {
    let samples = vec![
        with_cpu(sample("a", HOUR0 + 10), 100),
        with_cpu(sample("a", HOUR0 + 70), 150),
        with_cpu(sample("a", HOUR0 + 130), 400),
    ];
    let out = rollup(samples, hourly(), &counter(CounterResetPolicy::ClampToZero)).unwrap();
    assert_eq!(out[0].metrics.cpu_usage_core_nano_seconds, Some(300));
}

#[test]
fn counter_reset_is_clamped_or_uses_last() {
    let samples = || {
        vec![
            with_cpu(sample("a", HOUR0), 1_000),
            with_cpu(sample("a", HOUR0 + 60), 5_000),
            with_cpu(sample("a", HOUR0 + 120), 40),
        ]
    };
    let out = rollup(samples(), hourly(), &counter(CounterResetPolicy::ClampToZero)).unwrap();
    assert_eq!(out[0].metrics.cpu_usage_core_nano_seconds, Some(0));
    let out = rollup(samples(), hourly(), &counter(CounterResetPolicy::UseLastAsDelta)).unwrap();
    assert_eq!(out[0].metrics.cpu_usage_core_nano_seconds, Some(40));
}

#[test]
fn single_counter_sample_has_zero_delta() {
    let out = rollup(vec![with_cpu(sample("a", HOUR0), 77)], hourly(), &counter(CounterResetPolicy::ClampToZero)).unwrap();
    assert_eq!(out[0].metrics.cpu_usage_core_nano_seconds, Some(0));
}

#[test]
fn one_record_per_resource_and_bucket_sorted_by_key_then_time() {
    let samples = vec![
        with_mem(sample("b", HOUR0 + 3_600 + 5), 1),
        with_mem(sample("a", HOUR0 + 3_600 + 5), 2),
        with_mem(sample("b", HOUR0 + 10), 3),
        with_mem(sample("a", HOUR0 + 20), 4),
        with_mem(sample("b", HOUR0 + 3_500), 5),
        with_mem(sample("a", HOUR0 + 7_300), 6),
    ];
    let out = rollup(samples, hourly(), &gauge(RollupFn::Sum)).unwrap();
    let got: Vec<(String, i64, Option<u64>)> = out
        .iter()
        .map(|m| (m.resource.key.clone(), m.timestamp.secs(), m.metrics.memory_working_set_bytes))
        .collect();
    assert_eq!(
        got,
        vec![
            ("a".to_string(), HOUR0, Some(4)),
            ("a".to_string(), HOUR0 + 3_600, Some(2)),
            ("a".to_string(), HOUR0 + 7_200, Some(6)),
            ("b".to_string(), HOUR0, Some(8)),
            ("b".to_string(), HOUR0 + 3_600, Some(1)),
        ]
    );
    for m in &out {
        assert_eq!(m.timestamp.subsec_nanos(), 0);
        assert_eq!(m.timestamp.secs() % 3_600, 0);
    }
}

#[test]
fn same_key_on_different_platforms_are_different_buckets() {
    let a = PlatformMetric::new(ts(HOUR0), ResourceId::new(Platform::Nomad, ResourceKind::Container, "k"));
    let b = PlatformMetric::new(ts(HOUR0 + 1), ResourceId::new(Platform::Docker, ResourceKind::Container, "k"));
    let out = rollup(vec![with_mem(a, 1), with_mem(b, 2)], hourly(), &gauge(RollupFn::Last)).unwrap();
    assert_eq!(out.len(), 2);
    // records of one key and bucket come in platform order, then kind order
    let platforms: Vec<Platform> = out.iter().map(|m| m.resource.platform).collect();
    assert_eq!(platforms, vec![Platform::Docker, Platform::Nomad]);
    assert_eq!(out[0].metrics.memory_working_set_bytes, Some(2));
    assert_eq!(out[1].metrics.memory_working_set_bytes, Some(1));
}

#[test]
fn records_sharing_key_and_bucket_are_ordered_by_platform_then_kind() {
    let mk = |p: Platform, k: ResourceKind| PlatformMetric::new(ts(HOUR0 + 5), ResourceId::new(p, k, "same"));
    let samples = vec![
        mk(Platform::Vm, ResourceKind::Host),
        mk(Platform::Kubernetes, ResourceKind::Network),
        mk(Platform::Kubernetes, ResourceKind::Host),
        mk(Platform::Ecs, ResourceKind::Container),
    ];
    let mut reversed = samples.clone();
    reversed.reverse();
    let out = rollup(samples, hourly(), &gauge(RollupFn::Avg)).unwrap();
    let got: Vec<(Platform, ResourceKind)> = out.iter().map(|m| (m.resource.platform, m.resource.kind)).collect();
    assert_eq!(
        got,
        vec![
            (Platform::Kubernetes, ResourceKind::Host),
            (Platform::Kubernetes, ResourceKind::Network),
            (Platform::Ecs, ResourceKind::Container),
            (Platform::Vm, ResourceKind::Host),
        ]
    );
    assert_eq!(rollup(reversed, hourly(), &gauge(RollupFn::Avg)).unwrap(), out);
}

#[test]
fn labels_come_from_the_latest_sample() {
    let s1 = sample("a", HOUR0 + 100).with_label("team", "first");
    let s2 = sample("a", HOUR0 + 300).with_label("team", "latest");
    let s3 = sample("a", HOUR0 + 200).with_label("team", "late-arrival");
    let out = rollup(vec![s1, s2, s3], hourly(), &gauge(RollupFn::Avg)).unwrap();
    assert_eq!(out[0].labels.get("team").map(|s| s.as_str()), Some("latest"));
}

#[test]
fn labels_tie_goes_to_the_later_input() {
    let s1 = sample("a", HOUR0 + 100).with_label("team", "one");
    let s2 = sample("a", HOUR0 + 100).with_label("team", "two");
    let out = rollup(vec![s1, s2], hourly(), &gauge(RollupFn::Avg)).unwrap();
    assert_eq!(out[0].labels.get("team").map(|s| s.as_str()), Some("two"));
}

#[test]
fn sub_second_order_decides_the_labels() {
    let s1 = PlatformMetric::new(Timestamp::from_unix(HOUR0 + 5, 900).unwrap(), res("a")).with_label("v", "late");
    let s2 = PlatformMetric::new(Timestamp::from_unix(HOUR0 + 5, 100).unwrap(), res("a")).with_label("v", "early");
    let out = rollup(vec![s1, s2], hourly(), &gauge(RollupFn::Avg)).unwrap();
    assert_eq!(out[0].labels.get("v").map(|s| s.as_str()), Some("late"));
}

#[test]
fn fields_outside_the_policy_and_extras_are_dropped() {
    let mut s = sample("a", HOUR0).with_extra("gpu", MetricValue::gauge(MetricUnit::Count, 3));
    s.metrics.fs_used_bytes = Some(10);
    s.metrics.memory_working_set_bytes = Some(4);
    let out = rollup(vec![s], hourly(), &gauge(RollupFn::Avg)).unwrap();
    assert_eq!(out[0].metrics.memory_working_set_bytes, Some(4));
    assert_eq!(out[0].metrics.fs_used_bytes, None);
    assert!(out[0].metrics.extras.is_empty());
}

#[test]
fn missing_values_leave_the_field_absent() {
    let out = rollup(vec![sample("a", HOUR0), sample("a", HOUR0 + 1)], hourly(), &gauge(RollupFn::Avg)).unwrap();
    assert_eq!(out.len(), 1);
    assert_eq!(out[0].metrics.memory_working_set_bytes, None);
}

#[test]
fn repeated_spec_feeds_the_field_twice() {
    let p = leak(vec![
        FieldSpec::gauge("memory_working_set_bytes", RollupFn::Sum),
        FieldSpec::gauge("memory_working_set_bytes", RollupFn::Max),
    ]);
    let out = rollup(mem_values(&[3, 4]), hourly(), &p).unwrap();
    // the first spec decides the rollup; each value is observed once per spec
    assert_eq!(out[0].metrics.memory_working_set_bytes, Some(14));
}

#[test]
fn canonical_policy_end_to_end() {
    let mut a = sample("pod/x", HOUR0 + 60);
    a.metrics = MetricsCore {
        cpu_usage_core_nano_seconds: Some(1_000),
        memory_working_set_bytes: Some(100),
        fs_capacity_bytes: Some(5_000),
        cpu_limit_millicores: Some(500),
        network_rx_bytes_total: Some(10),
        ..MetricsCore::default()
    };
    let mut b = sample("pod/x", HOUR0 + 120);
    b.metrics = MetricsCore {
        cpu_usage_core_nano_seconds: Some(4_000),
        memory_working_set_bytes: Some(301),
        fs_capacity_bytes: Some(6_000),
        cpu_limit_millicores: Some(700),
        network_rx_bytes_total: Some(5),
        ..MetricsCore::default()
    };
    let w = RollupWindow::new(Resolution::Minute, Resolution::Day);
    let out = rollup(vec![a, b], w, &core_policy::canonical()).unwrap();
    assert_eq!(out.len(), 1);
    let m = &out[0].metrics;
    assert_eq!(out[0].timestamp, Resolution::Day.bucket_start(ts(HOUR0)));
    assert_eq!(m.cpu_usage_core_nano_seconds, Some(3_000));
    assert_eq!(m.memory_working_set_bytes, Some(200));
    assert_eq!(m.fs_capacity_bytes, Some(6_000));
    assert_eq!(m.cpu_limit_millicores, Some(700));
    assert_eq!(m.network_rx_bytes_total, Some(0));
    assert_eq!(m.memory_rss_bytes, None);
}

#[test]
fn counter_semantics_ignore_the_rollup_function() {
    let p = leak(vec![FieldSpec {
        field: "cpu_usage_core_nano_seconds",
        semantics: FieldSemantics::Counter,
        rollup: RollupFn::Max,
        counter_reset_policy: CounterResetPolicy::ClampToZero,
    }]);
    let samples = vec![with_cpu(sample("a", HOUR0), 10), with_cpu(sample("a", HOUR0 + 1), 25)];
    let out = rollup(samples, hourly(), &p).unwrap();
    assert_eq!(out[0].metrics.cpu_usage_core_nano_seconds, Some(15));
}

#[test]
fn interleaving_of_different_buckets_does_not_matter() {
    let a = |secs: i64, v: u64| with_cpu(sample("a", secs), v);
    let b = |secs: i64, v: u64| with_cpu(sample("b", secs), v);
    let one = vec![a(HOUR0, 1), a(HOUR0 + 60, 5), b(HOUR0, 10), b(HOUR0 + 60, 30)];
    let two = vec![b(HOUR0, 10), a(HOUR0, 1), b(HOUR0 + 60, 30), a(HOUR0 + 60, 5)];
    let p = counter(CounterResetPolicy::ClampToZero);
    assert_eq!(rollup(one, hourly(), &p).unwrap(), rollup(two, hourly(), &p).unwrap());
}

#[test]
fn order_within_a_bucket_does_not_matter() {
    let one = vec![with_cpu(sample("a", HOUR0), 1), with_cpu(sample("a", HOUR0 + 60), 5)];
    let two = vec![with_cpu(sample("a", HOUR0 + 60), 5), with_cpu(sample("a", HOUR0), 1)];
    let p = counter(CounterResetPolicy::UseLastAsDelta);
    assert_eq!(rollup(one, hourly(), &p).unwrap()[0].metrics.cpu_usage_core_nano_seconds, Some(4));
    assert_eq!(rollup(two, hourly(), &p).unwrap()[0].metrics.cpu_usage_core_nano_seconds, Some(4));
}

#[test]
fn counter_delta_goes_from_earliest_to_latest_reading() {
    let samples = vec![
        with_cpu(sample("a", HOUR0 + 130), 400),
        with_cpu(sample("a", HOUR0 + 10), 100),
        with_cpu(sample("a", HOUR0 + 70), 150),
    ];
    let out = rollup(samples, hourly(), &counter(CounterResetPolicy::ClampToZero)).unwrap();
    assert_eq!(out[0].metrics.cpu_usage_core_nano_seconds, Some(300));
    // a reset seen in time order, though the readings arrive the other way round
    let samples = vec![with_cpu(sample("a", HOUR0 + 120), 40), with_cpu(sample("a", HOUR0), 1_000)];
    let out = rollup(samples, hourly(), &counter(CounterResetPolicy::UseLastAsDelta)).unwrap();
    assert_eq!(out[0].metrics.cpu_usage_core_nano_seconds, Some(40));
}

#[test]
fn gauge_last_is_the_latest_by_time() {
    let samples = vec![
        with_mem(sample("a", HOUR0 + 300), 3),
        with_mem(sample("a", HOUR0 + 100), 1),
        with_mem(sample("a", HOUR0 + 200), 2),
    ];
    let out = rollup(samples, hourly(), &gauge(RollupFn::Last)).unwrap();
    assert_eq!(out[0].metrics.memory_working_set_bytes, Some(3));
}

#[test]
fn readings_at_the_same_instant_keep_arrival_order() {
    // of two readings at one instant, the first to arrive is the earliest and the last
    // to arrive is the latest
    let samples = || vec![with_cpu(sample("a", HOUR0 + 5), 10), with_cpu(sample("a", HOUR0 + 5), 25)];
    let out = rollup(samples(), hourly(), &counter(CounterResetPolicy::ClampToZero)).unwrap();
    assert_eq!(out[0].metrics.cpu_usage_core_nano_seconds, Some(15));
    let samples = vec![with_mem(sample("a", HOUR0 + 5), 10), with_mem(sample("a", HOUR0 + 5), 25)];
    let out = rollup(samples, hourly(), &gauge(RollupFn::Last)).unwrap();
    assert_eq!(out[0].metrics.memory_working_set_bytes, Some(25));
}

#[test]
fn average_lies_between_min_and_max() {
    let values = [7u64, 100, 3, 55, 55, 9];
    let avg = rollup(mem_values(&values), hourly(), &gauge(RollupFn::Avg)).unwrap()[0]
        .metrics
        .memory_working_set_bytes
        .unwrap();
    assert_eq!(avg, 229 / 6);
    assert!(3 <= avg && avg <= 100);
}

#[test]
fn set_then_get_core_field() {
    let mut core = MetricsCore::default();
    core.fs_used_bytes = Some(1);
    set_core_u64(&mut core, "memory_rss_bytes", 42);
    assert_eq!(get_core_u64(&core, "memory_rss_bytes"), Some(Some(42)));
    assert_eq!(get_core_u64(&core, "fs_used_bytes"), Some(Some(1)));
    assert_eq!(get_core_u64(&core, "memory_usage_bytes"), Some(None));
    assert_eq!(get_core_u64(&core, "gpu_utilization"), None);
    let before = core.clone();
    set_core_u64(&mut core, "gpu_utilization", 7);
    assert_eq!(core, before);
}

#[test]
fn canonical_fields_are_all_known_core_fields() {
    let core = MetricsCore::default();
    for spec in core_policy::canonical().specs.iter() {
        assert_eq!(get_core_u64(&core, spec.field), Some(None));
    }
}

#[test]
fn any_reordering_gives_the_same_rollup_when_no_resource_repeats_an_instant() {
    // "a" and "b" share instants; each resource has one sample per instant
    let mk = |key: &str, secs: i64, cpu: u64, mem: u64, team: &str| {
        let mut m = sample(key, secs).with_label("team", team);
        m.metrics.cpu_usage_core_nano_seconds = Some(cpu);
        m.metrics.memory_working_set_bytes = Some(mem);
        m.metrics.cpu_limit_millicores = Some(mem / 2);
        m
    };
    let samples = vec![
        mk("a", HOUR0 + 10, 100, 8, "x"),
        mk("a", HOUR0 + 70, 180, 12, "y"),
        mk("b", HOUR0 + 10, 5, 100, "p"),
        mk("a", HOUR0 + 3_700, 900, 20, "z"),
        mk("b", HOUR0 + 70, 2, 300, "q"),
        mk("a", HOUR0 + 130, 150, 30, "w"),
    ];
    let policy = core_policy::canonical();
    let expected = rollup(samples.clone(), hourly(), &policy).unwrap();
    let orders: [[usize; 6]; 4] = [
        [5, 4, 3, 2, 1, 0],
        [3, 0, 5, 1, 4, 2],
        [1, 2, 0, 4, 5, 3],
        [4, 5, 2, 3, 0, 1],
    ];
    for order in orders.iter() {
        let shuffled: Vec<PlatformMetric> = order.iter().map(|i| samples[*i].clone()).collect();
        assert_eq!(rollup(shuffled, hourly(), &policy).unwrap(), expected);
    }
    // hour HOUR0 of "a": cpu from 100 (earliest) to 150 (latest), labels of the latest
    assert_eq!(expected[0].metrics.cpu_usage_core_nano_seconds, Some(50));
    assert_eq!(expected[0].labels.get("team").map(|s| s.as_str()), Some("w"));
    assert_eq!(expected[0].metrics.cpu_limit_millicores, Some(15));
    // hour HOUR0 of "b": a counter reset, clamped to zero
    assert_eq!(expected[2].metrics.cpu_usage_core_nano_seconds, Some(0));
}
