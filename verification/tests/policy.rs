use chrono::{TimeZone, Utc};
use platform_metrics::model::timestamp::{MAX_UNIX_SECS, MIN_UNIX_SECS};
use platform_metrics::model::Timestamp;
use platform_metrics::policy::core_policy;
use platform_metrics::policy::{
    AggregationPolicy, CounterResetPolicy, FieldSemantics, FieldSpec, Resolution, RollupFn,
    RollupWindow,
};

fn ts(secs: i64, nanos: u32) -> Timestamp {
    Timestamp::from_unix(secs, nanos).unwrap()
}

#[test]
fn durations_are_one_minute_hour_day() {
    assert_eq!(Resolution::Minute.duration(), 60);
    assert_eq!(Resolution::Hour.duration(), 3600);
    assert_eq!(Resolution::Day.duration(), 86_400);
}

#[test]
fn bucket_start_after_the_epoch() {
    // 2023-11-14 22:13:20.5 UTC
    let t = ts(1_700_000_000, 500_000_000);
    assert_eq!(Resolution::Minute.bucket_start(t), ts(1_699_999_980, 0));
    assert_eq!(Resolution::Hour.bucket_start(t), ts(1_699_999_200, 0));
    assert_eq!(Resolution::Day.bucket_start(t), ts(1_699_920_000, 0));
}

#[test]
fn bucket_start_before_the_epoch() {
    // every resolution rounds down, so the bucket starts at or before the instant
    assert_eq!(Resolution::Minute.bucket_start(ts(-30, 0)), ts(-60, 0));
    assert_eq!(Resolution::Minute.bucket_start(ts(-90, 0)), ts(-120, 0));
    assert_eq!(Resolution::Minute.bucket_start(ts(-60, 0)), ts(-60, 0));
    assert_eq!(Resolution::Hour.bucket_start(ts(-3601, 0)), ts(-7200, 0));
    assert_eq!(Resolution::Hour.bucket_start(ts(-1, 999_999_999)), ts(-3600, 0));
    assert_eq!(Resolution::Day.bucket_start(ts(-1, 0)), ts(-86_400, 0));
    assert_eq!(Resolution::Day.bucket_start(ts(-86_400, 0)), ts(-86_400, 0));
}

#[test]
fn day_bucket_matches_chrono_midnight() {
    for secs in [0i64, 1, 86_399, 86_400, 1_700_000_000, -1, -86_401, -8_000_000_000] {
        let d = Utc.timestamp_opt(secs, 0).single().unwrap();
        let midnight = Utc.from_utc_datetime(&d.date_naive().and_hms_opt(0, 0, 0).unwrap());
        assert_eq!(Resolution::Day.bucket_start(ts(secs, 0)).secs(), midnight.timestamp());
    }
}

#[test]
fn bucket_start_at_the_edges_of_the_range() {
    assert_eq!(Resolution::Day.bucket_start(ts(MIN_UNIX_SECS, 0)), ts(MIN_UNIX_SECS, 0));
    assert_eq!(
        Resolution::Day.bucket_start(ts(MAX_UNIX_SECS, 999_999_999)),
        ts(MAX_UNIX_SECS - 86_399, 0)
    );
    assert_eq!(
        Resolution::Minute.bucket_start(ts(MIN_UNIX_SECS + 30, 0)),
        ts(MIN_UNIX_SECS, 0)
    );
}

#[test]
fn bucket_start_is_idempotent_and_buckets_nest() {
    for secs in [0i64, 59, 61, 3599, 3601, 86_399, 1_700_000_123, -1, -59, -3601, -90_000] {
        let t = ts(secs, 0);
        for r in [Resolution::Minute, Resolution::Hour, Resolution::Day] {
            let b = r.bucket_start(t);
            assert_eq!(r.bucket_start(b), b);
            assert_eq!(b.secs() % r.duration(), 0);
        }
        let m = Resolution::Minute.bucket_start(t);
        assert_eq!(Resolution::Hour.bucket_start(m), Resolution::Hour.bucket_start(t));
        assert_eq!(Resolution::Day.bucket_start(m), Resolution::Day.bucket_start(t));
        let h = Resolution::Hour.bucket_start(t);
        assert_eq!(Resolution::Day.bucket_start(h), Resolution::Day.bucket_start(t));
        assert!(m.secs() <= secs && secs < m.secs() + 60);
        assert!(h.secs() <= secs && secs < h.secs() + 3600);
    }
}

#[test]
fn validate_accepts_only_coarser_targets() {
    let all = [Resolution::Minute, Resolution::Hour, Resolution::Day];
    for s in all {
        for t in all {
            let r = RollupWindow::new(s, t).validate();
            match (s, t) {
                (Resolution::Minute, Resolution::Hour)
                | (Resolution::Hour, Resolution::Day)
                | (Resolution::Minute, Resolution::Day) => assert_eq!(r, Ok(())),
                _ if s == t => assert_eq!(r, Err("source and target resolutions are the same")),
                _ => assert_eq!(r, Err("unsupported rollup direction")),
            }
        }
    }
}

#[test]
fn target_bucket_start_uses_the_target_resolution() {
    let w = RollupWindow::new(Resolution::Minute, Resolution::Hour);
    assert_eq!(w.source, Resolution::Minute);
    assert_eq!(w.target, Resolution::Hour);
    assert_eq!(w.target_bucket_start(ts(7_199, 10)), ts(3_600, 0));
}

#[test]
fn field_spec_constructors() {
    let g = FieldSpec::gauge("memory_rss_bytes", RollupFn::Max);
    assert_eq!(g.field, "memory_rss_bytes");
    assert_eq!(g.semantics, FieldSemantics::Gauge);
    assert_eq!(g.rollup, RollupFn::Max);
    assert_eq!(g.counter_reset_policy, CounterResetPolicy::ClampToZero);
    let c = FieldSpec::counter_delta("network_rx_bytes_total", CounterResetPolicy::UseLastAsDelta);
    assert_eq!(c.semantics, FieldSemantics::Counter);
    assert_eq!(c.rollup, RollupFn::Delta);
    assert_eq!(c.counter_reset_policy, CounterResetPolicy::UseLastAsDelta);
}

const TWO: &[FieldSpec] = &[
    FieldSpec {
        field: "fs_used_bytes",
        semantics: FieldSemantics::Gauge,
        rollup: RollupFn::Avg,
        counter_reset_policy: CounterResetPolicy::ClampToZero,
    },
    FieldSpec {
        field: "cpu_usage_core_nano_seconds",
        semantics: FieldSemantics::Counter,
        rollup: RollupFn::Delta,
        counter_reset_policy: CounterResetPolicy::ClampToZero,
    },
];

#[test]
fn aggregation_policy_new_keeps_specs() {
    let p = AggregationPolicy::new(TWO);
    assert_eq!(p.specs.len(), 2);
    assert_eq!(p.specs[1].field, "cpu_usage_core_nano_seconds");
}

#[test]
fn canonical_policy_lists_the_core_fields() {
    let p = core_policy::canonical();
    let fields: Vec<&str> = p.specs.iter().map(|s| s.field).collect();
    assert_eq!(
        fields,
        vec![
            "cpu_usage_core_nano_seconds",
            "cpu_usage_millicores",
            "memory_working_set_bytes",
            "memory_rss_bytes",
            "memory_usage_bytes",
            "network_rx_bytes_total",
            "network_tx_bytes_total",
            "fs_used_bytes",
            "fs_available_bytes",
            "fs_capacity_bytes",
            "cpu_request_millicores",
            "cpu_limit_millicores",
            "memory_request_bytes",
            "memory_limit_bytes",
        ]
    );
    assert_eq!(p.specs[0], FieldSpec::counter_delta("cpu_usage_core_nano_seconds", CounterResetPolicy::ClampToZero));
    assert_eq!(p.specs[2], FieldSpec::gauge("memory_working_set_bytes", RollupFn::Avg));
    assert_eq!(p.specs[9], FieldSpec::gauge("fs_capacity_bytes", RollupFn::Last));
    assert_eq!(p.specs[13], FieldSpec::gauge("memory_limit_bytes", RollupFn::Last));
}
