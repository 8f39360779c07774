use platform_metrics::model::Timestamp;
use platform_metrics::policy::{CounterResetPolicy, FieldSpec, RollupFn};
use platform_metrics::rollup::field_agg::FieldAggState;

fn at(secs: i64) -> Timestamp {
    Timestamp::from_unix(secs, 0).unwrap()
}

/// Feed the values one second apart, in order.
fn feed(spec: FieldSpec, values: &[u64]) -> FieldAggState {
    let mut st = FieldAggState::new(spec);
    for (i, v) in values.iter().enumerate() {
        st.observe(*v, at(1_000 + i as i64));
    }
    st
}

/// Feed (value, second) pairs in the given order.
fn feed_at(spec: FieldSpec, readings: &[(u64, i64)]) -> FieldAggState {
    let mut st = FieldAggState::new(spec);
    for (v, secs) in readings {
        st.observe(*v, at(*secs));
    }
    st
}

#[test]
fn fresh_state_finalizes_to_nothing_for_avg_and_counters() {
    assert_eq!(FieldAggState::new(FieldSpec::gauge("f", RollupFn::Avg)).finalize(), None);
    assert_eq!(FieldAggState::new(FieldSpec::gauge("f", RollupFn::Max)).finalize(), None);
    assert_eq!(
        FieldAggState::new(FieldSpec::counter_delta("f", CounterResetPolicy::ClampToZero)).finalize(),
        None
    );
    // a gauge sum of nothing is zero
    assert_eq!(FieldAggState::new(FieldSpec::gauge("f", RollupFn::Sum)).finalize(), Some(0));
}

#[test]
fn gauge_state_tracks_count_sum_min_max_last() {
    let st = feed(FieldSpec::gauge("f", RollupFn::Avg), &[4, 10, 1]);
    assert_eq!(st.gauge_count, 3);
    assert_eq!(st.gauge_sum, 15);
    assert_eq!(st.gauge_min, Some(1));
    assert_eq!(st.gauge_max, Some(10));
    assert_eq!(st.gauge_last, Some(1));
    assert_eq!(st.gauge_last_at, Some(at(1_002)));
    assert_eq!(st.counter_first, None);
    assert_eq!(st.finalize(), Some(5));
}

#[test]
fn counter_state_keeps_first_and_last() {
    let st = feed(FieldSpec::counter_delta("f", CounterResetPolicy::UseLastAsDelta), &[9, 2, 12]);
    assert_eq!(st.counter_first, Some(9));
    assert_eq!(st.counter_last, Some(12));
    assert_eq!(st.gauge_count, 0);
    assert_eq!(st.finalize(), Some(3));
    let st = feed(FieldSpec::counter_delta("f", CounterResetPolicy::UseLastAsDelta), &[9, 2]);
    assert_eq!(st.finalize(), Some(2));
}

#[test]
fn gauge_last_follows_time_not_arrival() {
    let st = feed_at(FieldSpec::gauge("f", RollupFn::Last), &[(7, 50), (3, 10), (9, 30)]);
    assert_eq!(st.gauge_last, Some(7));
    assert_eq!(st.gauge_last_at, Some(at(50)));
    assert_eq!(st.gauge_count, 3);
    assert_eq!(st.finalize(), Some(7));
    // a tie goes to the later arrival
    let st = feed_at(FieldSpec::gauge("f", RollupFn::Last), &[(1, 10), (2, 10)]);
    assert_eq!(st.finalize(), Some(2));
}

#[test]
fn counter_first_and_last_follow_time_not_arrival() {
    let spec = FieldSpec::counter_delta("f", CounterResetPolicy::ClampToZero);
    let st = feed_at(spec, &[(150, 70), (400, 130), (100, 10)]);
    assert_eq!(st.counter_first, Some(100));
    assert_eq!(st.counter_first_at, Some(at(10)));
    assert_eq!(st.counter_last, Some(400));
    assert_eq!(st.counter_last_at, Some(at(130)));
    assert_eq!(st.finalize(), Some(300));
    // at one instant, the first arrival is the first reading and the last arrival the last
    let st = feed_at(spec, &[(5, 20), (8, 20)]);
    assert_eq!(st.counter_first, Some(5));
    assert_eq!(st.counter_last, Some(8));
    assert_eq!(st.finalize(), Some(3));
}

#[test]
fn any_order_of_distinct_instants_gives_the_same_rollup() {
    let readings = [(12u64, 5i64), (3, 1), (40, 9), (8, 7)];
    let specs = [
        FieldSpec::gauge("f", RollupFn::Avg),
        FieldSpec::gauge("f", RollupFn::Max),
        FieldSpec::gauge("f", RollupFn::Min),
        FieldSpec::gauge("f", RollupFn::Sum),
        FieldSpec::gauge("f", RollupFn::Last),
        FieldSpec::counter_delta("f", CounterResetPolicy::ClampToZero),
        FieldSpec::counter_delta("f", CounterResetPolicy::UseLastAsDelta),
    ];
    let expected = [Some(15), Some(40), Some(3), Some(63), Some(40), Some(37), Some(37)];
    let orders: [[usize; 4]; 4] = [[0, 1, 2, 3], [3, 2, 1, 0], [2, 0, 3, 1], [1, 3, 0, 2]];
    for (spec, want) in specs.iter().zip(expected.iter()) {
        for order in orders.iter() {
            let r: Vec<(u64, i64)> = order.iter().map(|i| readings[*i]).collect();
            assert_eq!(feed_at(*spec, &r).finalize(), *want);
        }
    }
}

#[test]
fn gauge_step_leaves_counter_fields_and_counter_step_leaves_gauge_fields() {
    let mut st = FieldAggState::new(FieldSpec::gauge("f", RollupFn::Avg));
    st.observe(4, at(1));
    assert_eq!((st.counter_first, st.counter_last, st.counter_first_at, st.counter_last_at), (None, None, None, None));
    let mut st = FieldAggState::new(FieldSpec::counter_delta("f", CounterResetPolicy::ClampToZero));
    st.observe(4, at(1));
    assert_eq!((st.gauge_count, st.gauge_sum, st.gauge_min, st.gauge_max, st.gauge_last), (0, 0, None, None, None));
}
