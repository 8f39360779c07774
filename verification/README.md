# platform_metrics

A platform-agnostic metric model (Kubernetes, Docker, ECS, Nomad, VMs) and a
rollup engine that aggregates fine-grained samples (per minute) into coarser
buckets (per hour or day), written in Verus with its behaviour stated in
`requires` / `ensures` contracts and proved.

Layout:

- `src/model/`: `ResourceId`, `MetricLabels` (a string map kept sorted by key),
  `MetricValue`, `MetricsCore`, `PlatformMetric` and `Timestamp` (a UTC instant
  in the range that `chrono` can represent; `chrono` checks the range and computes
  UTC midnight).
- `src/policy/`: resolutions and their bucketing rule, rollup windows, per-field
  aggregation specs and the canonical policy for the core fields.
- `src/rollup/`: per-field aggregation states and the rollup engine. The engine's
  contract (`is_rollup`) says that the output holds one record per
  (resource, target bucket), sorted by resource key, then bucket start, then
  platform and kind, each with the labels of the bucket's latest sample and each
  core field rolled up as its spec says; first, last and counter deltas go by the
  samples' times, so the order of the input does not decide them. The `law_*` proof functions state properties of the whole library.
- `tests/`: tests run against the compiled library.
- `app/`: serde-capable copies of the types, conversions from and to
  `chrono::DateTime<Utc>`, and a rollup over such records.
