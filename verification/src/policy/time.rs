use crate::model::timestamp::{utc_midnight, Timestamp, MAX_UNIX_SECS, MIN_UNIX_SECS, SECS_PER_DAY};
use vstd::arithmetic::div_mod::{
    lemma_fundamental_div_mod, lemma_fundamental_div_mod_converse, lemma_mod_decreases, lemma_mod_mod, lemma_mod_bound, lemma_mod_multiples_basic,
};
use vstd::prelude::*;

verus! {

/// Common rollup resolutions.
#[derive(Debug, Clone, Copy, PartialEq, Eq, Hash, Structural)]
pub enum Resolution {
    Minute,
    Hour,
    Day,
}

impl Resolution {
    /// Length of one bucket in seconds.
    pub open spec fn spec_duration(self) -> int {
        match self {
            Resolution::Minute => 60,
            Resolution::Hour => 3600,
            Resolution::Day => 86400,
        }
    }

    /// Start (in seconds since the Unix epoch) of the bucket that holds second `secs`:
    /// the seconds rounded down to a multiple of the bucket length (`%` is Euclidean
    /// here, so this holds before the epoch too). Day buckets start at UTC midnight.
    pub open spec fn spec_bucket_secs(self, secs: int) -> int {
        secs - secs % self.spec_duration()
    }

    /// Length of one bucket, in seconds.
    pub fn duration(self) -> (r: i64)
        ensures
            r == self.spec_duration(),
    {
        match self {
            Resolution::Minute => 60,
            Resolution::Hour => 3600,
            Resolution::Day => SECS_PER_DAY,
        }
    }

    /// Bucket start for a given resolution: the canonical bucketing rule used by
    /// rollup and storage sharding. The result has no sub-second part.
    pub fn bucket_start(self, t: Timestamp) -> (r: Timestamp)
        ensures
            r.spec_secs() == self.spec_bucket_secs(t.spec_secs() as int),
            r.spec_nanos() == 0,
    {
        let ts = t.secs();
        proof {
            assert(MIN_UNIX_SECS % 60 == 0 && MIN_UNIX_SECS % 3600 == 0);
        }
        let b = match self {
            Resolution::Minute => round_down(ts, 60),
            Resolution::Hour => round_down(ts, 3600),
            Resolution::Day => utc_midnight(ts),
        };
        proof {
            assert(MIN_UNIX_SECS <= b <= MAX_UNIX_SECS) by {
                if self is Day {
                    assert(MIN_UNIX_SECS % 86400 == 0);
                }
            }
        }
        Timestamp::at_second(b)
    }
}

/// `secs` rounded down to a multiple of `width`, before the epoch as after it.
fn round_down(secs: i64, width: i64) -> (r: i64)
    requires
        width > 0,
        MIN_UNIX_SECS % width == 0,
        MIN_UNIX_SECS <= secs <= MAX_UNIX_SECS,
    ensures
        r == secs - secs % width,
        MIN_UNIX_SECS <= r <= secs,
{
    proof {
        lemma_mod_bound(secs as int, width as int);
    }
    if secs >= 0 {
        proof {
            lemma_mod_decreases(secs as nat, width as nat);
        }
        secs - secs % width
    } else {
        let p = -secs;
        let m = p % width;
        proof {
            lemma_mod_bound(p as int, width as int);
            lemma_fundamental_div_mod(p as int, width as int);
            let q = p as int / width as int;
            if m == 0 {
                assert((-q) * width == -(width * q)) by (nonlinear_arith);
                lemma_fundamental_div_mod_converse(secs as int, width as int, -q, 0);
            } else {
                assert((-q - 1) * width == -(width * q) - width) by (nonlinear_arith);
                lemma_fundamental_div_mod_converse(secs as int, width as int, -q - 1, width - m);
            }
            let si = secs as int;
            let w = width as int;
            lemma_fundamental_div_mod(si, w);
            lemma_fundamental_div_mod(MIN_UNIX_SECS as int, w);
            let qs = si / w;
            let qm = (MIN_UNIX_SECS as int) / w;
            let rs = si % w;
            assert(qm <= qs) by (nonlinear_arith)
                requires
                    w * qm <= w * qs + rs,
                    0 <= rs < w,
            ;
            assert(w * qm <= w * qs) by (nonlinear_arith)
                requires
                    qm <= qs,
                    w > 0,
            ;
        }
        if m == 0 {
            secs
        } else {
            secs - (width - m)
        }
    }
}

/// Position of a resolution from finest to coarsest.
pub open spec fn rank(r: Resolution) -> int {
    match r {
        Resolution::Minute => 0,
        Resolution::Hour => 1,
        Resolution::Day => 2,
    }
}

/// A window is supported exactly when its target is coarser than its source.
pub proof fn law_supported_iff_coarser(w: RollupWindow)
    ensures
        w.spec_is_supported() <==> rank(w.source) < rank(w.target),
{
}

/// Bucket starts are aligned to the resolution: a multiple of its length in seconds.
pub proof fn law_bucket_aligned(r: Resolution, secs: int)
    ensures
        r.spec_bucket_secs(secs) % r.spec_duration() == 0,
{
    let d = r.spec_duration();
    lemma_fundamental_div_mod(secs, d);
    lemma_mod_multiples_basic(secs / d, d);
}

/// Bucketing is idempotent: the bucket of a bucket start is itself.
pub proof fn law_bucket_idempotent(r: Resolution, secs: int)
    ensures
        r.spec_bucket_secs(r.spec_bucket_secs(secs)) == r.spec_bucket_secs(secs),
{
    law_bucket_aligned(r, secs);
}

/// Every timestamp lies in its bucket: at or after the bucket start and before the
/// next one.
pub proof fn law_bucket_contains(r: Resolution, secs: int)
    ensures
        r.spec_bucket_secs(secs) <= secs < r.spec_bucket_secs(secs) + r.spec_duration(),
{
    lemma_mod_bound(secs, r.spec_duration());
}

/// Rounding down to a multiple of `w`, then to a multiple of `w * k`, is rounding
/// down to a multiple of `w * k`.
proof fn lemma_round_down_nest(p: int, w: int, k: int)
    requires
        w > 0,
        k > 0,
    ensures
        (p - p % w) - (p - p % w) % (w * k) == p - p % (w * k),
{
    assert(w * k > 0) by (nonlinear_arith)
        requires
            w > 0,
            k > 0,
    ;
    let d = w * k;
    lemma_mod_mod(p, w, k);
    lemma_fundamental_div_mod(p, d);
    lemma_mod_bound(p, d);
    lemma_mod_bound(p, w);
    let r = p % d;
    lemma_mod_bound(r, w);
    lemma_mod_decreases(r as nat, w as nat);
    let q = p / d;
    assert(d * q == q * d) by (nonlinear_arith);
    let m = p - p % w;
    lemma_fundamental_div_mod_converse(m, d, q, r - r % w);
}

/// Buckets nest: the hour of a minute bucket is the hour of the timestamp, and the
/// day of a minute or hour bucket is the day of the timestamp.
pub proof fn law_buckets_nest(secs: int)
    ensures
        Resolution::Hour.spec_bucket_secs(Resolution::Minute.spec_bucket_secs(secs))
            == Resolution::Hour.spec_bucket_secs(secs),
        Resolution::Day.spec_bucket_secs(Resolution::Minute.spec_bucket_secs(secs))
            == Resolution::Day.spec_bucket_secs(secs),
        Resolution::Day.spec_bucket_secs(Resolution::Hour.spec_bucket_secs(secs))
            == Resolution::Day.spec_bucket_secs(secs),
{
    lemma_round_down_nest(secs, 60, 60);
    lemma_round_down_nest(secs, 60, 1440);
    lemma_round_down_nest(secs, 3600, 24);
}

/// Rollup direction: from `source` to `target`.
#[derive(Debug, Clone, Copy, PartialEq, Eq, Structural)]
pub struct RollupWindow {
    pub source: Resolution,
    pub target: Resolution,
}

impl RollupWindow {
    /// The supported directions: Minute to Hour, Hour to Day and Minute to Day.
    pub open spec fn spec_is_supported(self) -> bool {
        ||| (self.source is Minute && self.target is Hour)
        ||| (self.source is Hour && self.target is Day)
        ||| (self.source is Minute && self.target is Day)
    }

    pub fn new(source: Resolution, target: Resolution) -> (r: Self)
        ensures
            r.source == source,
            r.target == target,
    {
        RollupWindow { source, target }
    }

    /// Validate the rollup direction: Minute->Hour, Hour->Day and Minute->Day pass.
    pub fn validate(self) -> (r: Result<(), &'static str>)
        ensures
            r is Ok <==> self.spec_is_supported(),
            r matches Err(m) ==> (self.source == self.target ==> m@
                == "source and target resolutions are the same"@) && (self.source
                != self.target ==> m@ == "unsupported rollup direction"@),
    {
        match (self.source, self.target) {
            (Resolution::Minute, Resolution::Hour) => Ok(()),
            (Resolution::Hour, Resolution::Day) => Ok(()),
            (Resolution::Minute, Resolution::Day) => Ok(()),
            (a, b) => {
                if a == b {
                    Err("source and target resolutions are the same")
                } else {
                    Err("unsupported rollup direction")
                }
            },
        }
    }

    /// The target bucket start for a source timestamp.
    pub fn target_bucket_start(self, source_ts: Timestamp) -> (r: Timestamp)
        ensures
            r.spec_secs() == self.target.spec_bucket_secs(source_ts.spec_secs() as int),
            r.spec_nanos() == 0,
    {
        self.target.bucket_start(source_ts)
    }
}

} // verus!
