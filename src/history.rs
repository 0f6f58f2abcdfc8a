//! The power history: one point per time bucket of the day, in increasing
//! bucket order, restarted when the day wraps.
use vstd::prelude::*;
use crate::power::FieldLayout;
use crate::store::{total_load, total_pv, TelemetryStore, ID_COUNT};

verus! {

/// Aggregate power at one time bucket, in millionths of a watt.
#[derive(Clone, Copy, Debug, PartialEq, Eq, Structural)]
pub struct HistoryPoint {
    pub bucket_index: u32,
    pub pv_power: u128,
    pub load_power: u128,
}

/// The last point is already for `bucket`.
pub open spec fn holds_bucket(points: Seq<HistoryPoint>, bucket: u32) -> bool {
    points.len() > 0 && points.last().bucket_index == bucket
}

/// `bucket` does not come after the last point: the day has wrapped.
pub open spec fn wraps(points: Seq<HistoryPoint>, bucket: u32) -> bool {
    points.len() > 0 && bucket <= points.last().bucket_index
}

/// The series after a sample: unchanged when its bucket is already the last
/// one; otherwise the point is appended, after clearing the series when the
/// day has wrapped.
pub open spec fn after_sample(points: Seq<HistoryPoint>, p: HistoryPoint) -> Seq<HistoryPoint> {
    if holds_bucket(points, p.bucket_index) {
        points
    } else if wraps(points, p.bucket_index) {
        seq![p]
    } else {
        points.push(p)
    }
}

/// Buckets strictly increase along the series.
pub open spec fn increasing(points: Seq<HistoryPoint>) -> bool {
    forall|i: int, j: int|
        0 <= i < j < points.len() ==> #[trigger] points[i].bucket_index
            < #[trigger] points[j].bucket_index
}

/// The series of history points, owned by the aggregator.
pub struct HistorySeries {
    points: Vec<HistoryPoint>,
}

impl View for HistorySeries {
    type V = Seq<HistoryPoint>;

    closed spec fn view(&self) -> Seq<HistoryPoint> {
        self.points@
    }
}

/// Bucket order is kept by every sample.
pub proof fn lemma_sample_keeps_order(points: Seq<HistoryPoint>, p: HistoryPoint)
    requires
        increasing(points),
    ensures
        increasing(after_sample(points, p)),
{
    let r = after_sample(points, p);
    if !holds_bucket(points, p.bucket_index) && !wraps(points, p.bucket_index) {
        assert forall|i: int, j: int|
            0 <= i < j < r.len() implies #[trigger] r[i].bucket_index
            < #[trigger] r[j].bucket_index by {
            if j == r.len() - 1 && points.len() > 0 {
                assert(points[i].bucket_index <= points.last().bucket_index);
            }
        }
    }
}

/// A second sample in the bucket of the last one changes nothing, so no
/// bucket ever holds more than one point.
pub proof fn lemma_same_bucket_appends_once(
    points: Seq<HistoryPoint>,
    p: HistoryPoint,
    q: HistoryPoint,
)
    requires
        p.bucket_index == q.bucket_index,
    ensures
        after_sample(after_sample(points, p), q) == after_sample(points, p),
{
}

/// The first bucket of a new day clears what the series held before the new
/// point goes in.
pub proof fn lemma_first_bucket_restarts_day(points: Seq<HistoryPoint>, p: HistoryPoint)
    requires
        p.bucket_index == 0,
        !holds_bucket(points, 0),
    ensures
        after_sample(points, p) == seq![p],
{
    if points.len() == 0 {
        assert(points.push(p) =~= seq![p]);
    }
}

impl HistorySeries {
    /// An empty series.
    pub fn new() -> (r: HistorySeries)
        ensures
            r@ == Seq::<HistoryPoint>::empty(),
            increasing(r@),
    {
        HistorySeries { points: Vec::new() }
    }

    /// The points, oldest first.
    pub fn points(&self) -> (r: &Vec<HistoryPoint>)
        ensures
            r@ == self@,
    {
        &self.points
    }

    /// Whether a sample at `bucket` would add a point.
    pub fn needs_sample(&self, bucket: u32) -> (r: bool)
        ensures
            r == !holds_bucket(self@, bucket),
    {
        let n = self.points.len();
        n == 0 || self.points[n - 1].bucket_index != bucket
    }

    /// Adds a point unless its bucket is already the last one, clearing the
    /// series first when the day has wrapped.
    pub fn record(&mut self, p: HistoryPoint)
        requires
            increasing(old(self)@),
        ensures
            final(self)@ == after_sample(old(self)@, p),
            increasing(final(self)@),
    {
        proof {
            lemma_sample_keeps_order(self.points@, p);
        }
        let n = self.points.len();
        if n > 0 && self.points[n - 1].bucket_index == p.bucket_index {
            return;
        }
        if n > 0 && p.bucket_index <= self.points[n - 1].bucket_index {
            self.points.clear();
        }
        self.points.push(p);
        assert(self.points@ =~= after_sample(old(self)@, p));
    }

    /// One aggregator tick at `bucket`: when the bucket is new, sums the
    /// store's power and records the point. Returns whether it sampled.
    pub fn tick(&mut self, bucket: u32, store: &TelemetryStore, layout: &FieldLayout) -> (r: bool)
        requires
            increasing(old(self)@),
            store.wf(),
        ensures
            increasing(final(self)@),
            r == !holds_bucket(old(self)@, bucket),
            final(self)@ == after_sample(
                old(self)@,
                HistoryPoint {
                    bucket_index: bucket,
                    pv_power: total_pv(store@, *layout, ID_COUNT as int) as u128,
                    load_power: total_load(store@, *layout, ID_COUNT as int) as u128,
                },
            ),
    {
        if !self.needs_sample(bucket) {
            return false;
        }
        let s = store.total_power(layout);
        self.record(HistoryPoint { bucket_index: bucket, pv_power: s.pv_power, load_power: s.load_power });
        true
    }
}

} // verus!
