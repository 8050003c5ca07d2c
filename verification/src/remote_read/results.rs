//! Turning selected points into the series of a query result.

use vstd::prelude::*;

use crate::series;
use crate::series::Label;
use crate::series::LabelView;
use crate::series::MetricSeries;
use crate::series::MetricSeriesView;
use crate::series::Rank;
use crate::stable;
use crate::stable::Ranked;
use crate::text;

verus! {

/// A count of a histogram: a whole number, or the bits of a floating-point one.
#[derive(Debug, Clone, Copy, PartialEq, Eq, Structural)]
pub enum HistogramCount {
    Int(u64),
    Float(u64),
}

/// A run of buckets.
#[derive(Debug, Clone, Copy, PartialEq, Eq, Structural)]
pub struct BucketSpan {
    pub offset: i32,
    pub length: u32,
}

/// What is known of a reset of the counter behind a histogram.
#[derive(Debug, Clone, Copy, PartialEq, Eq, Structural)]
pub enum HistogramResetHint {
    Unknown,
    Yes,
    No,
    Gauge,
}

/// A stored histogram; its floating-point numbers are kept as bits.
#[derive(Debug, PartialEq, Eq)]
pub struct NativeHistogram {
    pub count: Option<HistogramCount>,
    pub sum: u64,
    pub schema: i32,
    pub zero_threshold: u64,
    pub zero_count: Option<HistogramCount>,
    pub negative_spans: Vec<BucketSpan>,
    pub negative_deltas: Vec<i64>,
    pub negative_counts: Vec<u64>,
    pub positive_spans: Vec<BucketSpan>,
    pub positive_deltas: Vec<i64>,
    pub positive_counts: Vec<u64>,
    pub reset_hint: HistogramResetHint,
    pub custom_values: Vec<u64>,
}

/// A stored value: a number as the bits of a floating-point number, a histogram, or something that
/// is neither.
#[derive(Debug, PartialEq, Eq)]
pub enum PointValue {
    Number(u64),
    Histogram(Box<NativeHistogram>),
    Opaque,
}

/// A stored point.
#[derive(Debug, PartialEq, Eq)]
pub struct DataPoint {
    pub timestamp: i64,
    pub value: PointValue,
}

/// How a selected series is shown to the one who asked.
#[derive(Debug, PartialEq, Eq)]
pub enum Visibility {
    /// As it was selected.
    Whole,
    /// Under another identity.
    Shown(MetricSeries),
    /// Not at all.
    Hidden,
}

/// A selected series with its points.
#[derive(Debug, PartialEq, Eq)]
pub struct SeriesPoints {
    pub series: MetricSeries,
    pub visibility: Visibility,
    pub points: Vec<DataPoint>,
}

/// A sample of a result; its value is the bits of a floating-point number.
#[derive(Debug, Clone, Copy, PartialEq, Eq, Structural)]
pub struct PromSample {
    pub value: u64,
    pub timestamp: i64,
}

/// A histogram of a result; the reset hint is the number on the wire.
#[derive(Debug, PartialEq, Eq)]
pub struct PromHistogram {
    pub count: Option<HistogramCount>,
    pub sum: u64,
    pub schema: i32,
    pub zero_threshold: u64,
    pub zero_count: Option<HistogramCount>,
    pub negative_spans: Vec<BucketSpan>,
    pub negative_deltas: Vec<i64>,
    pub negative_counts: Vec<u64>,
    pub positive_spans: Vec<BucketSpan>,
    pub positive_deltas: Vec<i64>,
    pub positive_counts: Vec<u64>,
    pub reset_hint: i32,
    pub timestamp: i64,
    pub custom_values: Vec<u64>,
}

/// A series of a result.
#[derive(Debug, PartialEq, Eq)]
pub struct TimeSeries {
    pub labels: Vec<Label>,
    pub samples: Vec<PromSample>,
    pub histograms: Vec<PromHistogram>,
}

/// A series of a result as a plain value.
#[verifier::ext_equal]
pub struct TimeSeriesView {
    pub labels: Seq<LabelView>,
    pub samples: Seq<PromSample>,
    pub histograms: Seq<PromHistogram>,
}

impl View for TimeSeries {
    type V = TimeSeriesView;

    open spec fn view(&self) -> TimeSeriesView {
        TimeSeriesView {
            labels: series::label_views(self.labels@),
            samples: self.samples@,
            histograms: self.histograms@,
        }
    }
}

/// The result of a query.
#[derive(Debug, PartialEq, Eq)]
pub struct QueryResult {
    pub timeseries: Vec<TimeSeries>,
}

/// The number of a reset hint on the wire.
pub open spec fn reset_hint_number(hint: HistogramResetHint) -> i32 {
    match hint {
        HistogramResetHint::Unknown => 0,
        HistogramResetHint::Yes => 1,
        HistogramResetHint::No => 2,
        HistogramResetHint::Gauge => 3,
    }
}

/// A stored histogram at a time, as a result holds it.
pub open spec fn result_histogram(histogram: NativeHistogram, timestamp: i64) -> PromHistogram {
    PromHistogram {
        count: histogram.count,
        sum: histogram.sum,
        schema: histogram.schema,
        zero_threshold: histogram.zero_threshold,
        zero_count: histogram.zero_count,
        negative_spans: histogram.negative_spans,
        negative_deltas: histogram.negative_deltas,
        negative_counts: histogram.negative_counts,
        positive_spans: histogram.positive_spans,
        positive_deltas: histogram.positive_deltas,
        positive_counts: histogram.positive_counts,
        reset_hint: reset_hint_number(histogram.reset_hint),
        timestamp,
        custom_values: histogram.custom_values,
    }
}

/// A stored histogram at a time, as a result holds it.
pub fn tsink_histogram_to_prom(histogram: NativeHistogram, timestamp: i64) -> (shown: PromHistogram)
    ensures
        shown == result_histogram(histogram, timestamp),
{
    let reset_hint: i32 = match histogram.reset_hint {
        HistogramResetHint::Unknown => 0,
        HistogramResetHint::Yes => 1,
        HistogramResetHint::No => 2,
        HistogramResetHint::Gauge => 3,
    };
    PromHistogram {
        count: histogram.count,
        sum: histogram.sum,
        schema: histogram.schema,
        zero_threshold: histogram.zero_threshold,
        zero_count: histogram.zero_count,
        negative_spans: histogram.negative_spans,
        negative_deltas: histogram.negative_deltas,
        negative_counts: histogram.negative_counts,
        positive_spans: histogram.positive_spans,
        positive_deltas: histogram.positive_deltas,
        positive_counts: histogram.positive_counts,
        reset_hint,
        timestamp,
        custom_values: histogram.custom_values,
    }
}

/// The samples among points, in their order.
pub open spec fn samples_of(points: Seq<DataPoint>) -> Seq<PromSample>
    decreases points.len(),
{
    if points.len() == 0 {
        Seq::empty()
    } else {
        let rest = samples_of(points.drop_last());
        match points.last().value {
            PointValue::Number(value) => rest.push(
                PromSample { value, timestamp: points.last().timestamp },
            ),
            _ => rest,
        }
    }
}

/// The histograms among points, in their order.
pub open spec fn histograms_of(points: Seq<DataPoint>) -> Seq<PromHistogram>
    decreases points.len(),
{
    if points.len() == 0 {
        Seq::empty()
    } else {
        let rest = histograms_of(points.drop_last());
        match points.last().value {
            PointValue::Histogram(histogram) => rest.push(
                result_histogram(*histogram, points.last().timestamp),
            ),
            _ => rest,
        }
    }
}

/// The labels of a series with the name of its metric among them, in order.
pub open spec fn result_labels(identity: MetricSeriesView) -> Seq<LabelView> {
    stable::stable_sorted::<Label>(
        seq![LabelView { name: "__name__"@, value: identity.name }] + identity.labels,
    )
}

/// The series of a result that a series with its points makes, if it has a sample or a histogram.
pub open spec fn result_series(identity: MetricSeriesView, points: Seq<DataPoint>) -> Option<
    TimeSeriesView,
> {
    if samples_of(points).len() == 0 && histograms_of(points).len() == 0 {
        None
    } else {
        Some(
            TimeSeriesView {
                labels: result_labels(identity),
                samples: samples_of(points),
                histograms: histograms_of(points),
            },
        )
    }
}

/// How many samples and how many histograms are among points.
fn point_counts(points: &Vec<DataPoint>) -> (counts: (usize, usize))
    ensures
        counts.0 == samples_of(points@).len(),
        counts.1 == histograms_of(points@).len(),
{
    let mut samples: usize = 0;
    let mut histograms: usize = 0;
    let mut i: usize = 0;
    assert(points@.subrange(0, 0) =~= Seq::<DataPoint>::empty());
    while i < points.len()
        invariant
            i <= points@.len(),
            samples <= i,
            histograms <= i,
            samples == samples_of(points@.subrange(0, i as int)).len(),
            histograms == histograms_of(points@.subrange(0, i as int)).len(),
        decreases points@.len() - i,
    {
        proof {
            assert(points@.subrange(0, i as int + 1).drop_last() =~= points@.subrange(0, i as int));
        }
        match &points[i].value {
            PointValue::Number(_) => {
                samples = samples + 1;
            },
            PointValue::Histogram(_) => {
                histograms = histograms + 1;
            },
            PointValue::Opaque => {},
        }
        i = i + 1;
    }
    assert(points@.subrange(0, i as int) =~= points@);
    (samples, histograms)
}

/// The series of a result that a series with its points makes, if it has a sample or a histogram.
pub fn prom_time_series_from_points(identity: MetricSeries, points: Vec<DataPoint>) -> (made:
    Option<TimeSeries>)
    ensures
        match result_series(identity@, points@) {
            None => made is None,
            Some(shown) => made matches Some(series) && series@ == shown,
        },
{
    let ghost all = points@;
    let (sample_count, histogram_count) = point_counts(&points);
    let mut left = stable::reversed(points);
    let mut samples: Vec<PromSample> = Vec::with_capacity(sample_count);
    let mut histograms: Vec<PromHistogram> = Vec::with_capacity(histogram_count);
    let ghost mut done: int = 0;
    proof {
        assert(all.subrange(0, 0) =~= Seq::<DataPoint>::empty());
    }
    while left.len() > 0
        invariant
            0 <= done,
            done + left@.len() == all.len(),
            forall|i: int|
                0 <= i < left@.len() ==> #[trigger] left@[i] == all[all.len() - 1 - i],
            samples@ == samples_of(all.subrange(0, done)),
            histograms@ == histograms_of(all.subrange(0, done)),
        decreases left@.len(),
    {
        match left.pop() {
            Some(point) => {
                proof {
                    assert(point == all[done]);
                    assert(all.subrange(0, done + 1).drop_last() =~= all.subrange(0, done));
                    assert(all.subrange(0, done + 1).last() == point);
                    done = done + 1;
                }
                match point.value {
                    PointValue::Histogram(histogram) => {
                        histograms.push(tsink_histogram_to_prom(*histogram, point.timestamp));
                    },
                    PointValue::Number(value) => {
                        samples.push(PromSample { value, timestamp: point.timestamp });
                    },
                    PointValue::Opaque => {},
                }
            },
            None => {},
        }
    }
    proof {
        assert(all.subrange(0, done) =~= all);
    }
    if samples.len() == 0 && histograms.len() == 0 {
        return None;
    }
    let ghost shown = identity@;
    let MetricSeries { name, labels: mut rest } = identity;
    let mut labels: Vec<Label> = Vec::with_capacity(rest.len().saturating_add(1));
    labels.push(Label { name: text::owned("__name__"), value: name });
    labels.append(&mut rest);
    proof {
        assert(stable::views(labels@) =~= seq![
            LabelView { name: "__name__"@, value: shown.name },
        ] + shown.labels);
    }
    Some(TimeSeries { labels: stable::stable_sort(labels), samples, histograms })
}

/// The number of points of a series of a result.
pub open spec fn point_count(series: TimeSeriesView) -> nat {
    series.samples.len() + series.histograms.len()
}

/// The time of the first sample or of the first histogram of a series, whichever is earlier.
pub open spec fn first_timestamp(series: TimeSeriesView) -> Option<i64> {
    if series.samples.len() == 0 && series.histograms.len() == 0 {
        None
    } else if series.samples.len() == 0 {
        Some(series.histograms[0].timestamp)
    } else if series.histograms.len() == 0 {
        Some(series.samples[0].timestamp)
    } else if series.samples[0].timestamp <= series.histograms[0].timestamp {
        Some(series.samples[0].timestamp)
    } else {
        Some(series.histograms[0].timestamp)
    }
}

/// Whether a time comes before another; no time comes before any.
pub open spec fn time_before(a: Option<i64>, b: Option<i64>) -> bool {
    match (a, b) {
        (None, Some(_)) => true,
        (Some(x), Some(y)) => x < y,
        _ => false,
    }
}

/// Whether a series of a result comes before another: by its labels, then by the number of its
/// points, then by its first time.
pub open spec fn series_before(a: TimeSeriesView, b: TimeSeriesView) -> bool {
    if a.labels != b.labels {
        series::labels_before(a.labels, b.labels)
    } else if point_count(a) != point_count(b) {
        point_count(a) < point_count(b)
    } else {
        time_before(first_timestamp(a), first_timestamp(b))
    }
}

/// The time of the first sample or of the first histogram of a series, whichever is earlier.
pub fn prom_series_first_timestamp(series: &TimeSeries) -> (first: Option<i64>)
    ensures
        first == first_timestamp(series@),
{
    if series.samples.len() == 0 && series.histograms.len() == 0 {
        None
    } else if series.samples.len() == 0 {
        Some(series.histograms[0].timestamp)
    } else if series.histograms.len() == 0 {
        Some(series.samples[0].timestamp)
    } else {
        let sample: i64 = series.samples[0].timestamp;
        let histogram: i64 = series.histograms[0].timestamp;
        if sample <= histogram {
            Some(sample)
        } else {
            Some(histogram)
        }
    }
}

fn fewer_points(a: &TimeSeries, b: &TimeSeries) -> (rank: Rank)
    ensures
        match rank {
            Rank::Before => point_count(a@) < point_count(b@),
            Rank::Same => point_count(a@) == point_count(b@),
            Rank::After => point_count(a@) > point_count(b@),
        },
{
    let left: u128 = a.samples.len() as u128 + a.histograms.len() as u128;
    let right: u128 = b.samples.len() as u128 + b.histograms.len() as u128;
    if left < right {
        Rank::Before
    } else if left == right {
        Rank::Same
    } else {
        Rank::After
    }
}

/// How two series of a result are ordered.
pub fn compare_prom_series(left: &TimeSeries, right: &TimeSeries) -> (rank: Rank)
    ensures
        match rank {
            Rank::Before => series_before(left@, right@),
            Rank::After => series_before(right@, left@),
            Rank::Same => !series_before(left@, right@) && !series_before(right@, left@),
        },
{
    proof {
        series::lemma_labels_irreflexive(left@.labels);
    }
    match series::rank_labels(&left.labels, &right.labels) {
        Rank::Before => Rank::Before,
        Rank::After => Rank::After,
        Rank::Same => match fewer_points(left, right) {
            Rank::Before => Rank::Before,
            Rank::After => Rank::After,
            Rank::Same => {
                match (prom_series_first_timestamp(left), prom_series_first_timestamp(right)) {
                    (Some(a), Some(b)) => if a < b {
                        Rank::Before
                    } else if b < a {
                        Rank::After
                    } else {
                        Rank::Same
                    },
                    (None, Some(_)) => Rank::Before,
                    (Some(_), None) => Rank::After,
                    (None, None) => Rank::Same,
                }
            },
        },
    }
}

impl Ranked for TimeSeries {
    open spec fn before(a: TimeSeriesView, b: TimeSeriesView) -> bool {
        series_before(a, b)
    }

    proof fn lemma_before_one_way(a: TimeSeriesView, b: TimeSeriesView) {
        if a.labels != b.labels && series::labels_before(b.labels, a.labels) {
            series::lemma_labels_transitive(a.labels, b.labels, a.labels);
            series::lemma_labels_irreflexive(a.labels);
        }
    }

    proof fn lemma_before_ranks(a: TimeSeriesView, b: TimeSeriesView, c: TimeSeriesView) {
        if series_before(c, a) {
            if a.labels != b.labels {
                series::lemma_labels_total(a.labels, b.labels);
                if c.labels != a.labels {
                    series::lemma_labels_transitive(c.labels, a.labels, b.labels);
                }
            }
            if c.labels == b.labels && a.labels != b.labels {
                series::lemma_labels_irreflexive(b.labels);
            }
        }
    }

    fn goes_before(&self, other: &TimeSeries) -> (before: bool) {
        match compare_prom_series(self, other) {
            Rank::Before => true,
            Rank::After => {
                proof {
                    <TimeSeries as Ranked>::lemma_before_one_way(other@, self@);
                }
                false
            },
            Rank::Same => false,
        }
    }
}

} // verus!
