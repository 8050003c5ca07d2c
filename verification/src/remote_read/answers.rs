//! What a query is answered: which series, under which labels, with which points, in which order.

use vstd::prelude::*;
use vstd::utf8::encode_utf8;

use crate::budget::QueryBudgetError;
use crate::remote_read::execution;
use crate::remote_read::execution::SelectedPoints;
use crate::remote_read::execution::SelectedSeries;
use crate::remote_read::request::LabelMatcher;
use crate::remote_read::request::Query;
use crate::remote_read::errors::StorageError;
use crate::remote_read::results;
use crate::remote_read::results::DataPoint;
use crate::remote_read::results::NativeHistogram;
use crate::remote_read::results::PointValue;
use crate::remote_read::results::PromHistogram;
use crate::remote_read::results::PromSample;
use crate::remote_read::results::QueryResult;
use crate::remote_read::results::SeriesPoints;
use crate::remote_read::results::TimeSeries;
use crate::remote_read::results::TimeSeriesView;
use crate::remote_read::results::Visibility;
use crate::remote_read::transform;
use crate::remote_read::union;
use crate::series;
use crate::series::Label;
use crate::series::LabelView;
use crate::series::MetricSeries;
use crate::series::MetricSeriesView;
use crate::stable;
use crate::text;

verus! {

/// Whether a list of bytes stands before another at a place: they agree up to it, and there the
/// first has the smaller byte or ends.
pub open spec fn parts_at(a: Seq<u8>, b: Seq<u8>, k: int) -> bool {
    &&& 0 <= k <= a.len()
    &&& k < b.len()
    &&& forall|i: int| 0 <= i < k ==> #[trigger] a[i] == b[i]
    &&& k == a.len() || a[k] < b[k]
}

/// Whether a text stands before another: its bytes do, at the first place where they part.
#[verifier::opaque]
pub open spec fn text_ahead(a: Seq<char>, b: Seq<char>) -> bool {
    exists|k: int| #[trigger] parts_at(encode_utf8(a), encode_utf8(b), k)
}

/// Whether a label stands before another: by its name, and under one name by its value.
pub open spec fn label_ahead(a: LabelView, b: LabelView) -> bool {
    text_ahead(a.name, b.name) || a.name == b.name && text_ahead(a.value, b.value)
}

/// Whether a list of labels stands before another at a place: they agree up to it, and there the
/// first has the earlier label or ends.
pub open spec fn labels_part_at(a: Seq<LabelView>, b: Seq<LabelView>, k: int) -> bool {
    &&& 0 <= k <= a.len()
    &&& k < b.len()
    &&& forall|i: int| 0 <= i < k ==> #[trigger] a[i] == b[i]
    &&& k == a.len() || label_ahead(a[k], b[k])
}

/// Whether a list of labels stands before another.
#[verifier::opaque]
pub open spec fn labels_ahead(a: Seq<LabelView>, b: Seq<LabelView>) -> bool {
    exists|k: int| #[trigger] labels_part_at(a, b, k)
}

/// Whether a time is that of the first point of a series: of its first sample or of its first
/// histogram, and of no later one of the two.
pub open spec fn starts_at(series: TimeSeriesView, time: i64) -> bool {
    &&& series.samples.len() > 0 && time == series.samples[0].timestamp || series.histograms.len()
        > 0 && time == series.histograms[0].timestamp
    &&& series.samples.len() > 0 ==> time <= series.samples[0].timestamp
    &&& series.histograms.len() > 0 ==> time <= series.histograms[0].timestamp
}

/// Whether a series without a point stands beside one with a point, or both have one and the first
/// starts earlier.
pub open spec fn starts_ahead(a: TimeSeriesView, b: TimeSeriesView) -> bool {
    exists|later: i64|
        #![trigger starts_at(b, later)]
        starts_at(b, later) && ((a.samples.len() == 0 && a.histograms.len() == 0) || exists|
            earlier: i64,
        | #[trigger]
            starts_at(a, earlier) && earlier < later)
}

/// Whether a series of a result stands before another: by its labels, then with the fewer points,
/// then with the earlier start.
pub open spec fn series_ahead(a: TimeSeriesView, b: TimeSeriesView) -> bool {
    let points_a = a.samples.len() + a.histograms.len();
    let points_b = b.samples.len() + b.histograms.len();
    ||| labels_ahead(a.labels, b.labels)
    ||| a.labels == b.labels && points_a < points_b
    ||| a.labels == b.labels && points_a == points_b && starts_ahead(a, b)
}

/// Whether a histogram of a result is a stored one, with every field of it, at a time.
pub open spec fn tells_histogram(shown: PromHistogram, stored: NativeHistogram, time: i64) -> bool {
    &&& shown.timestamp == time
    &&& shown.count == stored.count
    &&& shown.sum == stored.sum
    &&& shown.schema == stored.schema
    &&& shown.zero_threshold == stored.zero_threshold
    &&& shown.zero_count == stored.zero_count
    &&& shown.negative_spans == stored.negative_spans
    &&& shown.negative_deltas == stored.negative_deltas
    &&& shown.negative_counts == stored.negative_counts
    &&& shown.positive_spans == stored.positive_spans
    &&& shown.positive_deltas == stored.positive_deltas
    &&& shown.positive_counts == stored.positive_counts
    &&& shown.custom_values == stored.custom_values
    &&& shown.reset_hint == 0 <==> stored.reset_hint is Unknown
    &&& shown.reset_hint == 1 <==> stored.reset_hint is Yes
    &&& shown.reset_hint == 2 <==> stored.reset_hint is No
    &&& shown.reset_hint == 3 <==> stored.reset_hint is Gauge
}

/// The points that are numbers, in their order.
pub open spec fn numbers_among(points: Seq<DataPoint>) -> Seq<DataPoint> {
    points.filter(|point: DataPoint| point.value is Number)
}

/// The points that are histograms, in their order.
pub open spec fn histograms_among(points: Seq<DataPoint>) -> Seq<DataPoint> {
    points.filter(|point: DataPoint| point.value is Histogram)
}

/// Whether a series of a result tells points: one sample for each number, with its value and its
/// time, one histogram for each histogram, with its time, and nothing else.
pub open spec fn tells_points(series: TimeSeriesView, points: Seq<DataPoint>) -> bool {
    &&& series.samples.len() == numbers_among(points).len()
    &&& forall|k: int|
        0 <= k < series.samples.len() ==> (#[trigger] series.samples[k]).timestamp == numbers_among(
            points,
        )[k].timestamp && PointValue::Number(series.samples[k].value) == numbers_among(
            points,
        )[k].value
    &&& series.histograms.len() == histograms_among(points).len()
    &&& forall|k: int|
        0 <= k < series.histograms.len() ==> tells_histogram(
            #[trigger] series.histograms[k],
            *histograms_among(points)[k].value->Histogram_0,
            histograms_among(points)[k].timestamp,
        )
}

/// Whether labels are those of a series and its name under the label for it, in order.
pub open spec fn tells_identity(labels: Seq<LabelView>, identity: MetricSeriesView) -> bool {
    &&& labels.to_multiset() == identity.labels.to_multiset().insert(
        LabelView { name: "__name__"@, value: identity.name },
    )
    &&& forall|i: int, j: int|
        0 <= i < j < labels.len() ==> !label_ahead(#[trigger] labels[j], #[trigger] labels[i])
}

/// Whether there is a number or a histogram among points.
pub open spec fn has_points(points: Seq<DataPoint>) -> bool {
    exists|i: int|
        0 <= i < points.len() && ((#[trigger] points[i]).value is Number || points[i].value
            is Histogram)
}

/// Whether a selected series is answered: its selector matched, it is not hidden, and it has a
/// number or a histogram.
pub open spec fn answerable(items: Seq<SeriesPoints>, matched: Option<Seq<bool>>, i: int) -> bool {
    &&& 0 <= i < items.len()
    &&& matched matches Some(bits) ==> i < bits.len() && bits[i]
    &&& !(items[i].visibility is Hidden)
    &&& has_points(items[i].points@)
}

/// Whether a series of a result is a selected one: under the identity that it is shown under, with
/// its own points.
#[verifier::opaque]
pub open spec fn tells_item(series: TimeSeriesView, item: SeriesPoints) -> bool {
    &&& item.visibility is Whole ==> tells_identity(series.labels, item.series@)
    &&& item.visibility matches Visibility::Shown(identity) ==> tells_identity(
        series.labels,
        identity@,
    )
    &&& tells_points(series, item.points@)
}

/// Whether places are those of the selected series that are answered, in order, each once.
pub open spec fn places_answered(
    items: Seq<SeriesPoints>,
    matched: Option<Seq<bool>>,
    places: Seq<int>,
) -> bool {
    &&& forall|k: int| 0 <= k < places.len() ==> answerable(items, matched, #[trigger] places[k])
    &&& forall|k: int, l: int| 0 <= k < l < places.len() ==> places[k] < places[l]
    &&& forall|i: int| answerable(items, matched, i) ==> #[trigger] places.contains(i)
}

/// Whether series of a result are those of the places, one for each, in their order.
pub open spec fn tells_places(
    shown: Seq<TimeSeriesView>,
    items: Seq<SeriesPoints>,
    places: Seq<int>,
) -> bool {
    shown.len() == places.len() && forall|k: int|
        0 <= k < places.len() ==> tells_item(#[trigger] shown[k], items[places[k]])
}

proof fn lemma_bytes_ahead(a: Seq<u8>, b: Seq<u8>)
    ensures
        text::bytes_less(a, b) <==> exists|k: int| #[trigger] parts_at(a, b, k),
    decreases a.len(),
{
    if b.len() == 0 {
    } else if a.len() == 0 {
        assert(parts_at(a, b, 0));
    } else if a[0] != b[0] {
        if a[0] < b[0] {
            assert(parts_at(a, b, 0));
        }
        assert forall|k: int| #[trigger] parts_at(a, b, k) implies a[0] < b[0] by {
            if k > 0 {
                assert(a[0] == b[0]);
            }
        }
    } else {
        let x = a.subrange(1, a.len() as int);
        let y = b.subrange(1, b.len() as int);
        lemma_bytes_ahead(x, y);
        if text::bytes_less(x, y) {
            let k = choose|k: int| #[trigger] parts_at(x, y, k);
            assert forall|i: int| 0 <= i < k + 1 implies #[trigger] a[i] == b[i] by {
                if i > 0 {
                    assert(x[i - 1] == y[i - 1]);
                }
            }
            assert(parts_at(a, b, k + 1));
        }
        assert forall|k: int| #[trigger] parts_at(a, b, k) implies text::bytes_less(x, y) by {
            assert(k > 0);
            assert forall|i: int| 0 <= i < k - 1 implies #[trigger] x[i] == y[i] by {
                assert(a[i + 1] == b[i + 1]);
            }
            assert(parts_at(x, y, k - 1));
        }
    }
}

/// A text comes before another where its bytes do, at the first place where they part.
pub proof fn lemma_text_order(a: Seq<char>, b: Seq<char>)
    ensures
        text::text_less(a, b) <==> text_ahead(a, b),
{
    reveal(text_ahead);
    lemma_bytes_ahead(encode_utf8(a), encode_utf8(b));
}

proof fn lemma_label_order(a: LabelView, b: LabelView)
    ensures
        series::label_before(a, b) <==> label_ahead(a, b),
{
    lemma_text_order(a.name, b.name);
    lemma_text_order(a.value, b.value);
}

proof fn lemma_labels_order(a: Seq<LabelView>, b: Seq<LabelView>)
    ensures
        series::labels_before(a, b) <==> labels_ahead(a, b),
    decreases a.len(),
{
    reveal(labels_ahead);
    if b.len() == 0 {
    } else if a.len() == 0 {
        assert(labels_part_at(a, b, 0));
    } else if a[0] != b[0] {
        lemma_label_order(a[0], b[0]);
        if label_ahead(a[0], b[0]) {
            assert(labels_part_at(a, b, 0));
        }
        assert forall|k: int| #[trigger] labels_part_at(a, b, k) implies label_ahead(
            a[0],
            b[0],
        ) by {
            if k > 0 {
                assert(a[0] == b[0]);
            }
        }
    } else {
        let x = a.drop_first();
        let y = b.drop_first();
        lemma_labels_order(x, y);
        if series::labels_before(x, y) {
            let k = choose|k: int| #[trigger] labels_part_at(x, y, k);
            assert forall|i: int| 0 <= i < k + 1 implies #[trigger] a[i] == b[i] by {
                if i > 0 {
                    assert(x[i - 1] == y[i - 1]);
                }
            }
            assert(labels_part_at(a, b, k + 1));
        }
        assert forall|k: int| #[trigger] labels_part_at(a, b, k) implies series::labels_before(
            x,
            y,
        ) by {
            if k == 0 {
                lemma_label_order(a[0], b[0]);
                series::lemma_label_irreflexive(a[0]);
            }
            assert forall|i: int| 0 <= i < k - 1 implies #[trigger] x[i] == y[i] by {
                assert(a[i + 1] == b[i + 1]);
            }
            assert(labels_part_at(x, y, k - 1));
        }
    }
}

/// A series that is selected comes before another by the name of its metric, and under one name by
/// its labels.
pub proof fn lemma_identity_order(a: MetricSeriesView, b: MetricSeriesView)
    ensures
        union::identity_before(a, b) <==> text_ahead(a.name, b.name) || a.name == b.name
            && labels_ahead(a.labels, b.labels),
{
    lemma_text_order(a.name, b.name);
    lemma_labels_order(a.labels, b.labels);
}

/// The members of a list of series are those that stand somewhere in it.
pub proof fn lemma_members_stand_in_list(list: Seq<MetricSeries>, identity: MetricSeriesView)
    ensures
        union::members(list).contains(identity) <==> exists|i: int|
            0 <= i < list.len() && (#[trigger] list[i]).name@ == identity.name
                && series::label_views(list[i].labels@) == identity.labels,
{
    if union::members(list).contains(identity) {
        let i = choose|i: int| union::stands(list, identity, i);
        assert(list[i]@ == identity);
    }
    if exists|i: int|
        0 <= i < list.len() && (#[trigger] list[i]).name@ == identity.name && series::label_views(
            list[i].labels@,
        ) == identity.labels {
        let i = choose|i: int|
            0 <= i < list.len() && (#[trigger] list[i]).name@ == identity.name
                && series::label_views(list[i].labels@) == identity.labels;
        assert(list[i]@ == identity);
        assert(union::stands(list, identity, i));
    }
}

proof fn lemma_starts(series: TimeSeriesView, time: i64)
    ensures
        starts_at(series, time) <==> results::first_timestamp(series) == Some(time),
{
}

/// A series of a result comes before another by its labels; where these are the same, with the
/// fewer points; where these are as many, with the earlier start.
pub proof fn lemma_series_order(a: TimeSeriesView, b: TimeSeriesView)
    ensures
        results::series_before(a, b) <==> series_ahead(a, b),
{
    lemma_labels_order(a.labels, b.labels);
    if a.labels == b.labels {
        series::lemma_labels_irreflexive(a.labels);
    }
    assert forall|time: i64| #[trigger] starts_at(a, time) <==> results::first_timestamp(a) == Some(
        time,
    ) by {
        lemma_starts(a, time);
    }
    assert forall|time: i64| #[trigger] starts_at(b, time) <==> results::first_timestamp(b) == Some(
        time,
    ) by {
        lemma_starts(b, time);
    }
    if a.labels == b.labels && results::point_count(a) == results::point_count(b) {
        match (results::first_timestamp(a), results::first_timestamp(b)) {
            (Some(x), Some(y)) => {
                assert(starts_at(a, x));
                assert(starts_at(b, y));
            },
            (None, Some(y)) => {
                assert(starts_at(b, y));
            },
            _ => {},
        }
    }
}

proof fn lemma_points_told(points: Seq<DataPoint>)
    ensures
        results::samples_of(points).len() == numbers_among(points).len(),
        forall|k: int|
            0 <= k < numbers_among(points).len() ==> (#[trigger] results::samples_of(
                points,
            )[k]).timestamp == numbers_among(points)[k].timestamp && PointValue::Number(
                results::samples_of(points)[k].value,
            ) == numbers_among(points)[k].value,
        results::histograms_of(points).len() == histograms_among(points).len(),
        forall|k: int|
            0 <= k < histograms_among(points).len() ==> tells_histogram(
                #[trigger] results::histograms_of(points)[k],
                *histograms_among(points)[k].value->Histogram_0,
                histograms_among(points)[k].timestamp,
            ),
        has_points(points) <==> numbers_among(points).len() + histograms_among(points).len() > 0,
    decreases points.len(),
{
    reveal(Seq::filter);
    if points.len() > 0 {
        let rest = points.drop_last();
        lemma_points_told(rest);
        if has_points(rest) {
            let i = choose|i: int|
                0 <= i < rest.len() && ((#[trigger] rest[i]).value is Number || rest[i].value
                    is Histogram);
            assert(points[i] == rest[i]);
        }
        if has_points(points) && points.last().value is Opaque {
            let i = choose|i: int|
                0 <= i < points.len() && ((#[trigger] points[i]).value is Number || points[i].value
                    is Histogram);
            assert(rest[i] == points[i]);
        }
        assert(points.last() == points[points.len() - 1]);
    }
}

proof fn lemma_identity_told(identity: MetricSeriesView)
    ensures
        tells_identity(results::result_labels(identity), identity),
{
    broadcast use vstd::seq_lib::group_to_multiset_ensures;

    let named = LabelView { name: "__name__"@, value: identity.name };
    let all = seq![named] + identity.labels;
    let labels = results::result_labels(identity);
    stable::lemma_stable_sorted::<Label>(all);
    vstd::seq_lib::lemma_multiset_commutative(seq![named], identity.labels);
    assert(seq![named] =~= Seq::<LabelView>::empty().push(named));
    assert(all.to_multiset() =~= identity.labels.to_multiset().insert(named));
    assert forall|i: int, j: int| 0 <= i < j < labels.len() implies !label_ahead(
        #[trigger] labels[j],
        #[trigger] labels[i],
    ) by {
        lemma_label_order(labels[j], labels[i]);
        assert(!<Label as stable::Ranked>::before(labels[j], labels[i]));
    }
}

/// A series with its points makes a series of a result exactly where there is a number or a
/// histogram among the points. Its samples are the numbers, in their order, each with the value and
/// the time of its own point; its histograms are the histograms, in their order, each with every
/// field and the time of its own point; its labels are those of the series and the name of its
/// metric under `__name__`, in order.
pub proof fn lemma_series_tells_its_points(identity: MetricSeriesView, points: Seq<DataPoint>)
    ensures
        results::result_series(identity, points) is Some <==> has_points(points),
        results::result_series(identity, points) matches Some(series) ==> tells_points(
            series,
            points,
        ) && tells_identity(series.labels, identity),
{
    lemma_points_told(points);
    lemma_identity_told(identity);
}

proof fn lemma_kept_told(items: Seq<SeriesPoints>, matched: Option<Seq<bool>>) -> (places: Seq<int>)
    ensures
        places_answered(items, matched, places),
        tells_places(transform::kept_series(items, matched), items, places),
    decreases items.len(),
{
    if items.len() == 0 {
        Seq::empty()
    } else {
        let rest = items.drop_last();
        let last = items.len() - 1;
        let fewer = lemma_kept_told(rest, matched);
        let kept = transform::kept_series(rest, matched);
        assert forall|i: int| 0 <= i < last implies answerable(items, matched, i) == #[trigger] answerable(
            rest,
            matched,
            i,
        ) by {
            assert(rest[i] == items[i]);
        }
        assert forall|k: int| 0 <= k < fewer.len() implies tells_item(
            #[trigger] kept[k],
            items[fewer[k]],
        ) && answerable(items, matched, fewer[k]) && fewer[k] < last by {
            assert(answerable(rest, matched, fewer[k]));
            assert(rest[fewer[k]] == items[fewer[k]]);
        }
        match transform::shown_identity(items.last()) {
            Some(identity) => lemma_series_tells_its_points(identity, items.last().points@),
            None => {},
        }
        assert(items.last() == items[last]);
        if answerable(items, matched, last) {
            let places = fewer.push(last);
            let shown = transform::kept_series(items, matched);
            assert(shown.len() == kept.len() + 1 && shown.drop_last() =~= kept);
            assert(tells_item(shown.last(), items[last])) by {
                reveal(tells_item);
            }
            assert forall|k: int| 0 <= k < places.len() implies tells_item(
                #[trigger] shown[k],
                items[places[k]],
            ) && answerable(items, matched, places[k]) by {
                if k < last && k < fewer.len() {
                    assert(shown[k] == kept[k]);
                }
            }
            assert forall|i: int| answerable(items, matched, i) implies #[trigger] places.contains(
                i,
            ) by {
                if i < last {
                    assert(answerable(rest, matched, i));
                    assert(fewer.contains(i));
                    let k = choose|k: int| 0 <= k < fewer.len() && fewer[k] == i;
                    assert(places[k] == i);
                } else {
                    assert(places[fewer.len() as int] == last);
                }
            }
            places
        } else {
            assert(transform::kept_series(items, matched) == kept);
            assert forall|i: int| answerable(items, matched, i) implies #[trigger] fewer.contains(
                i,
            ) by {
                assert(i < last);
                assert(answerable(rest, matched, i));
            }
            fewer
        }
    }
}

/// Whether series of a result are those of selected series: of each that is answered one, of the
/// others none, in the order of series.
pub open spec fn answers(
    shown: Seq<TimeSeriesView>,
    items: Seq<SeriesPoints>,
    matched: Option<Seq<bool>>,
) -> bool {
    &&& forall|i: int, j: int|
        0 <= i < j < shown.len() ==> !series_ahead(#[trigger] shown[j], #[trigger] shown[i])
    &&& exists|kept: Seq<TimeSeriesView>, places: Seq<int>|
        #![trigger tells_places(kept, items, places)]
        places_answered(items, matched, places) && tells_places(kept, items, places)
            && shown.to_multiset() == kept.to_multiset()
}

/// The series of a query result are those of the selected series whose selector matched, that are
/// not hidden and that have a number or a histogram: one of each, under the identity that it is
/// shown under and with its own points, and none of any other. They stand in order.
pub proof fn lemma_result_answers(
    result: QueryResult,
    items: Seq<SeriesPoints>,
    matched: Option<Vec<bool>>,
)
    requires
        stable::views(result.timeseries@) == stable::stable_sorted::<TimeSeries>(
            transform::kept_series(items, transform::bit_view(matched)),
        ),
    ensures
        answers(
            stable::views(result.timeseries@),
            items,
            match matched {
                Some(bits) => Some(bits@),
                None => None,
            },
        ),
{
    let bits = transform::bit_view(matched);
    let kept = transform::kept_series(items, bits);
    let shown = stable::views(result.timeseries@);
    let places = lemma_kept_told(items, bits);
    stable::lemma_stable_sorted::<TimeSeries>(kept);
    assert forall|i: int, j: int| 0 <= i < j < shown.len() implies !series_ahead(
        #[trigger] shown[j],
        #[trigger] shown[i],
    ) by {
        lemma_series_order(shown[j], shown[i]);
        assert(!<TimeSeries as stable::Ranked>::before(shown[j], shown[i]));
    }
    assert(tells_places(kept, items, places));
}

/// Whether the points that came are those that were asked for: of each series that was selected,
/// in the order they were asked for, with one bit each.
pub open spec fn came_as_asked(selected: SelectedSeries, points: SelectedPoints) -> bool {
    &&& points.series@.len() == selected.series@.len()
    &&& forall|i: int|
        0 <= i < selected.series@.len() ==> (#[trigger] points.series@[i]).series.name@
            == selected.series@[i].name@ && series::label_views(points.series@[i].series.labels@)
            == series::label_views(selected.series@[i].labels@)
    &&& points.matched matches Some(bits) && bits@.len() == selected.series@.len()
}

/// A query that is answered had its matchers built into a selection, had the series of that
/// selection selected, and had the points of those series asked for from its start to its end, the
/// end among them; the answer is made of the points that came.
pub proof fn lemma_query_answered_from_its_range<
    S,
    B: FnOnce(&Vec<LabelMatcher>) -> Result<S, String>,
    F: FnOnce(&S) -> Result<SelectedSeries, StorageError>,
    G: FnOnce(&Vec<MetricSeries>, i64, i64) -> Result<SelectedPoints, StorageError>,
    R: Fn(u64) -> Result<(), QueryBudgetError>,
    Z: Fn(u64) -> Result<(), QueryBudgetError>,
    O: Fn(u64) -> Result<(), QueryBudgetError>,
>(
    query: Query,
    build: B,
    select_series: F,
    select_points: G,
    reserve: R,
    resize: Z,
    observe: O,
    result: QueryResult,
) -> (came: (S, SelectedSeries, SelectedPoints, i64))
    requires
        execution::query_answered(
            query,
            build,
            select_series,
            select_points,
            reserve,
            resize,
            observe,
            result,
        ),
    ensures
        call_ensures(build, (&query.matchers,), Ok::<S, String>(came.0)),
        call_ensures(select_series, (&came.0,), Ok::<SelectedSeries, StorageError>(came.1)),
        call_ensures(
            select_points,
            (&came.1.series, query.start_timestamp_ms, came.3),
            Ok::<SelectedPoints, StorageError>(came.2),
        ),
        came.3 == i64::MAX || came.3 == query.end_timestamp_ms + 1,
        came.3 >= query.end_timestamp_ms,
        query.end_timestamp_ms < i64::MAX ==> came.3 == query.end_timestamp_ms + 1,
        came_as_asked(came.1, came.2),
        came.2.matched matches Some(bits) && answers(
            stable::views(result.timeseries@),
            came.2.series@,
            Some(bits@),
        ),
{
    let (selection, selected, points) = choose|
        selection: S,
        selected: SelectedSeries,
        points: SelectedPoints,
    | #[trigger]
        call_ensures(select_series, (&selection,), Ok::<SelectedSeries, StorageError>(selected))
            && #[trigger] call_ensures(
            select_points,
            (&selected.series, query.start_timestamp_ms, execution::range_end(query)),
            Ok::<SelectedPoints, StorageError>(points),
        ) && execution::may_build(build, query, selection) && execution::selected_series_problem(
            selected,
        ) is None && execution::selected_points_problem(selected.series@, points) is None
            && stable::views(result.timeseries@) == stable::stable_sorted::<TimeSeries>(
            transform::kept_series(points.series@, transform::bit_view(points.matched)),
        ) && transform::paid_for(reserve, resize, observe, points.series@, result);
    lemma_result_answers(result, points.series@, points.matched);
    assert forall|i: int| 0 <= i < selected.series@.len() implies (#[trigger] points.series@[
        i
    ]).series.name@ == selected.series@[i].name@ && series::label_views(
        points.series@[i].series.labels@,
    ) == series::label_views(selected.series@[i].labels@) by {
        assert(points.series@[i].series@ == selected.series@[i]@);
    }
    (selection, selected, points, execution::range_end(query))
}

} // verus!
