//! Making a query result of selected points within a query budget.

use vstd::layout;
use vstd::prelude::*;

use crate::budget;
use crate::budget::QueryBudgetError;
use crate::capacity;
use crate::remote_read::model;
use crate::remote_read::results;
use crate::remote_read::results::BucketSpan;
use crate::remote_read::results::DataPoint;
use crate::remote_read::results::NativeHistogram;
use crate::remote_read::results::PointValue;
use crate::remote_read::results::PromHistogram;
use crate::remote_read::results::PromSample;
use crate::remote_read::results::QueryResult;
use crate::remote_read::results::SeriesPoints;
use crate::remote_read::results::TimeSeries;
use crate::remote_read::results::TimeSeriesView;
use crate::remote_read::results::Visibility;
use crate::series::Label;
use crate::series::MetricSeriesView;
use crate::sizes;
use crate::stable;
use crate::text;

verus! {

/// The bytes of a list of items of a type.
pub open spec fn list_of<T>(count: nat) -> nat {
    model::list_bytes(count, layout::size_of::<T>()) as nat
}

/// The least that the heap of a list is modeled to hold: room for its items.
pub(crate) fn modeled_list<T>(items: &Vec<T>) -> (bytes: u64)
    ensures
        bytes >= list_of::<T>(items@.len()),
{
    let room = capacity::vec_capacity(items);
    proof {
        lemma_list_grows::<T>(items@.len(), room as nat);
    }
    model::modeled_vec_capacity_bytes::<T>(room)
}

proof fn lemma_list_grows<T>(less: nat, more: nat)
    requires
        less <= more,
    ensures
        list_of::<T>(less) <= list_of::<T>(more),
{
    let size = layout::size_of::<T>();
    assert(less * size <= more * size) by (nonlinear_arith)
        requires
            less <= more,
            size >= 0,
    ;
}

pub(crate) fn modeled_text(value: &String) -> (bytes: u64)
    ensures
        bytes >= model::text_bytes(text::utf8_len(value@)),
{
    model::modeled_text_bytes(capacity::string_capacity(value))
}

/// The least that the heap of a label is modeled to hold: its texts.
pub open spec fn label_floor(label: Label) -> nat {
    model::text_bytes(text::utf8_len(label.name@)) as nat + model::text_bytes(
        text::utf8_len(label.value@),
    ) as nat
}

/// The bytes that the heap of a label is modeled to hold, with the room its texts have.
pub fn modeled_label_heap_retained_bytes(label: &Label) -> (bytes: u64)
    ensures
        bytes >= sizes::sat64(label_floor(*label) as int),
{
    modeled_text(&label.name).saturating_add(modeled_text(&label.value))
}

/// The least that the heap of labels is modeled to hold: their texts.
pub open spec fn labels_floor(labels: Seq<Label>) -> nat {
    sizes::total(Seq::new(labels.len(), |i: int| label_floor(labels[i])))
}

pub(crate) fn modeled_labels(labels: &Vec<Label>) -> (bytes: u64)
    ensures
        bytes >= sizes::sat64(labels_floor(labels@) as int),
{
    let ghost parts = Seq::new(labels@.len(), |i: int| label_floor(labels@[i]));
    let mut bytes: u64 = 0;
    let mut i: usize = 0;
    while i < labels.len()
        invariant
            i <= labels@.len(),
            parts == Seq::new(labels@.len(), |k: int| label_floor(labels@[k])),
            bytes >= sizes::sat64(sizes::total(parts.subrange(0, i as int)) as int),
        decreases labels@.len() - i,
    {
        proof {
            sizes::lemma_total_step(parts, i as int);
        }
        bytes = bytes.saturating_add(modeled_label_heap_retained_bytes(&labels[i]));
        i = i + 1;
    }
    assert(parts.subrange(0, i as int) =~= parts);
    bytes
}

/// The least that a stored histogram is modeled to take in a result: its lists.
pub open spec fn histogram_floor(histogram: NativeHistogram) -> nat {
    list_of::<BucketSpan>(histogram.negative_spans@.len()) + list_of::<i64>(
        histogram.negative_deltas@.len(),
    ) + list_of::<u64>(histogram.negative_counts@.len()) + list_of::<BucketSpan>(
        histogram.positive_spans@.len(),
    ) + list_of::<i64>(histogram.positive_deltas@.len()) + list_of::<u64>(
        histogram.positive_counts@.len(),
    ) + list_of::<u64>(histogram.custom_values@.len())
}

/// The bytes that a stored histogram is modeled to take in a result, with the room its lists have.
pub fn modeled_prom_histogram_transform_upper_bytes(histogram: &NativeHistogram) -> (bytes: u64)
    ensures
        bytes >= sizes::sat64(histogram_floor(*histogram) as int),
{
    model::modeled_vec_capacity_bytes::<BucketSpan>(
        histogram.negative_spans.len(),
    ).saturating_add(modeled_list(&histogram.negative_deltas)).saturating_add(
        modeled_list(&histogram.negative_counts),
    ).saturating_add(
        model::modeled_vec_capacity_bytes::<BucketSpan>(histogram.positive_spans.len()),
    ).saturating_add(modeled_list(&histogram.positive_deltas)).saturating_add(
        modeled_list(&histogram.positive_counts),
    ).saturating_add(modeled_list(&histogram.custom_values))
}

/// The least that the histograms among points are modeled to take in a result.
pub open spec fn point_histograms_floor(points: Seq<DataPoint>) -> nat
    decreases points.len(),
{
    if points.len() == 0 {
        0
    } else {
        point_histograms_floor(points.drop_last()) + match points.last().value {
            PointValue::Histogram(histogram) => histogram_floor(*histogram),
            _ => 0,
        }
    }
}

/// The least that a series with its points is modeled to take in a result: its labels with the name
/// of its metric, its samples and its histograms.
pub open spec fn item_floor(item: SeriesPoints) -> nat {
    list_of::<Label>(sizes::sat_size(item.series.labels@.len() as int + 1) as nat) + model::text_bytes(
        text::utf8_len("__name__"@),
    ) as nat + model::text_bytes(text::utf8_len(item.series.name@)) as nat + labels_floor(
        item.series.labels@,
    ) + list_of::<PromSample>(results::samples_of(item.points@).len()) + list_of::<PromHistogram>(
        results::histograms_of(item.points@).len(),
    ) + point_histograms_floor(item.points@)
}

fn modeled_item(item: &SeriesPoints) -> (bytes: u64)
    ensures
        bytes >= sizes::sat64(item_floor(*item) as int),
{
    let mut samples: usize = 0;
    let mut histograms: usize = 0;
    let mut histogram_bytes: u64 = 0;
    let mut i: usize = 0;
    assert(item.points@.subrange(0, 0) =~= Seq::<DataPoint>::empty());
    while i < item.points.len()
        invariant
            i <= item.points@.len(),
            samples <= i,
            histograms <= i,
            samples == results::samples_of(item.points@.subrange(0, i as int)).len(),
            histograms == results::histograms_of(item.points@.subrange(0, i as int)).len(),
            histogram_bytes >= sizes::sat64(
                point_histograms_floor(item.points@.subrange(0, i as int)) as int,
            ),
        decreases item.points@.len() - i,
    {
        proof {
            assert(item.points@.subrange(0, i as int + 1).drop_last() =~= item.points@.subrange(
                0,
                i as int,
            ));
        }
        match &item.points[i].value {
            PointValue::Number(_) => {
                samples = samples + 1;
            },
            PointValue::Histogram(histogram) => {
                histograms = histograms + 1;
                histogram_bytes =
                histogram_bytes.saturating_add(
                    modeled_prom_histogram_transform_upper_bytes(histogram),
                );
            },
            PointValue::Opaque => {},
        }
        i = i + 1;
    }
    assert(item.points@.subrange(0, i as int) =~= item.points@);
    let labels = item.series.labels.len();
    model::modeled_vec_capacity_bytes::<Label>(labels.saturating_add(1)).saturating_add(
        model::modeled_owned_str_bytes("__name__"),
    ).saturating_add(modeled_text(&item.series.name)).saturating_add(
        modeled_labels(&item.series.labels),
    ).saturating_add(model::modeled_vec_capacity_bytes::<PromSample>(samples)).saturating_add(
        model::modeled_vec_capacity_bytes::<PromHistogram>(histograms),
    ).saturating_add(histogram_bytes)
}

/// The least that selected series are modeled to take in a result.
pub open spec fn transform_floor(items: Seq<SeriesPoints>) -> nat {
    list_of::<TimeSeries>(items.len()) + sizes::total(
        Seq::new(items.len(), |i: int| item_floor(items[i])),
    )
}

/// The bytes that selected series are modeled to take in a result, with the room their texts and
/// lists have.
pub fn modeled_prom_transform_upper_bytes(items: &Vec<SeriesPoints>) -> (bytes: u64)
    ensures
        bytes >= sizes::sat64(transform_floor(items@) as int),
{
    let ghost parts = Seq::new(items@.len(), |i: int| item_floor(items@[i]));
    let mut bytes: u64 = 0;
    let mut i: usize = 0;
    while i < items.len()
        invariant
            i <= items@.len(),
            parts == Seq::new(items@.len(), |k: int| item_floor(items@[k])),
            bytes >= sizes::sat64(sizes::total(parts.subrange(0, i as int)) as int),
        decreases items@.len() - i,
    {
        proof {
            sizes::lemma_total_step(parts, i as int);
        }
        bytes = bytes.saturating_add(modeled_item(&items[i]));
        i = i + 1;
    }
    assert(parts.subrange(0, i as int) =~= parts);
    model::modeled_vec_capacity_bytes::<TimeSeries>(items.len()).saturating_add(bytes)
}

/// The least that a histogram of a result is modeled to hold: its lists.
pub open spec fn held_histogram_floor(histogram: PromHistogram) -> nat {
    list_of::<BucketSpan>(histogram.negative_spans@.len()) + list_of::<i64>(
        histogram.negative_deltas@.len(),
    ) + list_of::<u64>(histogram.negative_counts@.len()) + list_of::<BucketSpan>(
        histogram.positive_spans@.len(),
    ) + list_of::<i64>(histogram.positive_deltas@.len()) + list_of::<u64>(
        histogram.positive_counts@.len(),
    ) + list_of::<u64>(histogram.custom_values@.len())
}

/// The bytes that a histogram of a result is modeled to hold, with the room its lists have.
pub fn modeled_prom_histogram_retained_bytes(histogram: &PromHistogram) -> (bytes: u64)
    ensures
        bytes >= sizes::sat64(held_histogram_floor(*histogram) as int),
{
    modeled_list(&histogram.negative_spans).saturating_add(
        modeled_list(&histogram.negative_deltas),
    ).saturating_add(modeled_list(&histogram.negative_counts)).saturating_add(
        modeled_list(&histogram.positive_spans),
    ).saturating_add(modeled_list(&histogram.positive_deltas)).saturating_add(
        modeled_list(&histogram.positive_counts),
    ).saturating_add(modeled_list(&histogram.custom_values))
}

/// The least that the histograms of a series of a result are modeled to hold.
pub open spec fn held_histograms_floor(histograms: Seq<PromHistogram>) -> nat {
    sizes::total(Seq::new(histograms.len(), |i: int| held_histogram_floor(histograms[i])))
}

fn modeled_histograms(histograms: &Vec<PromHistogram>) -> (bytes: u64)
    ensures
        bytes >= sizes::sat64(held_histograms_floor(histograms@) as int),
{
    let ghost parts = Seq::new(histograms@.len(), |i: int| held_histogram_floor(histograms@[i]));
    let mut bytes: u64 = 0;
    let mut i: usize = 0;
    while i < histograms.len()
        invariant
            i <= histograms@.len(),
            parts == Seq::new(histograms@.len(), |k: int| held_histogram_floor(histograms@[k])),
            bytes >= sizes::sat64(sizes::total(parts.subrange(0, i as int)) as int),
        decreases histograms@.len() - i,
    {
        proof {
            sizes::lemma_total_step(parts, i as int);
        }
        bytes = bytes.saturating_add(modeled_prom_histogram_retained_bytes(&histograms[i]));
        i = i + 1;
    }
    assert(parts.subrange(0, i as int) =~= parts);
    bytes
}

/// The least that a series of a result is modeled to hold: its labels, samples and histograms.
pub open spec fn held_series_floor(series: TimeSeries) -> nat {
    list_of::<Label>(series.labels@.len()) + labels_floor(series.labels@) + list_of::<PromSample>(
        series.samples@.len(),
    ) + list_of::<PromHistogram>(series.histograms@.len()) + held_histograms_floor(
        series.histograms@,
    )
}

/// The least that a result is modeled to hold.
pub open spec fn held_result_floor(series: Seq<TimeSeries>) -> nat {
    list_of::<TimeSeries>(series.len()) + sizes::total(
        Seq::new(series.len(), |i: int| held_series_floor(series[i])),
    )
}

/// The bytes that a result is modeled to hold, with the room its texts and lists have.
pub fn modeled_prom_query_result_retained_bytes(result: &QueryResult) -> (bytes: u64)
    ensures
        bytes >= sizes::sat64(held_result_floor(result.timeseries@) as int),
{
    let series = &result.timeseries;
    let ghost parts = Seq::new(series@.len(), |i: int| held_series_floor(series@[i]));
    let mut bytes: u64 = 0;
    let mut i: usize = 0;
    while i < series.len()
        invariant
            i <= series@.len(),
            parts == Seq::new(series@.len(), |k: int| held_series_floor(series@[k])),
            bytes >= sizes::sat64(sizes::total(parts.subrange(0, i as int)) as int),
        decreases series@.len() - i,
    {
        proof {
            sizes::lemma_total_step(parts, i as int);
        }
        let one = &series[i];
        let held = modeled_list(&one.labels).saturating_add(
            modeled_labels(&one.labels),
        ).saturating_add(modeled_list(&one.samples)).saturating_add(
            modeled_list(&one.histograms),
        ).saturating_add(modeled_histograms(&one.histograms));
        bytes = bytes.saturating_add(held);
        i = i + 1;
    }
    assert(parts.subrange(0, i as int) =~= parts);
    modeled_list(series).saturating_add(bytes)
}

/// The identity under which a selected series is shown.
pub open spec fn shown_identity(item: SeriesPoints) -> Option<MetricSeriesView> {
    match item.visibility {
        Visibility::Whole => Some(item.series@),
        Visibility::Shown(identity) => Some(identity@),
        Visibility::Hidden => None,
    }
}

/// Whether the selector at a place was matched; without bits, each was.
pub open spec fn selector_matched(matched: Option<Seq<bool>>, i: int) -> bool {
    match matched {
        None => true,
        Some(bits) => 0 <= i < bits.len() && bits[i],
    }
}

/// The series of a result that selected series make, in the order they were selected: those whose
/// selector was matched, that are shown, and that have a sample or a histogram.
pub open spec fn kept_series(items: Seq<SeriesPoints>, matched: Option<Seq<bool>>) -> Seq<
    TimeSeriesView,
>
    decreases items.len(),
{
    if items.len() == 0 {
        Seq::empty()
    } else {
        let rest = kept_series(items.drop_last(), matched);
        if !selector_matched(matched, items.len() - 1) {
            rest
        } else {
            match shown_identity(items.last()) {
                None => rest,
                Some(identity) => match results::result_series(identity, items.last().points@) {
                    None => rest,
                    Some(series) => rest.push(series),
                },
            }
        }
    }
}

/// The bits of selectors.
pub open spec fn bit_view(matched: Option<Vec<bool>>) -> Option<Seq<bool>> {
    match matched {
        Some(bits) => Some(bits@),
        None => None,
    }
}

/// Whether a refusal by one of the parts of a query budget is warranted.
pub open spec fn budget_refusal<
    C: Fn() -> Result<(), QueryBudgetError>,
    R: Fn(u64) -> Result<(), QueryBudgetError>,
    S: Fn(u64) -> Result<(), QueryBudgetError>,
    O: Fn(u64) -> Result<(), QueryBudgetError>,
>(checkpoint: C, reserve: R, resize: S, observe: O, error: QueryBudgetError) -> bool {
    ||| budget::may_stop(checkpoint, error)
    ||| exists|amount: u64| #[trigger] budget::refused(reserve, amount, error)
    ||| exists|amount: u64| #[trigger] budget::refused(resize, amount, error)
    ||| exists|amount: u64| #[trigger] budget::refused(observe, amount, error)
}

fn widest(series: &TimeSeries) -> (size: u64)
    ensures
        size == sizes::greatest(
            sizes::greatest(series.labels@.len() as int, series.samples@.len() as int),
            series.histograms@.len() as int,
        ),
{
    let labels = series.labels.len();
    let samples = series.samples.len();
    let histograms = series.histograms.len();
    let wider = if labels >= samples {
        labels
    } else {
        samples
    };
    if wider >= histograms {
        wider as u64
    } else {
        histograms as u64
    }
}

fn show_item(item: SeriesPoints) -> (made: Option<TimeSeries>)
    ensures
        match shown_identity(item) {
            None => made is None,
            Some(identity) => match results::result_series(identity, item.points@) {
                None => made is None,
                Some(shown) => made matches Some(series) && series@ == shown,
            },
        },
{
    let SeriesPoints { series, visibility, points } = item;
    match visibility {
        Visibility::Whole => results::prom_time_series_from_points(series, points),
        Visibility::Shown(identity) => results::prom_time_series_from_points(identity, points),
        Visibility::Hidden => None,
    }
}

/// Whether a query budget granted a result of selected series: at least what making it takes before
/// it was made, at least what it holds once it was, and the number of its series.
pub open spec fn paid_for<
    R: Fn(u64) -> Result<(), QueryBudgetError>,
    S: Fn(u64) -> Result<(), QueryBudgetError>,
    O: Fn(u64) -> Result<(), QueryBudgetError>,
>(reserve: R, resize: S, observe: O, items: Seq<SeriesPoints>, result: QueryResult) -> bool {
    &&& exists|upper: u64|
        upper >= sizes::sat64(transform_floor(items) as int) && #[trigger] budget::granted(
            reserve,
            upper,
        )
    &&& exists|held: u64|
        held >= sizes::sat64(held_result_floor(result.timeseries@) as int)
            && #[trigger] budget::granted(resize, held)
    &&& budget::granted(observe, result.timeseries@.len() as u64)
}

/// Makes the result of a query of selected series: those whose selector was matched, that are shown
/// and that have a sample or a histogram, in order. `checkpoint` asks whether to go on, `reserve`
/// reserves what the result may take, `resize` changes that to what it took, and `observe` sees the
/// size of each list that is made.
pub fn guarded_prom_query_result<
    C: Fn() -> Result<(), QueryBudgetError>,
    R: Fn(u64) -> Result<(), QueryBudgetError>,
    S: Fn(u64) -> Result<(), QueryBudgetError>,
    O: Fn(u64) -> Result<(), QueryBudgetError>,
>(
    items: Vec<SeriesPoints>,
    matched: &Option<Vec<bool>>,
    checkpoint: &C,
    reserve: &R,
    resize: &S,
    observe: &O,
) -> (made: Result<QueryResult, QueryBudgetError>)
    requires
        call_requires(*checkpoint, ()),
        forall|bytes: u64|
            budget::may_pass(*checkpoint) ==> #[trigger] call_requires(*reserve, (bytes,)),
        forall|bytes: u64|
            budget::may_pass(*checkpoint) ==> #[trigger] call_requires(*resize, (bytes,)),
        forall|size: u64|
            budget::may_pass(*checkpoint) ==> #[trigger] call_requires(*observe, (size,)),
    ensures
        match made {
            Ok(result) => {
                &&& stable::views(result.timeseries@) == stable::stable_sorted::<TimeSeries>(
                    kept_series(items@, bit_view(*matched)),
                )
                &&& paid_for(*reserve, *resize, *observe, items@, result)
            },
            Err(error) => budget_refusal(*checkpoint, *reserve, *resize, *observe, error),
        },
        budget::never_stops(*checkpoint) && budget::always_grants(*reserve)
            && budget::always_grants(*resize) && budget::always_grants(*observe) ==> made is Ok,
        budget::always_stops(*checkpoint) ==> (made matches Err(error) && budget::may_stop(
            *checkpoint,
            error,
        )),
{
    match checkpoint() {
        Err(error) => {
            return Err(error);
        },
        Ok(_) => {},
    }
    let upper = modeled_prom_transform_upper_bytes(&items);
    match reserve(upper) {
        Err(error) => {
            proof {
                assert(budget::refused(*reserve, upper, error));
            }
            return Err(error);
        },
        Ok(_) => {},
    }
    proof {
        assert(budget::granted(*reserve, upper));
    }
    let ghost all = items@;
    let ghost bits = bit_view(*matched);
    let mut out: Vec<TimeSeries> = Vec::with_capacity(items.len());
    let mut index: usize = 0;
    let mut left = stable::reversed(items);
    let count = left.len();
    proof {
        assert(all.subrange(0, 0) =~= Seq::<SeriesPoints>::empty());
        assert(stable::views(out@) =~= kept_series(all.subrange(0, 0), bits));
    }
    while left.len() > 0
        invariant
            index + left@.len() == all.len(),
            count == all.len(),
            bits == bit_view(*matched),
            call_requires(*checkpoint, ()),
            forall|size: u64| call_requires(*observe, (size,)),
            forall|i: int|
                0 <= i < left@.len() ==> #[trigger] left@[i] == all[all.len() - 1 - i],
            stable::views(out@) == kept_series(all.subrange(0, index as int), bits),
        decreases left@.len(),
    {
        match checkpoint() {
            Err(error) => {
                return Err(error);
            },
            Ok(_) => {},
        }
        match left.pop() {
            None => {},
            Some(item) => {
                proof {
                    assert(item == all[index as int]);
                    assert(all.subrange(0, index as int + 1).drop_last() =~= all.subrange(
                        0,
                        index as int,
                    ));
                    assert(all.subrange(0, index as int + 1).last() == item);
                }
                let wanted = match matched {
                    None => true,
                    Some(bits) => index < bits.len() && bits[index],
                };
                index = index + 1;
                if wanted {
                    match show_item(item) {
                        None => {},
                        Some(series) => {
                            let size = widest(&series);
                            match observe(size) {
                                Err(error) => {
                                    proof {
                                        assert(budget::refused(*observe, size, error));
                                    }
                                    return Err(error);
                                },
                                Ok(_) => {},
                            }
                            proof {
                                assert(stable::views(out@.push(series)) =~= stable::views(
                                    out@,
                                ).push(series@));
                            }
                            out.push(series);
                        },
                    }
                }
            },
        }
    }
    proof {
        assert(all.subrange(0, index as int) =~= all);
    }
    let sorted = stable::stable_sort(out);
    let size = sorted.len() as u64;
    match observe(size) {
        Err(error) => {
            proof {
                assert(budget::refused(*observe, size, error));
            }
            return Err(error);
        },
        Ok(_) => {},
    }
    proof {
        assert(budget::granted(*observe, size));
    }
    let result = QueryResult { timeseries: sorted };
    let held = modeled_prom_query_result_retained_bytes(&result);
    match resize(held) {
        Err(error) => {
            proof {
                assert(budget::refused(*resize, held, error));
            }
            return Err(error);
        },
        Ok(_) => {},
    }
    proof {
        assert(budget::granted(*resize, held));
        assert(paid_for(*reserve, *resize, *observe, all, result));
    }
    match checkpoint() {
        Err(error) => {
            return Err(error);
        },
        Ok(_) => {},
    }
    Ok(result)
}

} // verus!
