//! Running one query of a remote read: what is asked of the storage, and what is made of its
//! answers.

use vstd::layout;
use vstd::prelude::*;

use crate::budget;
use crate::budget::QueryBudgetError;
use crate::names;
use crate::remote_read::errors::ReadFanoutError;
use crate::remote_read::errors::RemoteReadQueryError;
use crate::remote_read::errors::StorageError;
use crate::remote_read::model;
use crate::remote_read::request::LabelMatcher;
use crate::remote_read::request::Query;
use crate::remote_read::results::QueryResult;
use crate::remote_read::results::SeriesPoints;
use crate::remote_read::results::TimeSeries;
use crate::remote_read::transform;
use crate::series;
use crate::series::MetricSeries;
use crate::sizes;
use crate::stable;
use crate::text;

verus! {

/// How a matcher of a selection compares, by its number on the wire.
pub const MATCHER_TYPE_EQ: i32 = 0;

/// A matcher of a selection.
#[derive(Debug, PartialEq, Eq)]
pub struct SeriesMatcher {
    pub kind: i32,
    pub name: String,
    pub value: String,
}

/// A selection of series: a metric, and matchers on labels.
#[derive(Debug, PartialEq, Eq)]
pub struct SeriesSelection {
    pub metric: Option<String>,
    pub matchers: Vec<SeriesMatcher>,
}

/// The series that the storage selected, and the bytes that it holds reserved for them.
#[derive(Debug, PartialEq, Eq)]
pub struct SelectedSeries {
    pub series: Vec<MetricSeries>,
    pub reserved: Option<u64>,
}

/// The points that the storage selected for series, whether each series exists, and the bytes that
/// it holds reserved for them.
#[derive(Debug, PartialEq, Eq)]
pub struct SelectedPoints {
    pub series: Vec<SeriesPoints>,
    pub matched: Option<Vec<bool>>,
    pub reserved: Option<u64>,
}

/// The bytes of one matcher in a selection; the value of a metric's name may be held twice.
pub open spec fn matcher_upper(matcher: LabelMatcher) -> nat {
    let name = model::text_bytes(text::utf8_len(matcher.name@)) as nat;
    let value = model::text_bytes(text::utf8_len(matcher.value@)) as nat;
    if matcher.name@ == "__name__"@ && matcher.kind == MATCHER_TYPE_EQ {
        name + value + value
    } else {
        name + value
    }
}

/// The most that the selection made of matchers is modeled to take.
pub open spec fn selection_upper(matchers: Seq<LabelMatcher>) -> u64 {
    sizes::sat64(
        model::list_bytes(
            model::grown_room(matchers.len()) as nat,
            layout::size_of::<SeriesMatcher>(),
        ) + sizes::total(Seq::new(matchers.len(), |i: int| matcher_upper(matchers[i]))),
    )
}

/// The most that the selection made of matchers is modeled to take.
pub fn modeled_remote_matcher_selection_upper_bytes(matchers: &Vec<LabelMatcher>) -> (bytes: u64)
    ensures
        bytes == selection_upper(matchers@),
{
    let ghost parts = Seq::new(matchers@.len(), |i: int| matcher_upper(matchers@[i]));
    let list = model::modeled_vec_capacity_bytes::<SeriesMatcher>(
        model::protobuf_growth_capacity_upper(matchers.len()),
    );
    let mut bytes: u64 = list;
    let mut i: usize = 0;
    while i < matchers.len()
        invariant
            i <= matchers@.len(),
            parts == Seq::new(matchers@.len(), |k: int| matcher_upper(matchers@[k])),
            bytes == sizes::sat64(list + sizes::total(parts.subrange(0, i as int))),
        decreases matchers@.len() - i,
    {
        proof {
            sizes::lemma_total_step(parts, i as int);
        }
        let matcher = &matchers[i];
        let value = model::modeled_owned_str_bytes(matcher.value.as_str());
        bytes =
        bytes.saturating_add(model::modeled_owned_str_bytes(matcher.name.as_str())).saturating_add(
            value,
        );
        if names::same_text(matcher.name.as_str(), "__name__") && matcher.kind == MATCHER_TYPE_EQ {
            bytes = bytes.saturating_add(value);
        }
        i = i + 1;
    }
    assert(parts.subrange(0, i as int) =~= parts);
    bytes
}

/// The end of the half-open range that a query asks for: its last millisecond is in it.
pub open spec fn range_end(query: Query) -> i64 {
    if query.end_timestamp_ms == i64::MAX {
        i64::MAX
    } else {
        (query.end_timestamp_ms + 1) as i64
    }
}

/// The end of the half-open range that a query asks for.
pub fn query_range_end(query: &Query) -> (end: i64)
    ensures
        end == range_end(*query),
{
    if query.end_timestamp_ms == i64::MAX {
        i64::MAX
    } else {
        query.end_timestamp_ms + 1
    }
}

/// What is wrong with what the storage says it holds reserved for its answer.
pub open spec fn reservation_problem(
    reserved: Option<u64>,
    len: nat,
    omitted: Seq<char>,
    empty: Seq<char>,
) -> Option<Seq<char>> {
    match reserved {
        None => Some(omitted),
        Some(bytes) => if len > 0 && bytes == 0 {
            Some(empty)
        } else {
            None
        },
    }
}

/// What is wrong with the series that the storage selected.
pub open spec fn selected_series_problem(selected: SelectedSeries) -> Option<Seq<char>> {
    reservation_problem(
        selected.reserved,
        selected.series@.len(),
        "completely accounted local remote-read metadata selection omitted its result reservation"@,
        "completely accounted local remote-read metadata selection retained zero bytes for a non-empty result"@,
    )
}

/// Checks the series that the storage selected.
pub fn check_selected_series(selected: &SelectedSeries) -> (checked: Result<
    (),
    RemoteReadQueryError,
>)
    ensures
        match selected_series_problem(*selected) {
            None => checked is Ok,
            Some(problem) => checked matches Err(error) && error.says_other(
                "failed to resolve candidate series"@,
                problem,
            ),
        },
{
    let problem = match selected.reserved {
        None => {
            "completely accounted local remote-read metadata selection omitted its result reservation"
        },
        Some(bytes) => {
            if selected.series.len() > 0 && bytes == 0 {
                "completely accounted local remote-read metadata selection retained zero bytes for a non-empty result"
            } else {
                return Ok(());
            }
        },
    };
    Err(
        RemoteReadQueryError::storage(
            "failed to resolve candidate series",
            StorageError::Other(text::owned(problem)),
        ),
    )
}

/// Whether points were answered for the series that were asked for, in their order.
pub open spec fn answered_in_order(asked: Seq<MetricSeries>, answered: Seq<SeriesPoints>) -> bool {
    answered.len() == asked.len() && forall|i: int|
        0 <= i < asked.len() ==> (#[trigger] answered[i]).series@ == asked[i]@
}

/// What is wrong with the points that the storage selected for series.
pub open spec fn selected_points_problem(asked: Seq<MetricSeries>, points: SelectedPoints) -> Option<
    Seq<char>,
> {
    if !answered_in_order(asked, points.series@) {
        Some("local remote-read batch result identities or ordering did not match the request"@)
    } else {
        match points.matched {
            None => Some(
                "completely accounted local remote-read point selection omitted selector-existence bits"@,
            ),
            Some(bits) => if bits@.len() != points.series@.len() {
                Some(
                    "local remote-read point selection returned "@ + text::decimal(bits@.len())
                        + " existence bits for "@ + text::decimal(points.series@.len())
                        + " selectors"@,
                )
            } else {
                reservation_problem(
                    points.reserved,
                    points.series@.len(),
                    "completely accounted local remote-read point selection omitted its result reservation"@,
                    "completely accounted local remote-read point selection retained zero bytes for a non-empty result"@,
                )
            },
        }
    }
}

fn in_order(asked: &Vec<MetricSeries>, answered: &Vec<SeriesPoints>) -> (same: bool)
    ensures
        same == answered_in_order(asked@, answered@),
{
    if answered.len() != asked.len() {
        return false;
    }
    let mut i: usize = 0;
    while i < asked.len()
        invariant
            i <= asked@.len(),
            answered@.len() == asked@.len(),
            forall|k: int| 0 <= k < i ==> (#[trigger] answered@[k]).series@ == asked@[k]@,
        decreases asked@.len() - i,
    {
        if !series::same_series(&answered[i].series, &asked[i]) {
            return false;
        }
        i = i + 1;
    }
    true
}

/// Checks the points that the storage selected for series.
pub fn check_selected_points(asked: &Vec<MetricSeries>, points: &SelectedPoints) -> (checked:
    Result<(), RemoteReadQueryError>)
    ensures
        match selected_points_problem(asked@, *points) {
            None => checked is Ok,
            Some(problem) => checked matches Err(error) && error.says_other(
                "query failed"@,
                problem,
            ),
        },
{
    let problem = if !in_order(asked, &points.series) {
        text::owned(
            "local remote-read batch result identities or ordering did not match the request",
        )
    } else {
        match &points.matched {
            None => text::owned(
                "completely accounted local remote-read point selection omitted selector-existence bits",
            ),
            Some(bits) => {
                if bits.len() != points.series.len() {
                    text::text5(
                        "local remote-read point selection returned ",
                        text::format_usize(bits.len()).as_str(),
                        " existence bits for ",
                        text::format_usize(points.series.len()).as_str(),
                        " selectors",
                    )
                } else {
                    match points.reserved {
                        None => text::owned(
                            "completely accounted local remote-read point selection omitted its result reservation",
                        ),
                        Some(bytes) => {
                            if points.series.len() > 0 && bytes == 0 {
                                text::owned(
                                    "completely accounted local remote-read point selection retained zero bytes for a non-empty result",
                                )
                            } else {
                                return Ok(());
                            }
                        },
                    }
                }
            },
        }
    };
    Err(RemoteReadQueryError::storage("query failed", StorageError::Other(problem)))
}

/// Whether an error says that the storage cannot account for an operation.
pub open spec fn says_unaccounted(
    error: RemoteReadQueryError,
    context: Seq<char>,
    operation: Seq<char>,
    reason: Seq<char>,
) -> bool {
    error matches RemoteReadQueryError::Storage {
        context: c,
        error: StorageError::UnsupportedOperation { operation: o, reason: r },
    } && c@ == context && o@ == operation && r@ == reason
}

/// Whether a storage that failed may have failed like this.
pub open spec fn storage_failed(
    error: RemoteReadQueryError,
    said: Seq<char>,
    failure: StorageError,
) -> bool {
    error matches RemoteReadQueryError::Storage { context, error } && context@ == said && error
        == failure
}

/// Whether the selection of series may be this.
pub open spec fn may_build<S, B: FnOnce(&Vec<LabelMatcher>) -> Result<S, String>>(
    build: B,
    query: Query,
    selection: S,
) -> bool {
    call_ensures(build, (&query.matchers,), Ok::<S, String>(selection))
}

/// Whether the storage may have answered the selection of a query with these series, without fault.
pub open spec fn may_select<
    S,
    B: FnOnce(&Vec<LabelMatcher>) -> Result<S, String>,
    F: FnOnce(&S) -> Result<SelectedSeries, StorageError>,
>(build: B, select_series: F, query: Query, selected: SelectedSeries) -> bool {
    exists|selection: S| #[trigger]
        call_ensures(select_series, (&selection,), Ok::<SelectedSeries, StorageError>(selected))
            && may_build(build, query, selection) && selected_series_problem(selected) is None
}

/// Whether points may be asked for these series, in this range: those that the storage answered the
/// selection of a query with, from the start of the query to its end.
pub open spec fn asks_points<
    S,
    B: FnOnce(&Vec<LabelMatcher>) -> Result<S, String>,
    F: FnOnce(&S) -> Result<SelectedSeries, StorageError>,
>(
    build: B,
    select_series: F,
    query: Query,
    asked: Vec<MetricSeries>,
    start: i64,
    end: i64,
) -> bool {
    &&& exists|selected: SelectedSeries| #[trigger]
        may_select(build, select_series, query, selected) && selected.series == asked
    &&& start == query.start_timestamp_ms
    &&& end == range_end(query)
}

/// Whether the selection of every query can be made.
pub open spec fn always_builds<S, B: FnOnce(&Vec<LabelMatcher>) -> Result<S, String>>(
    build: B,
) -> bool {
    forall|matchers: &Vec<LabelMatcher>, outcome: Result<S, String>| #[trigger]
        call_ensures(build, (matchers,), outcome) ==> outcome is Ok
}

/// Whether an error says that the storage cannot account for the selection of series.
pub open spec fn says_series_unaccounted(error: RemoteReadQueryError) -> bool {
    says_unaccounted(
        error,
        "failed to resolve candidate series"@,
        "bounded local remote-read metadata selection"@,
        "storage does not provide complete select_series execution accounting"@,
    )
}

/// Whether an error says that the storage cannot account for the selection of points.
pub open spec fn says_points_unaccounted(error: RemoteReadQueryError) -> bool {
    says_unaccounted(
        error,
        "query failed"@,
        "bounded local remote-read point selection"@,
        "storage does not provide complete select_many execution accounting"@,
    )
}

/// Whether a query that failed may have failed like this.
pub open spec fn query_refusal<
    S,
    B: FnOnce(&Vec<LabelMatcher>) -> Result<S, String>,
    F: FnOnce(&S) -> Result<SelectedSeries, StorageError>,
    G: FnOnce(&Vec<MetricSeries>, i64, i64) -> Result<SelectedPoints, StorageError>,
>(
    query: Query,
    series_accounted: bool,
    points_accounted: bool,
    build: B,
    select_series: F,
    select_points: G,
    error: RemoteReadQueryError,
) -> bool {
    ||| exists|message: String| #[trigger]
        call_ensures(build, (&query.matchers,), Err::<S, String>(message))
            && error == RemoteReadQueryError::InvalidRequest(message)
    ||| !series_accounted && says_series_unaccounted(error) && exists|selection: S| #[trigger]
        may_build(build, query, selection)
    ||| series_accounted && exists|selection: S, failure: StorageError| #[trigger]
        call_ensures(select_series, (&selection,), Err::<SelectedSeries, StorageError>(failure))
            && may_build(build, query, selection) && storage_failed(
            error,
            "failed to resolve candidate series"@,
            failure,
        )
    ||| series_accounted && exists|selection: S, selected: SelectedSeries| #[trigger]
        call_ensures(select_series, (&selection,), Ok::<SelectedSeries, StorageError>(selected))
            && may_build(build, query, selection) && (selected_series_problem(selected) matches Some(problem) && error.says_other(
            "failed to resolve candidate series"@,
            problem,
        ))
    ||| series_accounted && !points_accounted && says_points_unaccounted(error) && exists|
        selected: SelectedSeries,
    | #[trigger]
        may_select(build, select_series, query, selected)
    ||| series_accounted && points_accounted && exists|
        selected: SelectedSeries,
        failure: StorageError,
    | #[trigger]
        call_ensures(
            select_points,
            (&selected.series, query.start_timestamp_ms, range_end(query)),
            Err::<SelectedPoints, StorageError>(failure),
        ) && may_select(build, select_series, query, selected) && storage_failed(error, "query failed"@, failure)
    ||| series_accounted && points_accounted && exists|
        selected: SelectedSeries,
        points: SelectedPoints,
    | #[trigger]
        call_ensures(
            select_points,
            (&selected.series, query.start_timestamp_ms, range_end(query)),
            Ok::<SelectedPoints, StorageError>(points),
        ) && may_select(build, select_series, query, selected) && (selected_points_problem(selected.series@, points) matches Some(problem)
            && error.says_other("query failed"@, problem))
}

/// Whether a query may have been answered with this result.
pub open spec fn query_answered<
    S,
    B: FnOnce(&Vec<LabelMatcher>) -> Result<S, String>,
    F: FnOnce(&S) -> Result<SelectedSeries, StorageError>,
    G: FnOnce(&Vec<MetricSeries>, i64, i64) -> Result<SelectedPoints, StorageError>,
    R: Fn(u64) -> Result<(), QueryBudgetError>,
    Z: Fn(u64) -> Result<(), QueryBudgetError>,
    O: Fn(u64) -> Result<(), QueryBudgetError>,
>(
    query: Query,
    build: B,
    select_series: F,
    select_points: G,
    reserve: R,
    resize: Z,
    observe: O,
    result: QueryResult,
) -> bool {
    exists|selection: S, selected: SelectedSeries, points: SelectedPoints| #[trigger]
        call_ensures(select_series, (&selection,), Ok::<SelectedSeries, StorageError>(selected))
            && #[trigger] call_ensures(
            select_points,
            (&selected.series, query.start_timestamp_ms, range_end(query)),
            Ok::<SelectedPoints, StorageError>(points),
        ) && may_build(build, query, selection) && selected_series_problem(selected) is None
            && selected_points_problem(selected.series@, points) is None && stable::views(
            result.timeseries@,
        ) == stable::stable_sorted::<TimeSeries>(
            transform::kept_series(points.series@, transform::bit_view(points.matched)),
        ) && transform::paid_for(reserve, resize, observe, points.series@, result)
}

/// Whether every selection can be made, and the storage answers each without fault.
pub open spec fn serves<
    S,
    B: FnOnce(&Vec<LabelMatcher>) -> Result<S, String>,
    F: FnOnce(&S) -> Result<SelectedSeries, StorageError>,
    G: FnOnce(&Vec<MetricSeries>, i64, i64) -> Result<SelectedPoints, StorageError>,
>(build: B, select_series: F, select_points: G) -> bool {
    &&& always_builds::<S, B>(build)
    &&& forall|selection: &S, outcome: Result<SelectedSeries, StorageError>| #[trigger]
        call_ensures(select_series, (selection,), outcome) ==> (outcome matches Ok(selected)
            && selected_series_problem(selected) is None)
    &&& forall|
        asked: &Vec<MetricSeries>,
        start: i64,
        end: i64,
        outcome: Result<SelectedPoints, StorageError>,
    | #[trigger]
        call_ensures(select_points, (asked, start, end), outcome) ==> (outcome matches Ok(points)
            && selected_points_problem(asked@, points) is None)
}

/// Runs one query on a local storage: `build` makes its selection, `select_series` and
/// `select_points` ask the storage, which says whether it accounts for each completely; the other
/// four are the query budget's. A storage that does not account for a selection is not asked for
/// it: one that does not account for the points is not asked for any. Points are asked for by one
/// call, of the series that were selected.
pub fn execute_query<
    S,
    B: FnOnce(&Vec<LabelMatcher>) -> Result<S, String>,
    F: FnOnce(&S) -> Result<SelectedSeries, StorageError>,
    G: FnOnce(&Vec<MetricSeries>, i64, i64) -> Result<SelectedPoints, StorageError>,
    C: Fn() -> Result<(), QueryBudgetError>,
    R: Fn(u64) -> Result<(), QueryBudgetError>,
    Z: Fn(u64) -> Result<(), QueryBudgetError>,
    O: Fn(u64) -> Result<(), QueryBudgetError>,
>(
    query: &Query,
    series_accounted: bool,
    points_accounted: bool,
    build: B,
    select_series: F,
    select_points: G,
    checkpoint: &C,
    reserve: &R,
    resize: &Z,
    observe: &O,
) -> (answer: Result<QueryResult, RemoteReadQueryError>)
    requires
        call_requires(*checkpoint, ()),
        forall|bytes: u64|
            budget::may_pass(*checkpoint) ==> #[trigger] call_requires(*reserve, (bytes,)),
        forall|bytes: u64|
            budget::may_pass(*checkpoint) ==> #[trigger] call_requires(*resize, (bytes,)),
        forall|size: u64|
            budget::may_pass(*checkpoint) ==> #[trigger] call_requires(*observe, (size,)),
        budget::may_pass(*checkpoint) && budget::granted(*reserve, selection_upper(query.matchers@))
            ==> call_requires(build, (&query.matchers,)),
        forall|selection: &S|
            budget::may_pass(*checkpoint) && series_accounted && may_build(build, *query, *selection) ==> #[trigger] call_requires(
                select_series,
                (selection,),
            ),
        forall|asked: &Vec<MetricSeries>, start: i64, end: i64|
            budget::may_pass(*checkpoint) && series_accounted && points_accounted && asks_points(
                build,
                select_series,
                *query,
                *asked,
                start,
                end,
            ) ==> #[trigger] call_requires(select_points, (asked, start, end)),
    ensures
        match answer {
            Ok(result) => {
                &&& series_accounted && points_accounted
                &&& budget::granted(*reserve, selection_upper(query.matchers@))
                &&& query_answered(
                    *query,
                    build,
                    select_series,
                    select_points,
                    *reserve,
                    *resize,
                    *observe,
                    result,
                )
            },
            Err(error) => {
                ||| (error matches RemoteReadQueryError::Budget(refusal)
                    && transform::budget_refusal(*checkpoint, *reserve, *resize, *observe, refusal))
                ||| query_refusal(
                    *query,
                    series_accounted,
                    points_accounted,
                    build,
                    select_series,
                    select_points,
                    error,
                )
            },
        },
        series_accounted && points_accounted && budget::never_stops(*checkpoint)
            && budget::always_grants(*reserve) && budget::always_grants(*resize)
            && budget::always_grants(*observe) && serves(build, select_series, select_points)
            ==> answer is Ok,
        !series_accounted && budget::never_stops(*checkpoint) && budget::always_grants(*reserve)
            && always_builds::<S, B>(build) ==> (answer matches Err(error)
            && says_series_unaccounted(error)),
        series_accounted && !points_accounted && budget::never_stops(*checkpoint)
            && budget::always_grants(*reserve) && serves(build, select_series, select_points) ==> (
        answer matches Err(error) && says_points_unaccounted(error)),
        budget::always_stops(*checkpoint) ==> (answer matches Err(
            RemoteReadQueryError::Budget(error),
        ) && budget::may_stop(*checkpoint, error)),
{
    match checkpoint() {
        Err(error) => {
            return Err(RemoteReadQueryError::Budget(error));
        },
        Ok(_) => {},
    }
    let upper = modeled_remote_matcher_selection_upper_bytes(&query.matchers);
    match reserve(upper) {
        Err(error) => {
            proof {
                assert(budget::refused(*reserve, upper, error));
            }
            return Err(RemoteReadQueryError::Budget(error));
        },
        Ok(_) => {},
    }
    let selection = match build(&query.matchers) {
        Err(message) => {
            proof {
                assert(call_ensures(build, (&query.matchers,), Err::<S, String>(message)));
            }
            return Err(RemoteReadQueryError::InvalidRequest(message));
        },
        Ok(selection) => selection,
    };
    proof {
        assert(may_build(build, *query, selection));
    }
    if !series_accounted {
        return Err(
            RemoteReadQueryError::storage(
                "failed to resolve candidate series",
                StorageError::UnsupportedOperation {
                    operation: text::owned("bounded local remote-read metadata selection"),
                    reason: text::owned(
                        "storage does not provide complete select_series execution accounting",
                    ),
                },
            ),
        );
    }
    let selected = match select_series(&selection) {
        Err(failure) => {
            proof {
                assert(call_ensures(
                    select_series,
                    (&selection,),
                    Err::<SelectedSeries, StorageError>(failure),
                ));
            }
            return Err(
                RemoteReadQueryError::storage("failed to resolve candidate series", failure),
            );
        },
        Ok(selected) => selected,
    };
    proof {
        assert(call_ensures(
            select_series,
            (&selection,),
            Ok::<SelectedSeries, StorageError>(selected),
        ));
    }
    match check_selected_series(&selected) {
        Err(error) => {
            return Err(error);
        },
        Ok(_) => {},
    }
    proof {
        assert(may_select(build, select_series, *query, selected));
    }
    if !points_accounted {
        return Err(
            RemoteReadQueryError::storage(
                "query failed",
                StorageError::UnsupportedOperation {
                    operation: text::owned("bounded local remote-read point selection"),
                    reason: text::owned(
                        "storage does not provide complete select_many execution accounting",
                    ),
                },
            ),
        );
    }
    let end = query_range_end(query);
    let points = match select_points(&selected.series, query.start_timestamp_ms, end) {
        Err(failure) => {
            proof {
                assert(call_ensures(
                    select_points,
                    (&selected.series, query.start_timestamp_ms, range_end(*query)),
                    Err::<SelectedPoints, StorageError>(failure),
                ));
            }
            return Err(RemoteReadQueryError::storage("query failed", failure));
        },
        Ok(points) => points,
    };
    proof {
        assert(call_ensures(
            select_points,
            (&selected.series, query.start_timestamp_ms, range_end(*query)),
            Ok::<SelectedPoints, StorageError>(points),
        ));
    }
    match check_selected_points(&selected.series, &points) {
        Err(error) => {
            return Err(error);
        },
        Ok(_) => {},
    }
    let ghost answered = points;
    let SelectedPoints { series, matched, reserved: _ } = points;
    match transform::guarded_prom_query_result(
        series,
        &matched,
        checkpoint,
        reserve,
        resize,
        observe,
    ) {
        Err(error) => Err(RemoteReadQueryError::Budget(error)),
        Ok(result) => {
            proof {
                assert(answered.series == series);
                assert(answered.matched == matched);
                assert(query_answered(
                    *query,
                    build,
                    select_series,
                    select_points,
                    *reserve,
                    *resize,
                    *observe,
                    result,
                ));
            }
            Ok(result)
        },
    }
}

/// What is wrong with the points of a distributed read.
pub open spec fn distributed_points_problem(points: SelectedPoints) -> Option<Seq<char>> {
    let bits = match points.matched {
        Some(bits) => bits@.len(),
        None => 0,
    };
    if bits != points.series@.len() {
        Some(
            "distributed remote-read point selection returned "@ + text::decimal(bits)
                + " existence bits for "@ + text::decimal(points.series@.len()) + " selectors"@,
        )
    } else {
        reservation_problem(
            points.reserved,
            points.series@.len(),
            "completely accounted distributed remote-read point selection omitted its result reservation"@,
            "completely accounted distributed remote-read point selection retained zero bytes for a non-empty result"@,
        )
    }
}

/// Checks the points of a distributed read.
pub fn check_distributed_points(points: &SelectedPoints) -> (checked: Result<(), ReadFanoutError>)
    ensures
        match distributed_points_problem(*points) {
            None => checked is Ok,
            Some(problem) => checked matches Err(error) && error.says_invalid(problem),
        },
{
    let bits = match &points.matched {
        Some(bits) => bits.len(),
        None => 0,
    };
    let message = if bits != points.series.len() {
        text::text5(
            "distributed remote-read point selection returned ",
            text::format_usize(bits).as_str(),
            " existence bits for ",
            text::format_usize(points.series.len()).as_str(),
            " selectors",
        )
    } else {
        match points.reserved {
            None => text::owned(
                "completely accounted distributed remote-read point selection omitted its result reservation",
            ),
            Some(bytes) => {
                if points.series.len() > 0 && bytes == 0 {
                    text::owned(
                        "completely accounted distributed remote-read point selection retained zero bytes for a non-empty result",
                    )
                } else {
                    return Ok(());
                }
            },
        }
    };
    Err(ReadFanoutError::InvalidRequest { message })
}

/// Makes the result of a distributed query of the points that the cluster answered.
pub fn finish_distributed_query<
    C: Fn() -> Result<(), QueryBudgetError>,
    R: Fn(u64) -> Result<(), QueryBudgetError>,
    Z: Fn(u64) -> Result<(), QueryBudgetError>,
    O: Fn(u64) -> Result<(), QueryBudgetError>,
>(points: SelectedPoints, checkpoint: &C, reserve: &R, resize: &Z, observe: &O) -> (answer: Result<
    QueryResult,
    ReadFanoutError,
>)
    requires
        call_requires(*checkpoint, ()),
        forall|bytes: u64|
            budget::may_pass(*checkpoint) ==> #[trigger] call_requires(*reserve, (bytes,)),
        forall|bytes: u64|
            budget::may_pass(*checkpoint) ==> #[trigger] call_requires(*resize, (bytes,)),
        forall|size: u64|
            budget::may_pass(*checkpoint) ==> #[trigger] call_requires(*observe, (size,)),
    ensures
        match distributed_points_problem(points) {
            Some(problem) => answer matches Err(error) && error.says_invalid(problem),
            None => match answer {
                Ok(result) => {
                    &&& stable::views(result.timeseries@) == stable::stable_sorted::<TimeSeries>(
                        transform::kept_series(
                            points.series@,
                            transform::bit_view(points.matched),
                        ),
                    )
                    &&& transform::paid_for(*reserve, *resize, *observe, points.series@, result)
                },
                Err(error) => error matches ReadFanoutError::QueryBudget { error: refusal }
                    && transform::budget_refusal(*checkpoint, *reserve, *resize, *observe, refusal),
            },
        },
        distributed_points_problem(points) is None && budget::never_stops(*checkpoint)
            && budget::always_grants(*reserve) && budget::always_grants(*resize)
            && budget::always_grants(*observe) ==> answer is Ok,
        distributed_points_problem(points) is None && budget::always_stops(*checkpoint) ==> (
        answer matches Err(ReadFanoutError::QueryBudget { error }) && budget::may_stop(
            *checkpoint,
            error,
        )),
{
    match check_distributed_points(&points) {
        Err(error) => {
            return Err(error);
        },
        Ok(_) => {},
    }
    let SelectedPoints { series, matched, reserved: _ } = points;
    match transform::guarded_prom_query_result(
        series,
        &matched,
        checkpoint,
        reserve,
        resize,
        observe,
    ) {
        Err(error) => Err(ReadFanoutError::QueryBudget { error }),
        Ok(result) => Ok(result),
    }
}

} // verus!
