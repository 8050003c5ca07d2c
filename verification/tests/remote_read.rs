//! Reading requests, framing responses and answering failures.

use std::cell::Cell;
use std::cell::RefCell;

use tsink_server::budget::QueryBudgetError;
use tsink_server::budget::QueryLimitExceeded;
use tsink_server::budget::QueryLimitReason;
use tsink_server::remote_read::decode::decode_remote_read_request;
use tsink_server::remote_read::decode::modeled_remote_read_request_heap_bytes;
use tsink_server::remote_read::distributed::modeled_tenant_selections_upper_bytes;
use tsink_server::remote_read::distributed::prepare_distributed_query;
use tsink_server::remote_read::distributed::TenantNames;
use tsink_server::remote_read::errors::bounded_remote_read_diagnostic;
use tsink_server::remote_read::errors::remote_read_fanout_error_response;
use tsink_server::remote_read::errors::remote_read_query_budget_error_response;
use tsink_server::remote_read::errors::remote_read_query_error_response;
use tsink_server::remote_read::errors::validate_remote_read_request;
use tsink_server::remote_read::errors::ReadFanoutError;
use tsink_server::remote_read::errors::RemoteReadQueryError;
use tsink_server::remote_read::errors::StorageError;
use tsink_server::remote_read::execution::check_selected_points;
use tsink_server::remote_read::execution::execute_query;
use tsink_server::remote_read::execution::finish_distributed_query;
use tsink_server::remote_read::execution::modeled_remote_matcher_selection_upper_bytes;
use tsink_server::remote_read::execution::SelectedPoints;
use tsink_server::remote_read::execution::SelectedSeries;
use tsink_server::remote_read::execution::SeriesMatcher;
use tsink_server::remote_read::execution::SeriesSelection;
use tsink_server::remote_read::model::modeled_owned_str_bytes;
use tsink_server::remote_read::model::modeled_vec_capacity_bytes;
use tsink_server::remote_read::model::protobuf_growth_capacity_upper;
use tsink_server::remote_read::fanout::DistributedQuery;
use tsink_server::remote_read::fanout::FanoutAction;
use tsink_server::remote_read::fanout::FanoutEvent;
use tsink_server::remote_read::fanout::FanoutStep;
use tsink_server::remote_read::request::LabelMatcher;
use tsink_server::remote_read::request::Query;
use tsink_server::remote_read::request::ReadRequest;
use tsink_server::remote_read::request::RemoteReadLimits;
use tsink_server::remote_read::response::compress_remote_read_response;
use tsink_server::remote_read::response::success_answer;
use tsink_server::remote_read::response::CompressedRemoteReadResponse;
use tsink_server::remote_read::response::EncodedRemoteReadResponse;
use tsink_server::remote_read::response::RemoteReadResponseEncoder;
use tsink_server::remote_read::results::compare_prom_series;
use tsink_server::remote_read::results::prom_time_series_from_points;
use tsink_server::remote_read::results::tsink_histogram_to_prom;
use tsink_server::remote_read::results::BucketSpan;
use tsink_server::remote_read::results::DataPoint;
use tsink_server::remote_read::results::HistogramCount;
use tsink_server::remote_read::results::HistogramResetHint;
use tsink_server::remote_read::results::NativeHistogram;
use tsink_server::remote_read::results::PointValue;
use tsink_server::remote_read::results::PromSample;
use tsink_server::remote_read::results::SeriesPoints;
use tsink_server::remote_read::results::TimeSeries;
use tsink_server::remote_read::results::Visibility;
use tsink_server::remote_read::scan::scan_remote_read_decode_model;
use tsink_server::remote_read::scan::RemoteReadDecodeScanError;
use tsink_server::remote_read::scan::RemoteReadMatcherShapeError;
use tsink_server::remote_read::session::ReadAction;
use tsink_server::remote_read::session::ReadEvent;
use tsink_server::remote_read::session::ReadStep;
use tsink_server::remote_read::session::RemoteReadSession;
use tsink_server::remote_read::session::TenantRecord;
use tsink_server::remote_read::transform::guarded_prom_query_result;
use tsink_server::remote_read::union::hold_merged_metadata;
use tsink_server::remote_read::union::SeriesUnion;
use tsink_server::remote_read::wire::read_field;
use tsink_server::remote_read::wire::read_protobuf_varint;
use tsink_server::series::Label;
use tsink_server::series::MetricSeries;
use tsink_server::series::Rank;

const MAX_BODY_BYTES: usize = 64 * 1024 * 1024;
const MAX_MATCHERS: usize = 64;
const MAX_NAME_BYTES: usize = 256;
const MAX_VALUE_BYTES: usize = 4096;
const MAX_SELECTION_BYTES: usize = 16 * 1024;
const MAX_DIAGNOSTIC_BYTES: usize = 512;

fn limits() -> RemoteReadLimits {
    RemoteReadLimits {
        max_body_bytes: MAX_BODY_BYTES,
        max_matchers: MAX_MATCHERS,
        max_matcher_name_bytes: MAX_NAME_BYTES,
        max_matcher_value_bytes: MAX_VALUE_BYTES,
        max_selection_matcher_bytes: MAX_SELECTION_BYTES,
        max_diagnostic_bytes: MAX_DIAGNOSTIC_BYTES,
    }
}

fn go_on() -> Result<(), QueryBudgetError> {
    Ok(())
}

fn grant(_amount: u64) -> Result<(), QueryBudgetError> {
    Ok(())
}

fn limit(reason: QueryLimitReason, limit: u64, current: u64, requested: u64) -> QueryBudgetError {
    QueryBudgetError::LimitExceeded(QueryLimitExceeded { reason, limit, current, requested })
}

fn varint(mut value: u64, out: &mut Vec<u8>) {
    while value >= 128 {
        out.push((value % 128) as u8 + 128);
        value /= 128;
    }
    out.push(value as u8);
}

fn delimited(number: u64, payload: &[u8], out: &mut Vec<u8>) {
    varint(number * 8 + 2, out);
    varint(payload.len() as u64, out);
    out.extend_from_slice(payload);
}

fn number_field(number: u64, value: u64, out: &mut Vec<u8>) {
    if value != 0 {
        varint(number * 8, out);
        varint(value, out);
    }
}

fn text_field(number: u64, value: &str, out: &mut Vec<u8>) {
    if !value.is_empty() {
        delimited(number, value.as_bytes(), out);
    }
}

fn matcher(name: String, value: String) -> LabelMatcher {
    LabelMatcher { kind: 0, name, value }
}

fn query_with_matchers(matchers: Vec<LabelMatcher>) -> Query {
    Query { start_timestamp_ms: 0, end_timestamp_ms: 10, matchers, hints: None }
}

fn encoded_remote_read_body(queries: Vec<Query>) -> Vec<u8> {
    let mut out = Vec::new();
    for query in &queries {
        let mut encoded = Vec::new();
        number_field(1, query.start_timestamp_ms as u64, &mut encoded);
        number_field(2, query.end_timestamp_ms as u64, &mut encoded);
        for matcher in &query.matchers {
            let mut inner = Vec::new();
            number_field(1, matcher.kind as u64, &mut inner);
            text_field(2, &matcher.name, &mut inner);
            text_field(3, &matcher.value, &mut inner);
            delimited(3, &inner, &mut encoded);
        }
        delimited(1, &encoded, &mut out);
    }
    out
}

fn decoded_queries(bytes: &[u8]) -> Result<ReadRequest, String> {
    let mut queries = Vec::new();
    let mut cursor = 0;
    while cursor < bytes.len() {
        let place = read_field(bytes, cursor)?;
        cursor = place.end;
        if place.number != 1 {
            continue;
        }
        let query = &bytes[place.start..place.end];
        let mut found = query_with_matchers(Vec::new());
        let mut inner = 0;
        while inner < query.len() {
            let field = read_field(query, inner)?;
            inner = field.end;
            if field.number == 3 {
                let matcher_bytes = &query[field.start..field.end];
                let mut made = matcher(String::new(), String::new());
                let mut at = 0;
                while at < matcher_bytes.len() {
                    let part = read_field(matcher_bytes, at)?;
                    at = part.end;
                    let text = String::from_utf8(matcher_bytes[part.start..part.end].to_vec())
                        .map_err(|error| error.to_string())?;
                    if part.number == 2 {
                        made.name = text;
                    } else if part.number == 3 {
                        made.value = text;
                    }
                }
                found.matchers.push(made);
            }
        }
        queries.push(found);
    }
    Ok(ReadRequest { queries, accepted_response_types: Vec::new() })
}

fn query_result(metric: &str, timestamp: i64) -> Vec<u8> {
    let mut label = Vec::new();
    text_field(1, "__name__", &mut label);
    text_field(2, metric, &mut label);
    let mut sample = Vec::new();
    varint(9, &mut sample);
    sample.extend_from_slice(&1.0f64.to_le_bytes());
    number_field(2, timestamp as u64, &mut sample);
    let mut series = Vec::new();
    delimited(1, &label, &mut series);
    delimited(2, &sample, &mut series);
    let mut result = Vec::new();
    delimited(1, &series, &mut result);
    result
}

fn read_response(results: &[Vec<u8>]) -> Vec<u8> {
    let mut out = Vec::new();
    for result in results {
        delimited(1, result, &mut out);
    }
    out
}

fn decoded_results(bytes: &[u8]) -> Vec<Vec<u8>> {
    let mut results = Vec::new();
    let mut cursor = 0;
    while cursor < bytes.len() {
        let place = read_field(bytes, cursor).expect("the response should be whole");
        assert_eq!((place.number, place.wire_type), (1, 2));
        results.push(bytes[place.start..place.end].to_vec());
        cursor = place.end;
    }
    results
}

fn empty_query() -> Query {
    Query { start_timestamp_ms: 0, end_timestamp_ms: 1, matchers: Vec::new(), hints: None }
}

fn no_selection(_matchers: &Vec<LabelMatcher>) -> Result<(), String> {
    Ok(())
}

#[test]
fn bounded_local_remote_read_rejects_unaccounted_metadata_storage() {
    let asked = Cell::new(false);
    let error = execute_query(
        &empty_query(),
        false,
        true,
        no_selection,
        |_selection: &()| {
            asked.set(true);
            Ok(SelectedSeries { series: Vec::new(), reserved: None })
        },
        |_series: &Vec<MetricSeries>, _start: i64, _end: i64| {
            asked.set(true);
            Ok(SelectedPoints { series: Vec::new(), matched: None, reserved: None })
        },
        &go_on,
        &grant,
        &grant,
        &grant,
    )
    .expect_err("bounded local remote-read must reject unaccounted metadata storage");
    match error {
        RemoteReadQueryError::Storage {
            error: StorageError::UnsupportedOperation { operation, .. },
            ..
        } => assert_eq!(operation, "bounded local remote-read metadata selection"),
        other => panic!("unexpected error {other:?}"),
    }
    assert!(!asked.get());
}

#[test]
fn bounded_local_remote_read_rejects_false_complete_metadata_claim() {
    let error = execute_query(
        &empty_query(),
        true,
        true,
        no_selection,
        |_selection: &()| Ok(SelectedSeries { series: Vec::new(), reserved: None }),
        |_series: &Vec<MetricSeries>, _start: i64, _end: i64| {
            Ok(SelectedPoints { series: Vec::new(), matched: None, reserved: None })
        },
        &go_on,
        &grant,
        &grant,
        &grant,
    )
    .expect_err("a false Complete claim must not release an unreserved metadata result");
    match error {
        RemoteReadQueryError::Storage { error: StorageError::Other(message), .. } => {
            assert!(message.contains("omitted its result reservation"))
        }
        other => panic!("unexpected error {other:?}"),
    }
}

#[test]
fn bounded_local_remote_read_rejects_unaccounted_point_storage() {
    let read = Cell::new(false);
    let error = execute_query(
        &empty_query(),
        true,
        false,
        no_selection,
        |_selection: &()| Ok(SelectedSeries { series: Vec::new(), reserved: Some(64) }),
        |_series: &Vec<MetricSeries>, _start: i64, _end: i64| {
            read.set(true);
            Ok(SelectedPoints { series: Vec::new(), matched: None, reserved: None })
        },
        &go_on,
        &grant,
        &grant,
        &grant,
    )
    .expect_err("bounded local remote-read must reject unaccounted point storage");
    match error {
        RemoteReadQueryError::Storage {
            error: StorageError::UnsupportedOperation { operation, .. },
            ..
        } => assert_eq!(operation, "bounded local remote-read point selection"),
        other => panic!("unexpected error {other:?}"),
    }
    assert!(!read.get());
}

#[test]
fn a_local_query_is_answered_with_its_series_in_order() {
    let series = |host: &str| MetricSeries {
        name: "up".to_string(),
        labels: vec![Label::new("host", host)],
    };
    let result = execute_query(
        &Query {
            start_timestamp_ms: 5,
            end_timestamp_ms: i64::MAX,
            matchers: vec![matcher("__name__".to_string(), "up".to_string())],
            hints: None,
        },
        true,
        true,
        |matchers: &Vec<LabelMatcher>| Ok(matchers.len()),
        |selection: &usize| {
            assert_eq!(*selection, 1);
            Ok(SelectedSeries { series: vec![series("b"), series("a")], reserved: Some(64) })
        },
        |asked: &Vec<MetricSeries>, start: i64, end: i64| {
            assert_eq!((asked.len(), start, end), (2, 5, i64::MAX));
            let points = |host: &str| SeriesPoints {
                series: series(host),
                visibility: Visibility::Whole,
                points: vec![DataPoint { timestamp: 7, value: PointValue::Number(3) }],
            };
            Ok(SelectedPoints {
                series: vec![points("b"), points("a")],
                matched: Some(vec![true, true]),
                reserved: Some(64),
            })
        },
        &go_on,
        &grant,
        &grant,
        &grant,
    )
    .expect("the query should be answered");
    let hosts: Vec<&str> = result
        .timeseries
        .iter()
        .map(|found| found.labels[1].value.as_str())
        .collect();
    assert_eq!(hosts, ["a", "b"]);
    assert_eq!(result.timeseries[0].labels[0], Label::new("__name__", "up"));
}

#[test]
fn points_in_another_order_or_without_bits_are_refused() {
    let series = |name: &str| MetricSeries { name: name.to_string(), labels: Vec::new() };
    let points = |name: &str| SeriesPoints {
        series: series(name),
        visibility: Visibility::Whole,
        points: Vec::new(),
    };
    let asked = vec![series("a"), series("b")];
    let message = |found: Result<(), RemoteReadQueryError>| match found {
        Err(RemoteReadQueryError::Storage { context, error: StorageError::Other(message) }) => {
            assert_eq!(context, "query failed");
            message
        }
        other => panic!("unexpected outcome {other:?}"),
    };
    let swapped = SelectedPoints {
        series: vec![points("b"), points("a")],
        matched: Some(vec![true, true]),
        reserved: Some(1),
    };
    assert_eq!(
        message(check_selected_points(&asked, &swapped)),
        "local remote-read batch result identities or ordering did not match the request"
    );
    let bare = SelectedPoints {
        series: vec![points("a"), points("b")],
        matched: None,
        reserved: Some(1),
    };
    assert!(message(check_selected_points(&asked, &bare)).contains("selector-existence bits"));
    let short = SelectedPoints {
        series: vec![points("a"), points("b")],
        matched: Some(vec![true]),
        reserved: Some(1),
    };
    assert_eq!(
        message(check_selected_points(&asked, &short)),
        "local remote-read point selection returned 1 existence bits for 2 selectors"
    );
    let unreserved = SelectedPoints {
        series: vec![points("a"), points("b")],
        matched: Some(vec![true, false]),
        reserved: Some(0),
    };
    assert!(message(check_selected_points(&asked, &unreserved)).contains("retained zero bytes"));
}

#[test]
fn remote_read_per_query_encoded_bytes_have_an_exact_budget_boundary() {
    let result = query_result("encoded_boundary", 1);
    let encoded_bytes = read_response(&[result.clone()]).len();

    let budget = |max: u64| {
        move |bytes: u64| {
            if bytes > max {
                Err(limit(QueryLimitReason::ReturnedBytes, max, 0, bytes))
            } else {
                Ok(())
            }
        }
    };
    let returned = Cell::new(0u64);
    let exact_budget = budget(encoded_bytes as u64);
    let mut exact = RemoteReadResponseEncoder::with_limit(encoded_bytes);
    exact
        .append(result.len(), || result.clone(), 1, &go_on, &grant, &|bytes: u64| {
            returned.set(returned.get() + bytes);
            exact_budget(bytes)
        })
        .expect("the exact encoded-byte boundary should succeed");
    assert_eq!(exact.raw.len(), encoded_bytes);
    assert_eq!(returned.get(), encoded_bytes as u64);

    let rejected_budget = budget(encoded_bytes as u64 - 1);
    let mut rejected = RemoteReadResponseEncoder::with_limit(encoded_bytes);
    let error = rejected
        .append(result.len(), || result.clone(), 1, &go_on, &grant, &rejected_budget)
        .expect_err("one byte below the encoded result must be rejected");
    let response = remote_read_query_error_response(&limits(), &error, "returned bytes");
    assert_eq!(response.status, 413);
    assert_eq!(response.error_code.as_deref(), Some("query_limit_returned_bytes"));
    assert!(rejected.raw.is_empty());
}

#[test]
fn transformed_result_guard_stays_live_through_response_append() {
    const RESULT_GUARD_BYTES: u64 = 4_096;
    let response_bytes = Cell::new(0u64);
    let peak = Cell::new(RESULT_GUARD_BYTES);
    let mut encoder = RemoteReadResponseEncoder::with_execution_limit(MAX_BODY_BYTES, grant)
        .expect("encoder should build");
    assert_eq!(encoder.reserved, Some(0));
    let guarded = query_result("guard_overlap", 1);
    encoder
        .append(
            guarded.len(),
            || guarded.clone(),
            1,
            &go_on,
            &|bytes: u64| {
                response_bytes.set(bytes);
                peak.set(peak.get().max(RESULT_GUARD_BYTES + bytes));
                Ok(())
            },
            &grant,
        )
        .expect("guarded result should append");
    assert!(response_bytes.get() > 0);
    assert_eq!(encoder.reserved, Some(response_bytes.get()));
    assert_eq!(peak.get(), RESULT_GUARD_BYTES.saturating_add(response_bytes.get()));
}

#[test]
fn remote_read_aggregate_encoded_cap_is_exact_across_queries_without_truncation() {
    let first = query_result("first_metric", 1);
    let second = query_result("second_metric", 2);
    let expected = read_response(&[first.clone(), second.clone()]);
    let exact_bytes = expected.len();

    let mut exact = RemoteReadResponseEncoder::with_limit(exact_bytes);
    exact
        .append(first.len(), || first.clone(), 1, &go_on, &grant, &grant)
        .expect("first result should fit");
    exact
        .append(second.len(), || second.clone(), 1, &go_on, &grant, &grant)
        .expect("the exact aggregate boundary should fit");
    let (encoded, units) = exact.finish();
    assert_eq!(encoded.raw.len(), exact_bytes);
    assert_eq!(units, 2);
    assert_eq!(encoded.raw, expected);
    assert_eq!(decoded_results(&encoded.raw), vec![first.clone(), second.clone()]);

    let mut rejected = RemoteReadResponseEncoder::with_limit(exact_bytes - 1);
    rejected
        .append(first.len(), || first.clone(), 1, &go_on, &grant, &grant)
        .expect("first result should still fit");
    let first_only = rejected.raw.clone();
    let error = rejected
        .append(second.len(), || second.clone(), 1, &go_on, &grant, &grant)
        .expect_err("one byte below the aggregate response must reject the request");
    let response = remote_read_query_error_response(&limits(), &error, "returned bytes");
    assert_eq!(response.status, 413);
    assert_eq!(response.error_code.as_deref(), Some("query_limit_returned_bytes"));
    assert_eq!(rejected.raw, first_only);
    assert_eq!(decoded_results(&rejected.raw), vec![first]);
}

fn unencoded() -> Vec<u8> {
    panic!("nothing is encoded before what it takes was granted")
}

#[test]
fn a_refused_reservation_leaves_the_response_as_it_was() {
    let mut encoder = RemoteReadResponseEncoder::with_execution_limit(1024, grant)
        .expect("encoder should build");
    let refusal = limit(QueryLimitReason::PerQueryMemoryBytes, 1, 0, 2);
    let error = encoder
        .append(3, unencoded, 1, &go_on, &|_bytes: u64| {
            Err(limit(QueryLimitReason::PerQueryMemoryBytes, 1, 0, 2))
        }, &grant)
        .expect_err("the reservation is refused");
    assert_eq!(error, RemoteReadQueryError::Budget(refusal));
    assert!(encoder.raw.is_empty());
    assert_eq!(encoder.result_units, 0);

    let error = encoder
        .append(3, unencoded, 1, &go_on, &|_bytes: u64| {
            Err(QueryBudgetError::Failed("out of order".to_string()))
        }, &grant)
        .expect_err("the budget failed");
    assert_eq!(
        error,
        RemoteReadQueryError::Internal(
            "failed to reserve remote-read response memory: out of order".to_string()
        )
    );
}

#[test]
fn refused_returned_bytes_put_the_reservation_back() {
    let mut encoder = RemoteReadResponseEncoder::with_execution_limit(1024, grant)
        .expect("encoder should build");
    let refuse = |_bytes: u64| Err(QueryBudgetError::Cancelled);
    let asked = RefCell::new(Vec::new());
    let note = |bytes: u64| {
        asked.borrow_mut().push(bytes);
        Ok(())
    };
    encoder
        .append(3, unencoded, 1, &go_on, &note, &refuse)
        .expect_err("the returned bytes are refused");
    assert_eq!(*asked.borrow(), vec![5 + 64, 0]);
    assert_eq!(encoder.reserved, Some(0));
    let only_more = |bytes: u64| {
        if bytes == 0 {
            Err(QueryBudgetError::Cancelled)
        } else {
            Ok(())
        }
    };
    encoder
        .append(3, unencoded, 1, &go_on, &only_more, &refuse)
        .expect_err("the returned bytes are refused");
    assert_eq!(encoder.reserved, Some(5 + 64));
    assert!(encoder.raw.is_empty());
}

#[test]
fn a_result_is_held_against_the_limit_by_its_length_alone() {
    let encoder = RemoteReadResponseEncoder::with_limit(5);
    assert_eq!(encoder.check_fits(3), Ok(5));
    assert_eq!(
        encoder.check_fits(4),
        Err(RemoteReadQueryError::Budget(limit(QueryLimitReason::ReturnedBytes, 5, 0, 6)))
    );
    assert_eq!(
        encoder.check_fits(usize::MAX),
        Err(RemoteReadQueryError::Budget(limit(
            QueryLimitReason::ReturnedBytes,
            5,
            0,
            usize::MAX as u64
        )))
    );
}

#[test]
fn growing_metadata_is_reserved_before_and_after_it_is_merged() {
    let asked = RefCell::new(Vec::new());
    let note = |bytes: u64| {
        asked.borrow_mut().push(bytes);
        Ok(())
    };
    assert_eq!(hold_merged_metadata(10, 20, || 25, &note), Ok(25));
    assert_eq!(hold_merged_metadata(u64::MAX, 1, || 2, &note), Ok(2));
    assert_eq!(*asked.borrow(), vec![30, 25, u64::MAX, 2]);
    let below = |most: u64| {
        move |bytes: u64| {
            if bytes <= most {
                Ok(())
            } else {
                Err(limit(QueryLimitReason::PerQueryMemoryBytes, most, 0, bytes))
            }
        }
    };
    assert_eq!(
        hold_merged_metadata(10, 20, || panic!("there is no room to merge in"), &below(29)),
        Err(limit(QueryLimitReason::PerQueryMemoryBytes, 29, 0, 30))
    );
    assert_eq!(
        hold_merged_metadata(1, 2, || 30, &below(29)),
        Err(limit(QueryLimitReason::PerQueryMemoryBytes, 29, 0, 30))
    );
}

#[test]
fn a_body_that_is_turned_away_is_not_decoded() {
    let unused = |_bytes: &[u8]| panic!("nothing is decoded");
    let body = encoded_remote_read_body(vec![query_with_matchers(
        (0..MAX_MATCHERS + 1)
            .map(|index| matcher(format!("label_{index}"), String::new()))
            .collect(),
    )]);
    decode_remote_read_request(&limits(), None, &body, &go_on, &grant, &grant, unused)
        .expect_err("there are too many matchers");
    decode_remote_read_request(&limits(), Some("gzip"), b"", &go_on, &grant, &grant, unused)
        .expect_err("the encoding is not known");
    let whole = encoded_remote_read_body(vec![query_with_matchers(vec![matcher(
        "job".to_string(),
        "api".to_string(),
    )])]);
    decode_remote_read_request(
        &limits(),
        None,
        &whole,
        &go_on,
        &|_bytes: u64| Err(QueryBudgetError::Cancelled),
        &grant,
        unused,
    )
    .expect_err("the budget refuses");
}

#[test]
fn a_compressed_response_decompresses_to_what_was_framed() {
    let raw = read_response(&[query_result("compressed", 1), query_result("compressed", 2)]);
    let reserved = RefCell::new(Vec::new());
    let compressed = compress_remote_read_response(
        &EncodedRemoteReadResponse { raw: raw.clone() },
        &go_on,
        |bytes: u64| {
            reserved.borrow_mut().push(bytes);
            Ok(())
        },
        grant,
    )
    .expect("the response should compress");
    let room = 32 + raw.len() + raw.len() / 6;
    assert_eq!(*reserved.borrow(), vec![room as u64 + 64]);
    assert_ne!(compressed.body, raw);
    assert!(compressed.body.len() <= room);
    assert_eq!(
        snap::raw::Decoder::new().decompress_vec(&compressed.body).expect("a whole response"),
        raw
    );
    assert!(compressed.reserved >= compressed.body.len() as u64 + 64);

    let body = compressed.body.clone();
    let header = |name: &str, value: &str| (name.to_string(), value.to_string());
    let fixed = vec![
        header("Content-Type", "application/x-protobuf"),
        header("Content-Encoding", "snappy"),
        header("X-Prometheus-Remote-Read-Version", "0.1.0"),
    ];
    let again = CompressedRemoteReadResponse { body: body.clone(), reserved: 0 };
    let answer = success_answer(compressed, None);
    assert_eq!(answer.status, 200);
    assert_eq!(answer.body, body);
    assert_eq!(answer.headers, fixed);
    let more = vec![header("X-Read-Consistency", "quorum"), header("X-Read-Partial", "false")];
    let answer = success_answer(again, Some(more.clone()));
    assert_eq!(answer.body, body);
    assert_eq!(answer.headers, [fixed, more].concat());
    let stopped = compress_remote_read_response(
        &EncodedRemoteReadResponse { raw },
        &|| Err(QueryBudgetError::Cancelled),
        grant,
        grant,
    )
    .expect_err("the query was cancelled");
    assert_eq!(stopped, RemoteReadQueryError::Budget(QueryBudgetError::Cancelled));
}

#[test]
fn remote_read_predecode_matcher_count_limit_is_exact() {
    let exact_matchers = (0..MAX_MATCHERS)
        .map(|index| matcher(format!("label_{index}"), String::new()))
        .collect();
    let exact = encoded_remote_read_body(vec![query_with_matchers(exact_matchers)]);
    scan_remote_read_decode_model(&limits(), &exact)
        .expect("the exact remote-read matcher-count limit should pass predecode");

    let one_over_matchers = (0..=MAX_MATCHERS)
        .map(|index| matcher(format!("label_{index}"), String::new()))
        .collect();
    let one_over = encoded_remote_read_body(vec![query_with_matchers(one_over_matchers)]);
    assert_eq!(
        scan_remote_read_decode_model(&limits(), &one_over),
        Err(RemoteReadDecodeScanError::MatcherShape(
            RemoteReadMatcherShapeError::TooManyMatchers {
                query_index: 0,
                actual: MAX_MATCHERS + 1,
            }
        ))
    );
}

#[test]
fn remote_read_predecode_matcher_name_limit_is_exact() {
    let exact = encoded_remote_read_body(vec![query_with_matchers(vec![matcher(
        "n".repeat(MAX_NAME_BYTES),
        String::new(),
    )])]);
    scan_remote_read_decode_model(&limits(), &exact)
        .expect("the exact remote-read matcher-name limit should pass predecode");

    let one_over = encoded_remote_read_body(vec![query_with_matchers(vec![matcher(
        "n".repeat(MAX_NAME_BYTES + 1),
        String::new(),
    )])]);
    assert_eq!(
        scan_remote_read_decode_model(&limits(), &one_over),
        Err(RemoteReadDecodeScanError::MatcherShape(
            RemoteReadMatcherShapeError::NameTooLong {
                query_index: 0,
                matcher_index: 0,
                actual: MAX_NAME_BYTES + 1,
            }
        ))
    );
}

#[test]
fn remote_read_predecode_matcher_value_limit_is_exact() {
    let exact = encoded_remote_read_body(vec![query_with_matchers(vec![matcher(
        "label".to_string(),
        "v".repeat(MAX_VALUE_BYTES),
    )])]);
    scan_remote_read_decode_model(&limits(), &exact)
        .expect("the exact remote-read matcher-value limit should pass predecode");

    let one_over = encoded_remote_read_body(vec![query_with_matchers(vec![matcher(
        "label".to_string(),
        "v".repeat(MAX_VALUE_BYTES + 1),
    )])]);
    assert_eq!(
        scan_remote_read_decode_model(&limits(), &one_over),
        Err(RemoteReadDecodeScanError::MatcherShape(
            RemoteReadMatcherShapeError::ValueTooLong {
                query_index: 0,
                matcher_index: 0,
                actual: MAX_VALUE_BYTES + 1,
            }
        ))
    );
}

fn cumulative_matchers(total_bytes: usize) -> Vec<LabelMatcher> {
    let bytes_per_matcher = total_bytes / MAX_MATCHERS;
    let remainder = total_bytes % MAX_MATCHERS;
    (0..MAX_MATCHERS)
        .map(|index| {
            let matcher_bytes = bytes_per_matcher + usize::from(index < remainder);
            assert!(matcher_bytes >= 1);
            matcher("n".to_string(), "v".repeat(matcher_bytes - 1))
        })
        .collect()
}

#[test]
fn remote_read_predecode_cumulative_matcher_bytes_limit_is_exact() {
    let exact = encoded_remote_read_body(vec![query_with_matchers(cumulative_matchers(
        MAX_SELECTION_BYTES,
    ))]);
    scan_remote_read_decode_model(&limits(), &exact)
        .expect("the exact cumulative remote-read matcher-byte limit should pass predecode");

    let one_over = encoded_remote_read_body(vec![query_with_matchers(cumulative_matchers(
        MAX_SELECTION_BYTES + 1,
    ))]);
    assert_eq!(
        scan_remote_read_decode_model(&limits(), &one_over),
        Err(RemoteReadDecodeScanError::MatcherShape(
            RemoteReadMatcherShapeError::TotalTooLong {
                query_index: 0,
                actual: MAX_SELECTION_BYTES + 1,
            }
        ))
    );
}

#[test]
fn a_scan_counts_what_decoding_allocates() {
    let mut body = encoded_remote_read_body(vec![query_with_matchers(vec![matcher(
        "job".to_string(),
        "api".to_string(),
    )])]);
    // Two accepted response types, one alone and one packed.
    body.extend_from_slice(&[0x10, 0x00]);
    delimited(2, &[0x01], &mut body);
    let expected = (3 + 64)
        + (3 + 64)
        + (4 * std::mem::size_of::<LabelMatcher>() as u64 + 64)
        + (4 * std::mem::size_of::<Query>() as u64 + 64)
        + (4 * 4 + 64);
    assert_eq!(scan_remote_read_decode_model(&limits(), &body), Ok(expected));
}

#[test]
fn malformed_bytes_are_told_apart() {
    let scan = |bytes: &[u8]| match scan_remote_read_decode_model(&limits(), bytes) {
        Err(RemoteReadDecodeScanError::Malformed(message)) => message,
        other => panic!("unexpected outcome {other:?}"),
    };
    assert_eq!(scan(&[0x0a, 0x05, 0x08]), "truncated length-delimited protobuf field");
    assert_eq!(scan(&[0x80]), "truncated protobuf varint");
    assert_eq!(scan(&[0x00]), "protobuf field number zero is invalid");
    assert_eq!(scan(&[0x0b]), "unsupported protobuf wire type 3");
    assert_eq!(scan(&[0x09, 1, 2, 3]), "truncated fixed64 protobuf field");
    assert_eq!(scan(&[0x0d, 1, 2]), "truncated fixed32 protobuf field");
    assert_eq!(scan(&[0xff; 11]), "protobuf varint overflow");
    let mut matcher_bytes = Vec::new();
    delimited(2, &[0xff, 0xfe], &mut matcher_bytes);
    let mut query = Vec::new();
    delimited(3, &matcher_bytes, &mut query);
    let mut body = Vec::new();
    delimited(1, &query, &mut body);
    assert_eq!(scan(&body), "protobuf matcher string is not valid UTF-8");
    let mut hints = Vec::new();
    delimited(5, &[0xff], &mut hints);
    let mut query = Vec::new();
    delimited(4, &hints, &mut query);
    let mut body = Vec::new();
    delimited(1, &query, &mut body);
    assert_eq!(scan(&body), "protobuf read-hint string is not valid UTF-8");
}

#[test]
fn varints_are_read_to_the_largest_number() {
    for value in [0u64, 1, 127, 128, 300, u32::MAX as u64, u64::MAX - 1, u64::MAX] {
        let mut bytes = vec![7];
        varint(value, &mut bytes);
        let end = bytes.len();
        bytes.push(9);
        assert_eq!(read_protobuf_varint(&bytes, 1), Ok((value, end)));
    }
}

#[test]
fn room_grows_by_doubling() {
    for (len, room) in [(0, 0), (1, 4), (4, 4), (5, 8), (8, 8), (9, 16), (1000, 1024)] {
        assert_eq!(protobuf_growth_capacity_upper(len), room);
    }
    assert_eq!(protobuf_growth_capacity_upper(usize::MAX), usize::MAX);
    assert_eq!(modeled_vec_capacity_bytes::<u64>(0), 0);
    assert_eq!(modeled_vec_capacity_bytes::<u64>(3), 24 + 64);
    assert_eq!(modeled_owned_str_bytes(""), 0);
    assert_eq!(modeled_owned_str_bytes("\u{2603}"), 3 + 64);
}

#[test]
fn remote_read_matcher_shape_rejection_precedes_prost_allocation_and_is_bounded() {
    const SENTINEL: &str = "REMOTE_READ_MATCHER_SECRET_SENTINEL";
    let oversized_value = SENTINEL.repeat((MAX_VALUE_BYTES / SENTINEL.len()) + 2);
    let body = encoded_remote_read_body(vec![
        query_with_matchers(Vec::new()),
        query_with_matchers(vec![matcher("label".to_string(), oversized_value)]),
    ]);
    let reserved = Cell::new(0u64);
    let decoded = Cell::new(false);
    let error = decode_remote_read_request(
        &limits(),
        None,
        &body,
        &go_on,
        &|bytes: u64| {
            reserved.set(reserved.get() + bytes);
            Ok(())
        },
        &grant,
        |bytes: &[u8]| {
            decoded.set(true);
            decoded_queries(bytes)
        },
    )
    .expect_err("an oversized matcher must fail during wire predecode");
    assert_eq!(reserved.get(), 0);
    assert!(!decoded.get());
    let response = remote_read_query_error_response(&limits(), &error, "");
    assert_eq!(response.status, 400);
    assert!(response.text.contains("query index 1"));
    assert!(response.text.contains("matcher index 0"));
    assert!(response.text.contains("value"));
    assert!(response.text.len() <= MAX_DIAGNOSTIC_BYTES);
    assert!(!response.text.contains(SENTINEL));
}

#[test]
fn remote_read_decode_drops_snappy_buffer_before_its_reservation() {
    let plain = encoded_remote_read_body(vec![query_with_matchers(vec![matcher(
        "__name__".to_string(),
        "decode_release".to_string(),
    )])]);
    let body = snap::raw::Encoder::new().compress_vec(&plain).expect("request should compress");
    let reserved = RefCell::new(Vec::new());
    let resized = RefCell::new(Vec::new());
    let decoded = decode_remote_read_request(
        &limits(),
        Some("Snappy"),
        &body,
        &go_on,
        &|bytes: u64| {
            reserved.borrow_mut().push(bytes);
            Ok(())
        },
        &|bytes: u64| {
            resized.borrow_mut().push(bytes);
            Ok(())
        },
        |bytes: &[u8]| {
            assert_eq!(bytes, plain.as_slice());
            decoded_queries(bytes)
        },
    )
    .expect("request should decode");
    assert_eq!(decoded.queries.len(), 1);
    let reserved = reserved.into_inner();
    let resized = resized.into_inner();
    assert_eq!(reserved.len(), 2);
    assert_eq!(reserved[0], plain.len() as u64 + 64);
    assert_eq!(resized[1], modeled_remote_read_request_heap_bytes(&decoded));
    // What is reserved for the decompressed bytes and for the decoded request overlaps.
    assert!(resized[0] + reserved[1] > resized[1]);
}

#[test]
fn bodies_are_bounded_before_they_are_unpacked() {
    let decode = |header: Option<&str>, body: &[u8], max: usize| {
        let bounds = RemoteReadLimits { max_body_bytes: max, ..limits() };
        decode_remote_read_request(&bounds, header, body, &go_on, &grant, &grant, decoded_queries)
            .map_err(|error| match error {
                RemoteReadQueryError::InvalidRequest(message) => message,
                other => panic!("unexpected error {other:?}"),
            })
    };
    let plain = encoded_remote_read_body(vec![empty_query()]);
    assert!(decode(None, &plain, plain.len()).is_ok());
    assert_eq!(
        decode(Some("IDENTITY"), &plain, plain.len() - 1),
        Err(format!(
            "decoded request body too large: {} bytes (max {})",
            plain.len(),
            plain.len() - 1
        ))
    );
    let packed = snap::raw::Encoder::new().compress_vec(&plain).expect("it should compress");
    assert!(decode(Some("snappy"), &packed, plain.len()).is_ok());
    assert_eq!(
        decode(Some("snappy"), &packed, plain.len() - 1),
        Err(format!(
            "decoded request body too large: {} bytes (max {})",
            plain.len(),
            plain.len() - 1
        ))
    );
    assert!(decode(Some("snappy"), &[0xff; 8], 1024)
        .expect_err("the header is not valid")
        .starts_with("snappy decode failed: "));
    assert!(decode(Some("snappy"), &packed[..packed.len() - 1], 1024)
        .expect_err("the body is cut off")
        .starts_with("snappy decode failed: "));
    assert_eq!(
        decode(Some("gzip-REMOTE_SECRET"), &plain, 1024),
        Err("unsupported remote-read content-encoding".to_string())
    );
    assert_eq!(
        decode(None, &[0x0a, 0x05, 0x08], 1024),
        Err("invalid protobuf body: truncated length-delimited protobuf field".to_string())
    );
    let refused = decode_remote_read_request(
        &limits(),
        None,
        &plain,
        &go_on,
        &grant,
        &grant,
        |_bytes: &[u8]| Err("wrong".to_string()),
    );
    assert_eq!(
        refused,
        Err(RemoteReadQueryError::InvalidRequest("invalid protobuf body: wrong".to_string()))
    );
}

#[test]
fn remote_read_query_errors_have_stable_http_mappings() {
    let invalid = remote_read_query_error_response(
        &limits(),
        &RemoteReadQueryError::InvalidRequest("unknown matcher type".to_string()),
        "",
    );
    assert_eq!(invalid.status, 400);
    assert_eq!(invalid.error_code, None);
    assert_eq!(invalid.text, "unknown matcher type");

    let work = remote_read_query_budget_error_response(
        &limits(),
        &limit(QueryLimitReason::SamplesScanned, 1, 1, 1),
        "too many samples",
    );
    assert_eq!(work.status, 413);
    assert_eq!(work.error_code.as_deref(), Some("query_limit_samples_scanned"));
    assert_eq!(work.retry_after, None);

    for reason in [QueryLimitReason::ConcurrentQueries, QueryLimitReason::SharedMemoryBytes] {
        let retryable =
            remote_read_query_budget_error_response(&limits(), &limit(reason, 1, 1, 1), "busy");
        assert_eq!(retryable.status, 429);
        assert_eq!(retryable.retry_after, Some(1));
    }

    for error in [QueryBudgetError::Cancelled, QueryBudgetError::DeadlineExceeded] {
        let unavailable = remote_read_query_budget_error_response(&limits(), &error, "late");
        assert_eq!(unavailable.status, 503);
    }
    let failed = remote_read_query_budget_error_response(
        &limits(),
        &QueryBudgetError::Failed("inner".to_string()),
        "inner",
    );
    assert_eq!((failed.status, failed.text.as_str()), (500, "query failed"));
    let wrong = remote_read_query_budget_error_response(
        &limits(),
        &QueryBudgetError::InvalidLimits("zero".to_string()),
        "zero",
    );
    assert_eq!(wrong.status, 400);
    assert_eq!(wrong.error_code.as_deref(), Some("invalid_query_limits"));
}

#[test]
fn remote_read_storage_errors_distinguish_requests_internal_failures_and_unavailability() {
    let cases = [
        (StorageError::InvalidTimeRange, 400),
        (StorageError::InvalidMetricName("bad metric".to_string()), 400),
        (StorageError::Other("read failed".to_string()), 500),
        (StorageError::Other("invalid segment".to_string()), 500),
        (StorageError::StorageShuttingDown, 503),
        (StorageError::StorageClosed, 503),
        (StorageError::LifecycleTimeout, 503),
    ];

    for (error, expected_status) in cases {
        let response = remote_read_query_error_response(
            &limits(),
            &RemoteReadQueryError::storage("query failed", error),
            "",
        );
        assert_eq!(response.status, expected_status);
        assert!(response.text.starts_with("query failed: "));
    }
}

#[test]
fn distributed_failures_have_stable_answers() {
    let answer = |error: ReadFanoutError| remote_read_fanout_error_response(&limits(), &error, "");
    let invalid = answer(ReadFanoutError::InvalidRequest { message: "SECRET".to_string() });
    assert_eq!((invalid.status, invalid.text.as_str()), (400, "invalid remote-read query"));
    let merge = answer(ReadFanoutError::MergeLimitExceeded);
    assert_eq!(merge.status, 413);
    assert_eq!(merge.error_code.as_deref(), Some("read_merge_limit_exceeded"));
    let busy = answer(ReadFanoutError::ResourceLimitExceeded { retryable: true });
    assert_eq!((busy.status, busy.retry_after), (429, Some(1)));
    let full = answer(ReadFanoutError::ResourceLimitExceeded { retryable: false });
    assert_eq!((full.status, full.retry_after), (413, None));
    let strict = answer(ReadFanoutError::ConsistencyUnmet { strict: true });
    assert_eq!(strict.status, 409);
    let loose = answer(ReadFanoutError::ConsistencyUnmet { strict: false });
    assert_eq!(loose.error_code.as_deref(), Some("read_consistency_unmet"));
    assert_eq!(answer(ReadFanoutError::Failed { retryable: true }).status, 503);
    assert_eq!(answer(ReadFanoutError::Failed { retryable: false }).status, 500);
    let budget = answer(ReadFanoutError::QueryBudget { error: QueryBudgetError::Cancelled });
    assert_eq!(budget.error_code.as_deref(), Some("query_cancelled"));
}

#[test]
fn diagnostics_are_cut_between_characters() {
    let bounds = RemoteReadLimits { max_diagnostic_bytes: 7, ..limits() };
    assert_eq!(bounded_remote_read_diagnostic(&bounds, "seven b"), "seven b");
    assert_eq!(bounded_remote_read_diagnostic(&bounds, "eight by"), "eight b");
    assert_eq!(bounded_remote_read_diagnostic(&bounds, "\u{2603}\u{2603}\u{2603}"), "\u{2603}\u{2603}");
    let none = RemoteReadLimits { max_diagnostic_bytes: 0, ..limits() };
    assert_eq!(bounded_remote_read_diagnostic(&none, "x"), "");
}

#[test]
fn only_sample_responses_are_accepted() {
    let with = |kinds: Vec<i32>| {
        validate_remote_read_request(&ReadRequest {
            queries: Vec::new(),
            accepted_response_types: kinds,
        })
    };
    assert_eq!(with(vec![]), Ok(()));
    assert_eq!(with(vec![0, 0]), Ok(()));
    assert_eq!(
        with(vec![0, 1]),
        Err("remote read response type StreamedXorChunks is not supported yet".to_string())
    );
    assert_eq!(with(vec![-7]), Err("unsupported remote read response type: -7".to_string()));
}

fn number_at(timestamp: i64) -> DataPoint {
    DataPoint { timestamp, value: PointValue::Number(timestamp as u64) }
}

fn histogram() -> NativeHistogram {
    NativeHistogram {
        count: Some(HistogramCount::Int(5)),
        sum: 2.5f64.to_bits(),
        schema: 3,
        zero_threshold: 0,
        zero_count: Some(HistogramCount::Float(1.0f64.to_bits())),
        negative_spans: vec![BucketSpan { offset: -1, length: 2 }],
        negative_deltas: vec![1, -1],
        negative_counts: Vec::new(),
        positive_spans: vec![BucketSpan { offset: 0, length: 1 }],
        positive_deltas: vec![4],
        positive_counts: vec![9],
        reset_hint: HistogramResetHint::Gauge,
        custom_values: vec![11],
    }
}

#[test]
fn points_become_samples_and_histograms_with_sorted_labels() {
    let made = prom_time_series_from_points(
        MetricSeries {
            name: "up".to_string(),
            labels: vec![Label::new("zone", "z"), Label::new("A", "b"), Label::new("zone", "a")],
        },
        vec![
            number_at(3),
            DataPoint { timestamp: 4, value: PointValue::Opaque },
            DataPoint { timestamp: 5, value: PointValue::Histogram(Box::new(histogram())) },
            number_at(6),
        ],
    )
    .expect("there are samples");
    assert_eq!(
        made.labels,
        vec![
            Label::new("A", "b"),
            Label::new("__name__", "up"),
            Label::new("zone", "a"),
            Label::new("zone", "z"),
        ]
    );
    assert_eq!(
        made.samples,
        vec![PromSample { value: 3, timestamp: 3 }, PromSample { value: 6, timestamp: 6 }]
    );
    assert_eq!(made.histograms, vec![tsink_histogram_to_prom(histogram(), 5)]);
    assert_eq!(made.histograms[0].reset_hint, 3);
    assert_eq!(made.histograms[0].timestamp, 5);

    let nothing = prom_time_series_from_points(
        MetricSeries { name: "up".to_string(), labels: Vec::new() },
        vec![DataPoint { timestamp: 4, value: PointValue::Opaque }],
    );
    assert_eq!(nothing, None);
}

#[test]
fn series_are_ordered_by_labels_then_points_then_time() {
    let series = |value: &str, times: &[i64]| TimeSeries {
        labels: vec![Label::new("a", value)],
        samples: times.iter().map(|time| PromSample { value: 0, timestamp: *time }).collect(),
        histograms: Vec::new(),
    };
    assert_eq!(compare_prom_series(&series("x", &[1]), &series("y", &[1])), Rank::Before);
    assert_eq!(compare_prom_series(&series("x", &[1, 2]), &series("x", &[9])), Rank::After);
    assert_eq!(compare_prom_series(&series("x", &[2]), &series("x", &[1])), Rank::After);
    assert_eq!(compare_prom_series(&series("x", &[1]), &series("x", &[1])), Rank::Same);
    let longer = TimeSeries {
        labels: vec![Label::new("a", "x"), Label::new("b", "")],
        samples: Vec::new(),
        histograms: Vec::new(),
    };
    assert_eq!(compare_prom_series(&series("x", &[1]), &longer), Rank::Before);
    assert_eq!(compare_prom_series(&longer, &series("x", &[1])), Rank::After);
}

#[test]
fn a_result_keeps_matched_visible_series_and_sorts_them_stably() {
    let item = |name: &str, visibility: Visibility, time: i64| SeriesPoints {
        series: MetricSeries { name: name.to_string(), labels: Vec::new() },
        visibility,
        points: vec![number_at(time)],
    };
    let renamed = MetricSeries { name: "a".to_string(), labels: Vec::new() };
    let observed = RefCell::new(Vec::new());
    let result = guarded_prom_query_result(
        vec![
            item("z", Visibility::Whole, 1),
            item("hidden", Visibility::Hidden, 2),
            item("unmatched", Visibility::Whole, 3),
            item("b", Visibility::Shown(renamed), 4),
        ],
        &Some(vec![true, true, false, true]),
        &go_on,
        &grant,
        &grant,
        &|size: u64| {
            observed.borrow_mut().push(size);
            Ok(())
        },
    )
    .expect("the budget grants all");
    let names: Vec<&str> =
        result.timeseries.iter().map(|series| series.labels[0].value.as_str()).collect();
    assert_eq!(names, ["a", "z"]);
    assert_eq!(*observed.borrow(), vec![1, 1, 2]);

    let refused = guarded_prom_query_result(
        vec![item("z", Visibility::Whole, 1)],
        &None,
        &go_on,
        &grant,
        &grant,
        &|_size: u64| Err(limit(QueryLimitReason::Named("intermediate".to_string()), 0, 0, 1)),
    );
    assert!(refused.is_err());
}

#[test]
fn a_distributed_result_needs_its_bits_and_its_reservation() {
    let points = |matched: Option<Vec<bool>>, reserved: Option<u64>| SelectedPoints {
        series: vec![SeriesPoints {
            series: MetricSeries { name: "up".to_string(), labels: Vec::new() },
            visibility: Visibility::Whole,
            points: vec![number_at(1)],
        }],
        matched,
        reserved,
    };
    let run = |points: SelectedPoints| {
        finish_distributed_query(points, &go_on, &grant, &grant, &grant)
    };
    assert_eq!(run(points(Some(vec![true]), Some(1))).expect("it is whole").timeseries.len(), 1);
    let message = |error: ReadFanoutError| match error {
        ReadFanoutError::InvalidRequest { message } => message,
        other => panic!("unexpected error {other:?}"),
    };
    assert_eq!(
        message(run(points(None, Some(1))).expect_err("no bits")),
        "distributed remote-read point selection returned 0 existence bits for 1 selectors"
    );
    assert!(message(run(points(Some(vec![true]), None)).expect_err("no reservation"))
        .contains("omitted its result reservation"));
    assert!(message(run(points(Some(vec![true]), Some(0))).expect_err("an empty reservation"))
        .contains("retained zero bytes"));
}

#[test]
fn a_union_holds_each_series_once_and_in_order() {
    let series = |name: &str, host: &str| MetricSeries {
        name: name.to_string(),
        labels: vec![Label::new("host", host)],
    };
    let mut union = SeriesUnion::new();
    union
        .merge(vec![series("b", "1"), series("a", "2")], Some(1), 0, || 0, &go_on, &grant)
        .expect("the first node answers");
    union
        .merge(vec![series("a", "1"), series("a", "2")], Some(1), 10, || 10, &go_on, &grant)
        .expect("the second node answers");
    let refused = union
        .merge(vec![series("c", "1")], None, 0, || 0, &go_on, &grant)
        .expect_err("nothing is reserved");
    match refused {
        ReadFanoutError::InvalidRequest { message } => {
            assert!(message.contains("omitted its result reservation"))
        }
        other => panic!("unexpected error {other:?}"),
    }
    let list = union.finish(&grant).expect("the budget grants all");
    assert_eq!(list, vec![series("a", "1"), series("a", "2"), series("b", "1")]);
}

#[test]
fn a_distributed_query_is_prepared_for_its_tenant() {
    let tenants = TenantNames {
        default_tenant: "default".to_string(),
        tenant_label: "__tenant".to_string(),
    };
    let selection = || SeriesSelection {
        metric: Some("up".to_string()),
        matchers: vec![SeriesMatcher { kind: 0, name: "a".to_string(), value: "b".to_string() }],
    };
    let matchers = vec![matcher("__name__".to_string(), "up".to_string())];
    assert_eq!(
        modeled_remote_matcher_selection_upper_bytes(&matchers),
        (4 * std::mem::size_of::<SeriesMatcher>() as u64 + 64) + (8 + 64) + (2 + 64) + (2 + 64)
    );
    let each = |tenant: u64| {
        (2 + 64)
            + (1 + 64)
            + (1 + 64)
            + (4 * std::mem::size_of::<SeriesMatcher>() as u64 + 64)
            + (8 + 64)
            + (tenant + 64)
    };
    let slot = std::mem::size_of::<SeriesSelection>() as u64;
    assert_eq!(
        modeled_tenant_selections_upper_bytes(&selection(), "team-a", &tenants),
        slot + 64 + each(6)
    );
    assert_eq!(
        modeled_tenant_selections_upper_bytes(&selection(), "default", &tenants),
        2 * slot + 64 + each(7) + each(2)
    );
    let query = query_with_matchers(matchers);
    let prepared = prepare_distributed_query(
        &query,
        "team-a",
        &tenants,
        |_matchers: &Vec<LabelMatcher>| Ok(selection()),
        |_selection: &SeriesSelection| Ok(vec![selection()]),
        &go_on,
        &grant,
        &grant,
    )
    .expect("it should be prepared");
    assert_eq!(prepared, vec![selection()]);
    let refused = prepare_distributed_query(
        &query,
        "team-a",
        &tenants,
        |_matchers: &Vec<LabelMatcher>| Err("bad regex".to_string()),
        |_selection: &SeriesSelection| Ok(Vec::new()),
        &go_on,
        &grant,
        &grant,
    );
    assert_eq!(
        refused,
        Err(ReadFanoutError::InvalidRequest {
            message: "invalid remote-read matchers: bad regex".to_string()
        })
    );
}

fn step(session: &mut RemoteReadSession, event: ReadEvent) -> ReadStep {
    match session.advance(&limits(), event) {
        Some(ReadAction::Do(step)) => step,
        other => panic!("unexpected action {other:?}"),
    }
}

fn decoded(queries: usize) -> ReadEvent {
    ReadEvent::Decoded(ReadRequest {
        queries: (0..queries).map(|_| empty_query()).collect(),
        accepted_response_types: Vec::new(),
    })
}

#[test]
fn a_request_goes_through_every_step_in_order() {
    let mut session = RemoteReadSession::new(true);
    let mut steps = vec![session.step];
    for _ in 0..4 {
        steps.push(step(&mut session, ReadEvent::Passed));
    }
    assert!(session.advance(&limits(), ReadEvent::Passed).is_none());
    steps.push(step(&mut session, decoded(2)));
    assert!(session.advance(&limits(), decoded(2)).is_none());
    for _ in 0..10 {
        steps.push(step(&mut session, ReadEvent::Passed));
    }
    assert_eq!(
        steps,
        vec![
            ReadStep::ResolveTenant,
            ReadStep::PrepareTenant,
            ReadStep::BeginExecution,
            ReadStep::ReserveDiagnostics(4096),
            ReadStep::Decode,
            ReadStep::Checkpoint,
            ReadStep::EnforceQuota(2),
            ReadStep::AdmitTenant(2),
            ReadStep::AdmitRead(2),
            ReadStep::ResolveFanout,
            ReadStep::ApplyPolicies,
            ReadStep::ReserveMetadata(0),
            ReadStep::OpenEncoder,
            ReadStep::RunQuery(0),
            ReadStep::RunQuery(1),
            ReadStep::Compress,
        ]
    );
    match session.advance(&limits(), ReadEvent::Passed) {
        Some(ReadAction::Respond { queries: 2, usage_units: 2, read_metadata: true }) => {}
        other => panic!("unexpected action {other:?}"),
    }
    assert!(session.advance(&limits(), ReadEvent::Passed).is_none());
}

#[test]
fn a_request_without_queries_counts_one_unit_and_is_compressed_at_once() {
    let mut session = RemoteReadSession::new(false);
    for _ in 0..4 {
        step(&mut session, ReadEvent::Passed);
    }
    step(&mut session, decoded(0));
    assert_eq!(step(&mut session, ReadEvent::Passed), ReadStep::EnforceQuota(0));
    assert_eq!(step(&mut session, ReadEvent::Passed), ReadStep::AdmitTenant(1));
    assert_eq!(step(&mut session, ReadEvent::Passed), ReadStep::AdmitRead(1));
    assert_eq!(step(&mut session, ReadEvent::Passed), ReadStep::OpenEncoder);
    assert_eq!(step(&mut session, ReadEvent::Passed), ReadStep::Compress);
}

#[test]
fn a_step_that_fails_answers_the_request() {
    let mut session = RemoteReadSession::new(false);
    for _ in 0..4 {
        step(&mut session, ReadEvent::Passed);
    }
    step(&mut session, decoded(3));
    step(&mut session, ReadEvent::Passed);
    let event = ReadEvent::QuotaExceeded { message: "3 queries, 2 allowed".to_string() };
    match session.advance(&limits(), event) {
        Some(ReadAction::Answer { answer, record }) => {
            assert_eq!((answer.status, answer.text.as_str()), (413, "3 queries, 2 allowed"));
            assert_eq!(
                record,
                Some(TenantRecord::Rejected {
                    units: 3,
                    message: "3 queries, 2 allowed".to_string()
                })
            );
        }
        other => panic!("unexpected action {other:?}"),
    }
    assert!(session.advance(&limits(), ReadEvent::Passed).is_none());

    let mut session = RemoteReadSession::new(false);
    for _ in 0..4 {
        step(&mut session, ReadEvent::Passed);
    }
    let unsupported = ReadRequest {
        queries: Vec::new(),
        accepted_response_types: vec![5],
    };
    step(&mut session, ReadEvent::Decoded(unsupported));
    match session.advance(&limits(), ReadEvent::Passed) {
        Some(ReadAction::Answer { answer, record: None }) => {
            assert_eq!(answer.status, 400);
            assert_eq!(answer.text, "unsupported remote read response type: 5");
        }
        other => panic!("unexpected action {other:?}"),
    }

    let answer = |event: ReadEvent| {
        match RemoteReadSession::new(false).advance(&limits(), event) {
            Some(ReadAction::Answer { answer, .. }) => (answer.status, answer.text),
            other => panic!("unexpected action {other:?}"),
        }
    };
    assert_eq!(
        answer(ReadEvent::TaskFailed { message: "cancelled".to_string() }),
        (500, "read task failed: cancelled".to_string())
    );
    assert_eq!(
        answer(ReadEvent::TopologyUnavailable { message: "no ring".to_string() }),
        (503, "cluster read fanout topology unavailable: no ring".to_string())
    );
    assert_eq!(
        answer(ReadEvent::PolicyRejected { message: "bad policy".to_string() }),
        (400, "bad policy".to_string())
    );
}

#[test]
fn nothing_is_reserved_for_a_body_that_says_it_is_too_long() {
    let unreserved = |_bytes: u64| panic!("nothing is reserved");
    let unused = |_bytes: &[u8]| panic!("nothing is decoded");
    let answer = |body: &[u8]| {
        decode_remote_read_request(
            &RemoteReadLimits { max_body_bytes: 300, ..limits() },
            Some("snappy"),
            body,
            &go_on,
            &unreserved,
            &unreserved,
            unused,
        )
        .expect_err("the body is turned away")
    };
    let said = |message: &str| RemoteReadQueryError::InvalidRequest(message.to_string());
    assert_eq!(
        answer(&[0xad, 0x02, 0x00]),
        said("decoded request body too large: 301 bytes (max 300)")
    );
    assert_eq!(
        answer(&[0xff, 0xff, 0xff, 0xff, 0x0f]),
        said("decoded request body too large: 4294967295 bytes (max 300)")
    );
    assert_eq!(
        answer(&[0x80, 0x80, 0x80, 0x80, 0x10]),
        said(
            "snappy decode failed: snappy: input buffer (size = 4294967296) is larger than \
             allowed (size = 4294967295)"
        )
    );
    for body in [&[0x80u8, 0x80][..], &[0x80, 0x80, 0x80, 0x80, 0x80, 0x01]] {
        assert_eq!(
            answer(body),
            said("snappy decode failed: snappy: corrupt input (invalid header)")
        );
    }
    let asked = RefCell::new(Vec::new());
    let empty = decode_remote_read_request(
        &limits(),
        Some("snappy"),
        b"",
        &go_on,
        &|bytes: u64| {
            asked.borrow_mut().push(bytes);
            Ok(())
        },
        &grant,
        unused,
    );
    assert_eq!(empty, Err(said("snappy decode failed: snappy: corrupt input (empty)")));
    assert_eq!(*asked.borrow(), vec![0]);
}

#[test]
fn a_distributed_query_takes_its_steps_in_order() {
    let mut query = DistributedQuery::new();
    assert_eq!(query.step, FanoutStep::Prepare);
    assert_eq!(query.advance(FanoutEvent::Passed), None);
    let mut taken = vec![query.advance(FanoutEvent::Prepared(2))];
    for _ in 0..14 {
        taken.push(query.advance(FanoutEvent::Passed));
    }
    let steps = [
        FanoutStep::ReserveUnion,
        FanoutStep::Checkpoint(0),
        FanoutStep::SelectSeries(0),
        FanoutStep::MergeSeries(0),
        FanoutStep::Checkpoint(1),
        FanoutStep::SelectSeries(1),
        FanoutStep::MergeSeries(1),
        FanoutStep::FinishUnion,
        FanoutStep::ReleaseSelections,
        FanoutStep::ReserveMetadata,
        FanoutStep::SelectPoints,
        FanoutStep::MergeMetadata,
        FanoutStep::CheckPoints,
        FanoutStep::BuildResult,
    ];
    let mut wanted: Vec<Option<FanoutAction>> =
        steps.iter().map(|step| Some(FanoutAction::Do(*step))).collect();
    wanted.push(Some(FanoutAction::Answer));
    assert_eq!(taken, wanted);
    assert_eq!(query.advance(FanoutEvent::Passed), None);

    let mut failing = DistributedQuery::new();
    failing.advance(FanoutEvent::Prepared(0));
    assert_eq!(
        failing.advance(FanoutEvent::Passed),
        Some(FanoutAction::Do(FanoutStep::FinishUnion))
    );
    assert_eq!(
        failing.advance(FanoutEvent::Failed(ReadFanoutError::MergeLimitExceeded)),
        Some(FanoutAction::Fail(ReadFanoutError::MergeLimitExceeded))
    );
    assert_eq!(failing.advance(FanoutEvent::Passed), None);
}

fn expired() -> Result<(), QueryBudgetError> {
    Err(QueryBudgetError::DeadlineExceeded)
}

fn never_asked(_amount: u64) -> Result<(), QueryBudgetError> {
    panic!("nothing is asked for a query that was stopped")
}

#[test]
fn a_query_that_was_stopped_asks_for_nothing() {
    let stopped = || RemoteReadQueryError::Budget(QueryBudgetError::DeadlineExceeded);
    let answer = execute_query(
        &query_with_matchers(vec![matcher("__name__".to_string(), "up".to_string())]),
        true,
        true,
        |_matchers: &Vec<LabelMatcher>| -> Result<(), String> { panic!("nothing is built") },
        |_selection: &()| panic!("no series are selected"),
        |_asked: &Vec<MetricSeries>, _start: i64, _end: i64| panic!("no points are selected"),
        &expired,
        &never_asked,
        &never_asked,
        &never_asked,
    );
    assert_eq!(answer.expect_err("the time is over"), stopped());

    let body = encoded_remote_read_body(vec![query_with_matchers(vec![matcher(
        "job".to_string(),
        "api".to_string(),
    )])]);
    let decoded = decode_remote_read_request(
        &limits(),
        None,
        &body,
        &expired,
        &never_asked,
        &never_asked,
        |_bytes: &[u8]| panic!("nothing is decoded"),
    );
    assert_eq!(decoded.expect_err("the time is over"), stopped());

    let mut encoder = RemoteReadResponseEncoder::with_execution_limit(MAX_BODY_BYTES, grant)
        .expect("encoder should build");
    let appended = encoder.append(3, unencoded, 1, &expired, &never_asked, &never_asked);
    assert_eq!(appended.expect_err("the time is over"), stopped());
    assert!(encoder.raw.is_empty());
    assert_eq!(encoder.reserved, Some(0));
    assert_eq!(encoder.result_units, 0);

    let compressed = compress_remote_read_response(
        &EncodedRemoteReadResponse { raw: body },
        &expired,
        never_asked,
        never_asked,
    );
    assert_eq!(compressed.expect_err("the time is over"), stopped());
}

#[test]
fn a_distributed_query_that_was_stopped_asks_for_nothing() {
    let stopped = || ReadFanoutError::QueryBudget { error: QueryBudgetError::DeadlineExceeded };
    let tenants = TenantNames {
        default_tenant: "default".to_string(),
        tenant_label: "__tenant".to_string(),
    };
    let prepared = prepare_distributed_query(
        &query_with_matchers(vec![matcher("__name__".to_string(), "up".to_string())]),
        "team-a",
        &tenants,
        |_matchers: &Vec<LabelMatcher>| panic!("nothing is built"),
        |_selection: &SeriesSelection| panic!("nothing is scoped"),
        &expired,
        &never_asked,
        &never_asked,
    );
    assert_eq!(prepared, Err(stopped()));

    let points = || SeriesPoints {
        series: MetricSeries { name: "up".to_string(), labels: Vec::new() },
        visibility: Visibility::Whole,
        points: vec![number_at(1)],
    };
    let made = guarded_prom_query_result(
        vec![points()],
        &None,
        &expired,
        &never_asked,
        &never_asked,
        &never_asked,
    );
    assert_eq!(made.expect_err("the time is over"), QueryBudgetError::DeadlineExceeded);
    let finished = finish_distributed_query(
        SelectedPoints { series: vec![points()], matched: Some(vec![true]), reserved: Some(1) },
        &expired,
        &never_asked,
        &never_asked,
        &never_asked,
    );
    assert_eq!(finished.expect_err("the time is over"), stopped());
    let unordered = finish_distributed_query(
        SelectedPoints { series: vec![points()], matched: None, reserved: Some(1) },
        &expired,
        &never_asked,
        &never_asked,
        &never_asked,
    );
    assert!(matches!(unordered, Err(ReadFanoutError::InvalidRequest { .. })));

    let series = MetricSeries { name: "up".to_string(), labels: Vec::new() };
    let mut union = SeriesUnion::new();
    let merged = union.merge(vec![series], Some(1), 0, || 0, &expired, &grant);
    assert_eq!(merged, Err(stopped()));
    assert!(union.finish(&grant).expect("the budget grants all").is_empty());
}
