//! The metric metadata store: its limits, its durable form and its queries.

use std::cell::Cell;
use std::cell::RefCell;

use tsink_server::budget::QueryBudgetError;
use tsink_server::budget::QueryLimitExceeded;
use tsink_server::budget::QueryLimitReason;
use tsink_server::metadata_store::codes::code_carried_by;
use tsink_server::metadata_store::codes::metadata_limit_message;
use tsink_server::metadata_store::codes::MetadataLimit;
use tsink_server::metadata_store::codes::MetricMetadataStoreErrorCode;
use tsink_server::metadata_store::config::MetricMetadataStoreConfig;
use tsink_server::metadata_store::load::load_entries;
use tsink_server::metadata_store::load::PersistedMetricMetadataStore;
use tsink_server::metadata_store::load::PersistedStoreFields;
use tsink_server::metadata_store::load::StartupFile;
use tsink_server::metadata_store::query::MetricMetadataQueryError;
use tsink_server::metadata_store::record::metric_type_to_api_string;
use tsink_server::metadata_store::record::modeled_record_input_bytes;
use tsink_server::metadata_store::record::MetricMetadataRecord;
use tsink_server::metadata_store::record::MetricType;
use tsink_server::metadata_store::record::NormalizedMetricMetadataUpdate;
use tsink_server::metadata_store::store::LoadedMetricMetadataStore;
use tsink_server::metadata_store::store::MetadataApplyError;
use tsink_server::metadata_store::store::MetricMetadataStore;
use tsink_server::metadata_store::store::MetricMetadataStoreState;

fn metadata_update(metric_family_name: &str, help: &str) -> NormalizedMetricMetadataUpdate {
    NormalizedMetricMetadataUpdate {
        metric_family_name: metric_family_name.to_string(),
        metric_type: MetricType::Gauge,
        help: help.to_string(),
        unit: "widgets".to_string(),
    }
}

fn bounded_test_config() -> MetricMetadataStoreConfig {
    MetricMetadataStoreConfig {
        max_entries: 64,
        max_record_bytes: 4 * 1024,
        max_update_batch_entries: 16,
        max_update_batch_bytes: 16 * 1024,
        max_retained_bytes: 1024 * 1024,
        max_durable_file_bytes: 1024 * 1024,
        max_startup_transient_bytes: 4 * 1024 * 1024,
        max_write_transient_bytes: 2 * 1024 * 1024,
        max_query_records: 64,
        max_query_result_bytes: 1024 * 1024,
    }
}

fn kept(_document: &Vec<u8>) -> Result<(), String> {
    Ok(())
}

fn apply(
    store: &mut MetricMetadataStore,
    tenant: &str,
    updates: &[NormalizedMetricMetadataUpdate],
) -> Result<usize, MetadataApplyError> {
    store.apply_updates(tenant, updates, 1_000, kept)
}

fn said(error: &MetadataApplyError) -> &str {
    match error {
        MetadataApplyError::Store(message) => message,
        MetadataApplyError::Persistence(message) => message,
    }
}

fn in_memory(config: MetricMetadataStoreConfig) -> MetricMetadataStore {
    MetricMetadataStore::in_memory_with_config(config).expect("the limits are valid")
}

fn nothing_loaded() -> LoadedMetricMetadataStore {
    LoadedMetricMetadataStore {
        state: MetricMetadataStoreState::empty(),
        durable_file_bytes: 0,
        startup_peak_bytes: 0,
    }
}

fn on_disk(config: MetricMetadataStoreConfig) -> MetricMetadataStore {
    MetricMetadataStore::open_with_config(config, true, nothing_loaded())
        .expect("the limits are valid")
}

fn parse(document: &[u8]) -> Result<PersistedMetricMetadataStore, String> {
    let value: serde_json::Value =
        serde_json::from_slice(document).map_err(|error| error.to_string())?;
    let mut fields = PersistedStoreFields::new();
    fields.see_magic(value["magic"].as_str().expect("a text")).map_err(str::to_string)?;
    fields
        .see_schema_version(value["schema_version"].as_u64().expect("a number") as u16)
        .map_err(str::to_string)?;
    fields.see_entries().map_err(str::to_string)?;
    let (magic_valid, schema_version) = fields.finish().map_err(str::to_string)?;
    let entries: Vec<String> = value["entries"]
        .as_array()
        .expect("a list")
        .iter()
        .map(|entry| entry.to_string())
        .collect();
    Ok(PersistedMetricMetadataStore {
        magic_valid,
        schema_version,
        entries_capacity: entries.len(),
        entries,
    })
}

fn decode(record: &str) -> Result<MetricMetadataRecord, String> {
    let entry: serde_json::Value =
        serde_json::from_str(record).map_err(|error| error.to_string())?;
    let text = |name: &str| entry[name].as_str().expect("a text").to_string();
    Ok(MetricMetadataRecord {
        tenant_id: text("tenant_id"),
        metric_family_name: text("metric_family_name"),
        metric_type: entry["metric_type"].as_i64().expect("a number") as i32,
        help: text("help"),
        unit: text("unit"),
        updated_unix_ms: entry["updated_unix_ms"].as_u64().expect("a number"),
    })
}

fn reopen(
    config: MetricMetadataStoreConfig,
    document: &[u8],
) -> Result<MetricMetadataStore, String> {
    let file = StartupFile {
        path: "metric-metadata-store.json".to_string(),
        file_len: document.len(),
        raw_len: document.len(),
        raw_capacity: document.len(),
        grew_while_reading: false,
    };
    let loaded = load_entries(&config, &file, parse(document), decode)?;
    MetricMetadataStore::open_with_config(config, true, loaded)
}

fn go_on() -> Result<(), QueryBudgetError> {
    Ok(())
}

fn grant(_bytes: u64) -> Result<(), QueryBudgetError> {
    Ok(())
}

#[test]
fn metadata_store_config_and_input_boundaries_are_exact() {
    assert!(MetricMetadataStoreConfig::default().validate().is_ok());
    assert!(MetricMetadataStoreConfig { max_entries: 0, ..MetricMetadataStoreConfig::default() }
        .validate()
        .is_err());

    let update = metadata_update("m", "help");
    let exact_record_bytes =
        modeled_record_input_bytes("t", &update.metric_family_name, &update.help, &update.unit);
    let mut exact = in_memory(MetricMetadataStoreConfig {
        max_record_bytes: exact_record_bytes,
        max_update_batch_bytes: exact_record_bytes,
        max_entries: 1,
        max_update_batch_entries: 1,
        ..bounded_test_config()
    });
    assert_eq!(exact.config().max_record_bytes, exact_record_bytes);
    assert_eq!(
        apply(&mut exact, "t", std::slice::from_ref(&update))
            .expect("exact record bytes should fit"),
        1
    );

    let mut below = in_memory(MetricMetadataStoreConfig {
        max_record_bytes: exact_record_bytes - 1,
        max_update_batch_bytes: exact_record_bytes,
        ..bounded_test_config()
    });
    let error = apply(&mut below, "t", std::slice::from_ref(&update))
        .expect_err("one byte above the record limit must fail");
    assert!(said(&error).contains("record input byte limit"));
    assert_eq!(
        MetricMetadataStore::classify_apply_error(&error),
        Some(MetricMetadataStoreErrorCode::RecordInputBytesLimit)
    );
    let snapshot = below.metrics_snapshot();
    assert_eq!(snapshot.entries, 0);
    assert_eq!(snapshot.record_rejections_total, 1);
    assert_eq!(snapshot.transient_bytes, 0);

    let mut entries = in_memory(MetricMetadataStoreConfig {
        max_entries: 1,
        max_update_batch_entries: 1,
        ..bounded_test_config()
    });
    apply(&mut entries, "t", &[metadata_update("a", "a")]).expect("one entry fits");
    let error = apply(&mut entries, "t", &[metadata_update("b", "b")])
        .expect_err("N+1 entries must fail");
    assert!(said(&error).contains("entry limit"));
    assert_eq!(
        MetricMetadataStore::classify_apply_error(&error),
        Some(MetricMetadataStoreErrorCode::EntryLimit)
    );
    assert_eq!(entries.metrics_snapshot().entries, 1);

    let mut batch = in_memory(MetricMetadataStoreConfig {
        max_entries: 2,
        max_update_batch_entries: 2,
        ..bounded_test_config()
    });
    apply(&mut batch, "t", &[metadata_update("a", "a"), metadata_update("b", "b")])
        .expect("N updates should fit");
    let mut rejected_batch = in_memory(MetricMetadataStoreConfig {
        max_entries: 2,
        max_update_batch_entries: 1,
        ..bounded_test_config()
    });
    let error =
        apply(&mut rejected_batch, "t", &[metadata_update("a", "a"), metadata_update("b", "b")])
            .expect_err("N+1 batch entries must fail");
    assert!(said(&error).contains("update batch entry limit"));

    let byte_updates = [metadata_update("a", "one"), metadata_update("b", "two")];
    let exact_batch_bytes = byte_updates.iter().fold(0usize, |bytes, update| {
        bytes.saturating_add(modeled_record_input_bytes(
            "t",
            &update.metric_family_name,
            &update.help,
            &update.unit,
        ))
    });
    let mut exact_batch = in_memory(MetricMetadataStoreConfig {
        max_update_batch_bytes: exact_batch_bytes,
        max_record_bytes: exact_batch_bytes,
        max_entries: 2,
        max_update_batch_entries: 2,
        ..bounded_test_config()
    });
    apply(&mut exact_batch, "t", &byte_updates).expect("N update bytes should fit");
    let mut byte_below = in_memory(MetricMetadataStoreConfig {
        max_update_batch_bytes: exact_batch_bytes - 1,
        max_record_bytes: exact_batch_bytes - 1,
        max_entries: 2,
        max_update_batch_entries: 2,
        ..bounded_test_config()
    });
    let error = apply(&mut byte_below, "t", &byte_updates)
        .expect_err("N+1 update bytes must fail");
    assert!(said(&error).contains("update batch byte limit"));
}

#[test]
fn retained_bytes_have_exact_boundary_and_replacement_does_not_consume_an_entry() {
    let update = metadata_update("metric", "original");
    let mut probe = in_memory(bounded_test_config());
    apply(&mut probe, "tenant", std::slice::from_ref(&update)).expect("the probe fits");
    let exact_retained = probe.metrics_snapshot().retained_bytes as usize;

    let mut exact = in_memory(MetricMetadataStoreConfig {
        max_entries: 1,
        max_update_batch_entries: 1,
        max_retained_bytes: exact_retained,
        ..bounded_test_config()
    });
    apply(&mut exact, "tenant", std::slice::from_ref(&update))
        .expect("exact retained bytes should fit");
    assert_eq!(exact.metrics_snapshot().retained_bytes, exact_retained as u64);

    let mut below = in_memory(MetricMetadataStoreConfig {
        max_entries: 1,
        max_update_batch_entries: 1,
        max_retained_bytes: exact_retained - 1,
        ..bounded_test_config()
    });
    let error = apply(&mut below, "tenant", std::slice::from_ref(&update))
        .expect_err("N-1 retained bytes must fail");
    assert!(said(&error).contains("retained byte limit"));
    assert_eq!(
        MetricMetadataStore::classify_apply_error(&error),
        Some(MetricMetadataStoreErrorCode::RetainedBytesLimit)
    );
    let rejected = below.metrics_snapshot();
    assert_eq!(rejected.entries, 0);
    assert_eq!(rejected.retained_rejections_total, 1);
    assert_eq!(rejected.transient_bytes, 0);

    let mut replacement = in_memory(MetricMetadataStoreConfig {
        max_entries: 1,
        max_update_batch_entries: 1,
        ..bounded_test_config()
    });
    apply(&mut replacement, "tenant", &[metadata_update("metric", "before")])
        .expect("one entry fits");
    apply(&mut replacement, "tenant", &[metadata_update("metric", "after")])
        .expect("replacement must not consume another entry");
    assert_eq!(replacement.metrics_snapshot().entries, 1);
    assert_eq!(
        replacement.query("tenant", Some("metric"), 1).expect("one record")[0].help,
        "after"
    );
    let error = apply(&mut replacement, "tenant", &[metadata_update("other_", "after")])
        .expect_err("a distinct entry at N+1 must fail");
    assert!(said(&error).contains("entry limit"));
}

#[test]
fn durable_and_write_transient_bytes_have_exact_boundaries() {
    let update = metadata_update("metric", "bounded-persistence");
    let mut probe = on_disk(bounded_test_config());
    apply(&mut probe, "tenant", std::slice::from_ref(&update)).expect("the probe fits");
    let probe_snapshot = probe.metrics_snapshot();
    let exact_file = probe_snapshot.durable_file_bytes as usize;
    let exact_transient = probe_snapshot.peak_transient_bytes as usize;
    assert!(exact_file > 1);
    assert!(exact_transient > exact_file);
    assert_eq!(probe_snapshot.transient_bytes, 0);

    let mut exact = on_disk(MetricMetadataStoreConfig {
        max_durable_file_bytes: exact_file,
        max_write_transient_bytes: exact_transient,
        ..bounded_test_config()
    });
    apply(&mut exact, "tenant", std::slice::from_ref(&update))
        .expect("exact durable and transient bytes should fit");
    assert_eq!(exact.metrics_snapshot().transient_bytes, 0);

    let written = Cell::new(false);
    let watch = |_document: &Vec<u8>| {
        written.set(true);
        Ok(())
    };
    let mut file_below = on_disk(MetricMetadataStoreConfig {
        max_durable_file_bytes: exact_file - 1,
        ..bounded_test_config()
    });
    let error = file_below
        .apply_updates("tenant", std::slice::from_ref(&update), 1_000, watch)
        .expect_err("N-1 durable bytes must fail");
    assert!(said(&error).contains("durable file byte limit"));
    assert_eq!(
        MetricMetadataStore::classify_apply_error(&error),
        Some(MetricMetadataStoreErrorCode::DurableFileBytesLimit)
    );
    let file_rejected = file_below.metrics_snapshot();
    assert_eq!(file_rejected.entries, 0);
    assert_eq!(file_rejected.durable_file_rejections_total, 1);
    assert_eq!(file_rejected.transient_bytes, 0);
    assert!(!written.get());

    let mut transient_below = on_disk(MetricMetadataStoreConfig {
        max_write_transient_bytes: exact_transient - 1,
        ..bounded_test_config()
    });
    let error = transient_below
        .apply_updates("tenant", &[update], 1_000, watch)
        .expect_err("N-1 transient bytes must fail");
    assert!(said(&error).contains("write transient byte limit"));
    assert_eq!(
        MetricMetadataStore::classify_apply_error(&error),
        Some(MetricMetadataStoreErrorCode::WriteTransientBytesLimit)
    );
    let transient_rejected = transient_below.metrics_snapshot();
    assert_eq!(transient_rejected.entries, 0);
    assert_eq!(transient_rejected.transient_rejections_total, 1);
    assert_eq!(transient_rejected.transient_bytes, 0);
    assert!(!written.get());
}

#[test]
fn guarded_query_memory_has_exact_boundary_and_zero_residual() {
    let mut store =
        in_memory(MetricMetadataStoreConfig { max_query_records: 1, ..bounded_test_config() });
    apply(&mut store, "tenant", &[metadata_update("metric", "query-result")])
        .expect("one entry fits");

    let reserved = Cell::new(0u64);
    let probe = store
        .query_with_execution_result(
            "tenant",
            Some("metric"),
            1,
            &go_on,
            grant,
            |bytes: u64| {
                reserved.set(bytes);
                Ok(())
            },
            grant,
        )
        .expect("the query is answered");
    assert_eq!(probe.records().len(), 1);
    let exact = probe.reserved_memory_bytes();
    assert!(exact > 1);
    assert_eq!(reserved.get(), exact);
    assert_eq!(store.metrics_snapshot().query_result_bytes, exact);
    store.release_query_result(probe);
    assert_eq!(store.metrics_snapshot().query_result_bytes, 0);

    let budget = |max: u64| {
        move |bytes: u64| {
            if bytes > max {
                Err(QueryBudgetError::LimitExceeded(QueryLimitExceeded {
                    reason: QueryLimitReason::PerQueryMemoryBytes,
                    limit: max,
                    current: 0,
                    requested: bytes,
                }))
            } else {
                Ok(())
            }
        }
    };
    let exact_result = store
        .query_with_execution_result(
            "tenant",
            Some("metric"),
            1,
            &go_on,
            budget(exact),
            budget(exact),
            grant,
        )
        .expect("exact query result bytes should fit");
    assert_eq!(exact_result.reserved_memory_bytes(), exact);
    store.release_query_result(exact_result);

    match store.query_with_execution_result(
        "tenant",
        Some("metric"),
        1,
        &go_on,
        budget(exact - 1),
        budget(exact - 1),
        grant,
    ) {
        Err(MetricMetadataQueryError::Budget(QueryBudgetError::LimitExceeded(_))) => {}
        other => panic!("unexpected outcome {other:?}"),
    }
    assert_eq!(store.metrics_snapshot().query_result_bytes, 0);

    let mut result_below = in_memory(MetricMetadataStoreConfig {
        max_query_records: 1,
        max_query_result_bytes: exact as usize - 1,
        ..bounded_test_config()
    });
    apply(&mut result_below, "tenant", &[metadata_update("metric", "query-result")])
        .expect("one entry fits");
    let asked = Cell::new(0usize);
    let result_limit = result_below
        .query_with_execution_result(
            "tenant",
            Some("metric"),
            1,
            &go_on,
            |_bytes: u64| {
                asked.set(asked.get() + 1);
                Ok(())
            },
            grant,
            grant,
        )
        .expect_err("N+1 result bytes must fail");
    assert_eq!(result_limit, MetricMetadataQueryError::ResultLimit);
    assert_eq!(result_limit.code(), "query_result_bytes_limit");
    assert_eq!(asked.get(), 0);
    let record_limit = result_below
        .query_with_execution_result("tenant", None, 2, &go_on, grant, grant, grant)
        .expect_err("N+1 requested records must fail");
    assert_eq!(record_limit, MetricMetadataQueryError::RecordLimit);
    assert_eq!(record_limit.code(), "query_records_limit");

    let cancelled = store
        .query_with_execution_result(
            "tenant",
            Some("metric"),
            1,
            &|| Err(QueryBudgetError::Cancelled),
            grant,
            grant,
            grant,
        )
        .expect_err("a cancelled query must fail without cloning a result");
    assert_eq!(cancelled, MetricMetadataQueryError::Budget(QueryBudgetError::Cancelled));
    assert_eq!(cancelled.code(), "query_budget");
    assert_eq!(
        cancelled.message("the query was cancelled"),
        "metric metadata query budget failed: the query was cancelled"
    );
    assert_eq!(store.metrics_snapshot().query_result_bytes, 0);
}

#[test]
fn metadata_store_persists_last_write_wins_updates() {
    let mut store = on_disk(MetricMetadataStoreConfig::default());
    let document = RefCell::new(Vec::new());
    for help in ["original", "updated"] {
        store
            .apply_updates(
                "tenant-a",
                &[NormalizedMetricMetadataUpdate {
                    metric_family_name: "http_requests_total".to_string(),
                    metric_type: MetricType::Counter,
                    help: help.to_string(),
                    unit: "requests".to_string(),
                }],
                1_000,
                |written: &Vec<u8>| {
                    *document.borrow_mut() = written.clone();
                    Ok(())
                },
            )
            .expect("metadata update should succeed");
    }
    let document = document.into_inner();
    assert_eq!(
        String::from_utf8(document.clone()).expect("the document is text"),
        "{\"magic\":\"tsink-metric-metadata-store\",\"schema_version\":1,\"entries\":[\
         {\"tenant_id\":\"tenant-a\",\"metric_family_name\":\"http_requests_total\",\
         \"metric_type\":1,\"help\":\"updated\",\"unit\":\"requests\",\"updated_unix_ms\":1000}]}\n"
    );
    let mut reopened = reopen(MetricMetadataStoreConfig::default(), &document)
        .expect("reopened metadata store should load");
    let records = reopened
        .query("tenant-a", Some("http_requests_total"), 10)
        .expect("metadata query should succeed");
    assert_eq!(records.len(), 1);
    assert_eq!(records[0].help, "updated");
    assert_eq!(reopened.metrics_snapshot().durable_file_bytes, document.len() as u64);
}

#[test]
fn metadata_store_queries_are_tenant_scoped_and_sorted() {
    let mut store = MetricMetadataStore::in_memory();
    let update = |name: &str, metric_type: MetricType, help: &str, unit: &str| {
        NormalizedMetricMetadataUpdate {
            metric_family_name: name.to_string(),
            metric_type,
            help: help.to_string(),
            unit: unit.to_string(),
        }
    };
    apply(&mut store, "tenant-b", &[update("zeta_metric", MetricType::Gauge, "z", "")])
        .expect("metadata update should succeed");
    apply(
        &mut store,
        "tenant-a",
        &[
            update("zeta_metric", MetricType::Gauge, "z", ""),
            update("alpha_metric", MetricType::Counter, "a", "requests"),
        ],
    )
    .expect("metadata updates should succeed");

    let records = store.query("tenant-a", None, 10).expect("metadata query should succeed");
    assert_eq!(
        records.iter().map(|record| record.metric_family_name.as_str()).collect::<Vec<_>>(),
        vec!["alpha_metric", "zeta_metric"]
    );
    assert_eq!(
        store.query("tenant-a", None, 1).expect("limited metadata query should succeed").len(),
        1
    );
    assert_eq!(
        store.query("tenant-b", None, 10).expect("other tenant query should succeed").len(),
        1
    );
}

#[test]
fn metadata_store_disk_quota_rejection_does_not_publish_updates() {
    let mut store = on_disk(MetricMetadataStoreConfig::default());
    let error = store
        .apply_updates(
            "tenant-a",
            &[NormalizedMetricMetadataUpdate {
                metric_family_name: "http_requests_total".to_string(),
                metric_type: MetricType::Counter,
                help: "a deliberately long help string that exceeds the tiny quota".to_string(),
                unit: "requests".to_string(),
            }],
            1_000,
            |document: &Vec<u8>| {
                assert!(document.len() > 64);
                Err("disk quota exceeded".to_string())
            },
        )
        .expect_err("tiny disk quota should reject metadata persistence");
    assert_eq!(error, MetadataApplyError::Persistence("disk quota exceeded".to_string()));
    assert_eq!(MetricMetadataStore::classify_apply_error(&error), None);
    assert!(
        store.query("tenant-a", None, 10).expect("metadata query should succeed").is_empty(),
        "a rejected update must not become visible"
    );
    assert_eq!(store.metrics_snapshot().persistence_rejections_total, 1);
    assert_eq!(store.metrics_snapshot().durable_file_bytes, 0);
}

#[test]
fn startup_files_are_bounded_and_never_echoed() {
    let mut store = on_disk(bounded_test_config());
    let document = RefCell::new(Vec::new());
    store
        .apply_updates(
            "tenant",
            &[metadata_update("metric", "SECRET-SENTINEL")],
            1_000,
            |written: &Vec<u8>| {
                *document.borrow_mut() = written.clone();
                Ok(())
            },
        )
        .expect("one entry fits");
    let document = document.into_inner();
    let reopened = reopen(bounded_test_config(), &document).expect("it should load");
    assert_eq!(reopened.metrics_snapshot().entries, 1);
    assert_eq!(
        reopened.metrics_snapshot().retained_bytes,
        store.metrics_snapshot().retained_bytes
    );
    let refused = |config: MetricMetadataStoreConfig| {
        let message = reopen(config, &document).err().expect("it should be refused");
        assert!(!message.contains("SECRET-SENTINEL"));
        code_carried_by(&message)
    };
    assert_eq!(
        refused(MetricMetadataStoreConfig {
            max_durable_file_bytes: document.len() - 1,
            ..bounded_test_config()
        }),
        Some(MetricMetadataStoreErrorCode::StartupDurableFileBytesLimit)
    );
    assert_eq!(
        refused(MetricMetadataStoreConfig {
            max_record_bytes: 8,
            max_update_batch_bytes: 8,
            ..bounded_test_config()
        }),
        Some(MetricMetadataStoreErrorCode::StartupRecordBytesLimit)
    );
    assert_eq!(
        refused(MetricMetadataStoreConfig {
            max_startup_transient_bytes: 64,
            ..bounded_test_config()
        }),
        Some(MetricMetadataStoreErrorCode::StartupTransientBytesLimit)
    );
    let grown = StartupFile {
        path: "store.json".to_string(),
        file_len: document.len(),
        raw_len: document.len(),
        raw_capacity: document.len(),
        grew_while_reading: true,
    };
    let message = load_entries(&bounded_test_config(), &grown, parse(&document), decode)
        .err()
        .expect("it changed while it was read");
    assert_eq!(message, "metric metadata store store.json changed size while it was being read");
    let corrupt = b"{\"magic\":\"SECRET-SENTINEL\",\"entries\":[";
    let file = StartupFile {
        path: "store.json".to_string(),
        file_len: corrupt.len(),
        raw_len: corrupt.len(),
        raw_capacity: corrupt.len(),
        grew_while_reading: false,
    };
    let message = load_entries(&bounded_test_config(), &file, parse(corrupt), decode)
        .err()
        .expect("it is not whole");
    assert!(message.len() < 512);
    assert!(!message.contains("SECRET-SENTINEL"));
}

#[test]
fn snapshot_output_has_exact_boundary_and_no_transient_residual() {
    let mut store = in_memory(bounded_test_config());
    apply(&mut store, "tenant", &[metadata_update("metric", "snapshot")]).expect("it fits");
    let written = Cell::new(0usize);
    store
        .snapshot_into(|document: &Vec<u8>| {
            written.set(document.len());
            Ok(())
        })
        .expect("the copy is written");
    let exact_file = written.get();
    assert!(exact_file > 1);
    assert_eq!(store.metrics_snapshot().transient_bytes, 0);
    let mut exact = in_memory(MetricMetadataStoreConfig {
        max_durable_file_bytes: exact_file,
        ..bounded_test_config()
    });
    apply(&mut exact, "tenant", &[metadata_update("metric", "snapshot")]).expect("it fits");
    exact.snapshot_into(kept).expect("exact snapshot output bytes should fit");
    assert_eq!(exact.metrics_snapshot().transient_bytes, 0);
    let mut below = in_memory(MetricMetadataStoreConfig {
        max_durable_file_bytes: exact_file - 1,
        ..bounded_test_config()
    });
    apply(&mut below, "tenant", &[metadata_update("metric", "snapshot")]).expect("it fits");
    written.set(0);
    let error = below
        .snapshot_into(|document: &Vec<u8>| {
            written.set(document.len());
            Ok(())
        })
        .expect_err("N-1 snapshot bytes must fail");
    assert!(error.contains("durable file byte limit"));
    assert_eq!(written.get(), 0);
    assert_eq!(below.metrics_snapshot().transient_bytes, 0);
}

#[test]
fn updates_that_change_nothing_write_nothing() {
    let mut store = on_disk(bounded_test_config());
    assert_eq!(apply(&mut store, "tenant", &[metadata_update("metric", "same")]), Ok(1));
    let written = Cell::new(false);
    let applied = store.apply_updates(
        "tenant",
        &[metadata_update("metric", "same")],
        2_000,
        |_document: &Vec<u8>| {
            written.set(true);
            Ok(())
        },
    );
    assert_eq!(applied, Ok(0));
    assert!(!written.get());
}

#[test]
fn codes_have_stable_texts_and_messages_carry_them() {
    for (code, text) in [
        (MetricMetadataStoreErrorCode::EntryLimit, "entry_limit"),
        (MetricMetadataStoreErrorCode::RetainedBytesLimit, "retained_bytes_limit"),
        (MetricMetadataStoreErrorCode::WriteTransientBytesLimit, "write_transient_bytes_limit"),
        (MetricMetadataStoreErrorCode::QueryRecordsLimit, "query_records_limit"),
    ] {
        assert_eq!(code.as_str(), text);
        assert_eq!(MetricMetadataStoreErrorCode::from_str(text), Some(code));
    }
    assert_eq!(MetricMetadataStoreErrorCode::from_str("other"), None);
    let message = metadata_limit_message(MetadataLimit::StartupTransient, 5, 6);
    assert_eq!(
        code_carried_by(&message),
        Some(MetricMetadataStoreErrorCode::StartupTransientBytesLimit)
    );
    assert!(message.contains('5') && message.contains('6'));
    assert_eq!(metric_type_to_api_string(1), "counter");
    assert_eq!(metric_type_to_api_string(2), "gauge");
    assert_eq!(metric_type_to_api_string(99), "unknown");
}

#[test]
fn metadata_store_snapshot_writes_snapshot_copy() {
    let mut store = MetricMetadataStore::in_memory();
    apply(
        &mut store,
        "tenant-a",
        &[NormalizedMetricMetadataUpdate {
            metric_family_name: "cpu_usage".to_string(),
            metric_type: MetricType::Gauge,
            help: "CPU usage".to_string(),
            unit: "percent".to_string(),
        }],
    )
    .expect("metadata update should succeed");
    let copy = RefCell::new(Vec::new());
    store
        .snapshot_into(|document: &Vec<u8>| {
            *copy.borrow_mut() = document.clone();
            Ok(())
        })
        .expect("metadata snapshot should succeed");
    let mut reopened = reopen(MetricMetadataStoreConfig::default(), &copy.borrow())
        .expect("snapshot copy should reopen");
    let records =
        reopened.query("tenant-a", None, 10).expect("metadata query should succeed");
    assert_eq!(records.len(), 1);
    assert_eq!(records[0].metric_family_name, "cpu_usage");
}

#[test]
fn metadata_store_persistence_failure_does_not_publish_updates() {
    let update = |name: &str, metric_type: MetricType, help: &str, unit: &str| {
        NormalizedMetricMetadataUpdate {
            metric_family_name: name.to_string(),
            metric_type,
            help: help.to_string(),
            unit: unit.to_string(),
        }
    };
    let mut store = on_disk(MetricMetadataStoreConfig::default());
    apply(
        &mut store,
        "tenant-a",
        &[update("http_requests_total", MetricType::Counter, "original", "requests")],
    )
    .expect("initial metadata update should persist");
    let error = store
        .apply_updates(
            "tenant-a",
            &[
                update(
                    "http_requests_total",
                    MetricType::Counter,
                    "unpersisted replacement",
                    "requests",
                ),
                update("new_metric", MetricType::Gauge, "unpersisted insertion", "widgets"),
            ],
            2_000,
            |_document: &Vec<u8>| Err("Is a directory".to_string()),
        )
        .expect_err("publication-path collision should fail persistence");
    assert_eq!(error, MetadataApplyError::Persistence("Is a directory".to_string()));
    assert_eq!(MetricMetadataStore::classify_apply_error(&error), None);
    let records = store
        .query("tenant-a", None, 10)
        .expect("metadata query should succeed after failed persistence");
    assert_eq!(records.len(), 1);
    assert_eq!(records[0].metric_family_name, "http_requests_total");
    assert_eq!(records[0].help, "original");
    let metrics = store.metrics_snapshot();
    assert_eq!(metrics.persistence_rejections_total, 1);
    assert_eq!(metrics.transient_bytes, 0);
}

#[test]
fn startup_is_bounded_before_decode_and_reopen_reconciles_accounting() {
    let config = bounded_test_config();
    let mut store = on_disk(config);
    let document = RefCell::new(Vec::new());
    store
        .apply_updates(
            "tenant",
            &[metadata_update("metric", "persisted")],
            1_000,
            |written: &Vec<u8>| {
                *document.borrow_mut() = written.clone();
                Ok(())
            },
        )
        .expect("one entry fits");
    let document = document.into_inner();
    let before = store.metrics_snapshot();
    drop(store);

    let reopened = reopen(config, &document).expect("it should load");
    let after = reopened.metrics_snapshot();
    assert_eq!(after.entries, before.entries);
    assert_eq!(after.retained_bytes, before.retained_bytes);
    assert_eq!(after.durable_file_bytes, before.durable_file_bytes);
    assert!(after.peak_transient_bytes > 0);
    assert_eq!(after.transient_bytes, 0);
    let exact_startup = usize::try_from(after.peak_transient_bytes).expect("it fits");
    drop(reopened);

    reopen(
        MetricMetadataStoreConfig { max_startup_transient_bytes: exact_startup, ..config },
        &document,
    )
    .expect("exact startup transient bytes should fit");
    assert!(reopen(
        MetricMetadataStoreConfig { max_startup_transient_bytes: exact_startup - 1, ..config },
        &document,
    )
    .err()
    .expect("N-1 startup transient bytes must fail")
    .contains("startup transient byte limit"));

    let oversized = StartupFile {
        path: "store.json".to_string(),
        file_len: 33,
        raw_len: 33,
        raw_capacity: 33,
        grew_while_reading: false,
    };
    let oversized_config =
        MetricMetadataStoreConfig { max_durable_file_bytes: 32, ..bounded_test_config() };
    assert!(load_entries(&oversized_config, &oversized, Err("it is not read".to_string()), decode)
        .err()
        .expect("oversized startup file must fail before reading it")
        .contains("startup durable file byte limit"));

    let record = MetricMetadataRecord {
        tenant_id: "tenant".to_string(),
        metric_family_name: "metric".to_string(),
        metric_type: MetricType::Gauge as i32,
        help: "record-too-large".to_string(),
        unit: "widgets".to_string(),
        updated_unix_ms: 1,
    };
    let raw_store = format!(
        "{{\"magic\":\"tsink-metric-metadata-store\",\"schema_version\":1,\"entries\":[{}]}}\n",
        format!(
            "{{\"tenant_id\":\"{}\",\"metric_family_name\":\"{}\",\"metric_type\":{},\
             \"help\":\"{}\",\"unit\":\"{}\",\"updated_unix_ms\":{}}}",
            record.tenant_id,
            record.metric_family_name,
            record.metric_type,
            record.help,
            record.unit,
            record.updated_unix_ms
        )
    );
    let record_config = MetricMetadataStoreConfig {
        max_record_bytes: 8,
        max_update_batch_bytes: 8,
        ..bounded_test_config()
    };
    let error = reopen(record_config, raw_store.as_bytes())
        .err()
        .expect("oversized decoded record must fail");
    assert!(error.contains("startup record input byte limit"), "{error}");
    assert!(!error.contains("record-too-large"));

    let corrupt = b"{\"magic\":\"SECRET-SENTINEL\",\"entries\":[";
    let error =
        reopen(bounded_test_config(), corrupt).err().expect("corrupt startup JSON must fail");
    assert!(error.len() < 512);
    assert!(!error.contains("SECRET-SENTINEL"));
}

#[test]
fn a_document_is_refused_at_the_piece_that_does_not_fit() {
    let pieces = [
        "{\"magic\":\"tsink-metric-metadata-store\",\"schema_version\":1,\"entries\":[",
        "{", "\"", "tenant_id", "\"", ":", "\"", "tenant", "\"",
        ",", "\"", "metric_family_name", "\"", ":", "\"", "metric", "\"",
        ",", "\"", "metric_type", "\"", ":", "2",
        ",", "\"", "help", "\"", ":", "\"", "say ", "\\\"", "hi", "\\\"", "\\n", "\\u001f", "\"",
        ",", "\"", "unit", "\"", ":", "\"", "widgets", "\"",
        ",", "\"", "updated_unix_ms", "\"", ":", "1000",
        "}", "]}\n",
    ];
    let update = [metadata_update("metric", "say \"hi\"\n\u{1f}")];
    let document = RefCell::new(Vec::new());
    on_disk(bounded_test_config())
        .apply_updates("tenant", &update, 1_000, |written: &Vec<u8>| {
            *document.borrow_mut() = written.clone();
            Ok(())
        })
        .expect("it fits");
    assert_eq!(document.into_inner(), pieces.concat().into_bytes());
    let mut fits = pieces[0].len();
    for piece in &pieces[1..] {
        let mut store = on_disk(MetricMetadataStoreConfig {
            max_durable_file_bytes: fits,
            ..bounded_test_config()
        });
        let error = store
            .apply_updates("tenant", &update, 1_000, |_written: &Vec<u8>| {
                panic!("nothing is written")
            })
            .expect_err("the document does not fit");
        assert_eq!(
            said(&error),
            metadata_limit_message(MetadataLimit::DurableFile, fits, fits + piece.len())
        );
        assert_eq!(store.metrics_snapshot().durable_file_rejections_total, 1);
        assert_eq!(store.metrics_snapshot().transient_bytes, 0);
        fits += piece.len();
    }
}

#[test]
fn a_query_result_is_kept_as_the_bytes_it_is_measured_to_hold() {
    let mut store = in_memory(MetricMetadataStoreConfig {
        max_query_result_bytes: 1_000,
        ..bounded_test_config()
    });
    let record = || MetricMetadataRecord {
        tenant_id: "tenant".to_string(),
        metric_family_name: "metric".to_string(),
        metric_type: MetricType::Gauge as i32,
        help: "help".to_string(),
        unit: "widgets".to_string(),
        updated_unix_ms: 1,
    };
    let asked = RefCell::new(Vec::new());
    let note = |bytes: u64| {
        asked.borrow_mut().push(bytes);
        Ok(())
    };
    let kept = store
        .keep_query_result(vec![record(), record()], 1_000, &go_on, note, note)
        .expect("the limit is met exactly");
    assert_eq!(kept.reserved_memory_bytes(), 1_000);
    assert_eq!(kept.records().len(), 2);
    assert_eq!(*asked.borrow(), vec![1_000, 2]);
    assert_eq!(store.metrics_snapshot().query_result_bytes, 1_000);
    store.release_query_result(kept);
    assert_eq!(store.metrics_snapshot().query_result_bytes, 0);

    let refused = store
        .keep_query_result(vec![record()], 1_001, &go_on, note, note)
        .err()
        .expect("it is one byte over the limit");
    assert!(matches!(refused, MetricMetadataQueryError::ResultLimit));
    assert_eq!(*asked.borrow(), vec![1_000, 2]);
    let refused = store
        .keep_query_result(vec![record()], 7, &go_on, |_bytes: u64| Err(QueryBudgetError::Cancelled), note)
        .err()
        .expect("the budget refuses");
    assert!(matches!(
        refused,
        MetricMetadataQueryError::Budget(QueryBudgetError::Cancelled)
    ));
    assert_eq!(store.metrics_snapshot().query_rejections_total, 2);
}

#[test]
fn counters_stay_true_over_batches() {
    let mut store = on_disk(MetricMetadataStoreConfig {
        max_entries: 2,
        max_update_batch_entries: 2,
        ..bounded_test_config()
    });
    let empty = store.metrics_snapshot().retained_bytes;
    apply(&mut store, "tenant", &[metadata_update("a", "one"), metadata_update("b", "two")])
        .expect("both fit");
    let both = store.metrics_snapshot().retained_bytes;
    assert!(both > empty);
    apply(&mut store, "tenant", &[metadata_update("c", "three")]).expect_err("there is no room");
    store
        .apply_updates("tenant", &[metadata_update("a", "longer")], 2_000, |_written: &Vec<u8>| {
            Err("disk full".to_string())
        })
        .expect_err("it is not kept");
    assert_eq!(apply(&mut store, "tenant", &[metadata_update("a", "one")]), Ok(0));
    assert_eq!(store.metrics_snapshot().retained_bytes, both);
    apply(&mut store, "tenant", &[metadata_update("a", "longer")]).expect("it is kept");
    let snapshot = store.metrics_snapshot();
    assert_eq!(snapshot.entries, 2);
    assert_eq!(snapshot.retained_bytes, both + 3);
    assert_eq!(snapshot.peak_retained_bytes, both + 3);
    assert_eq!(snapshot.transient_bytes, 0);
}

#[test]
fn texts_are_escaped_in_the_document() {
    let mut store = on_disk(bounded_test_config());
    let document = RefCell::new(Vec::new());
    store
        .apply_updates(
            "tenant",
            &[metadata_update("metric", "say \"hi\"\n")],
            1_000,
            |written: &Vec<u8>| {
                *document.borrow_mut() = written.clone();
                Ok(())
            },
        )
        .expect("one entry fits");
    let text = String::from_utf8(document.borrow().clone()).expect("the document is text");
    assert!(text.contains("\"help\":\"say \\\"hi\\\"\\n\""));
    let mut reopened = reopen(bounded_test_config(), &document.borrow()).expect("it should load");
    let records = reopened.query("tenant", Some("metric"), 1).expect("one record");
    assert_eq!(records[0].help, "say \"hi\"\n");
}

#[test]
fn a_record_is_held_against_the_limits_before_it_is_decoded() {
    let config = bounded_test_config();
    let mut store = on_disk(config);
    let document = RefCell::new(Vec::new());
    store
        .apply_updates(
            "tenant",
            &[metadata_update("first", "one"), metadata_update("second", "two")],
            1_000,
            |bytes: &Vec<u8>| {
                *document.borrow_mut() = bytes.clone();
                Ok(())
            },
        )
        .expect("it fits");
    let document = document.into_inner();
    let file = StartupFile {
        path: "store.json".to_string(),
        file_len: document.len(),
        raw_len: document.len(),
        raw_capacity: document.len(),
        grew_while_reading: false,
    };
    let decoded = Cell::new(0usize);
    let counting = |record: &str| {
        decoded.set(decoded.get() + 1);
        decode(record)
    };
    load_entries(&config, &file, parse(&document), counting).expect("both records are taken");
    assert_eq!(decoded.get(), 2);

    decoded.set(0);
    let mut parsed = parse(&document).expect("it is whole");
    let longest = config.max_record_bytes * 6 + 256;
    parsed.entries[1] = "x".repeat(longest + 1);
    let message = load_entries(&config, &file, Ok(parsed), counting)
        .err()
        .expect("the second record is too long");
    assert!(message.contains("startup record encoded byte limit"));
    assert_eq!(decoded.get(), 1);

    decoded.set(0);
    let mut parsed = parse(&document).expect("it is whole");
    parsed.entries[1] = "x".repeat(longest);
    let message = load_entries(&config, &file, Ok(parsed), |record: &str| {
        decoded.set(decoded.get() + 1);
        if record.starts_with('x') { Err("it is no record".to_string()) } else { decode(record) }
    })
    .err()
    .expect("the second record is none");
    assert_eq!(
        message,
        "failed to parse metric metadata record in store.json: it is no record"
    );
    assert_eq!(decoded.get(), 2);
}

#[test]
fn a_record_of_the_longest_texts_is_loaded_again() {
    let config = MetricMetadataStoreConfig {
        max_record_bytes: 100,
        max_update_batch_bytes: 100,
        ..bounded_test_config()
    };
    let mut store = on_disk(config);
    let document = RefCell::new(Vec::new());
    let help = "\u{1}".repeat(100 - "tenant".len() - "metric".len() - "widgets".len());
    store
        .apply_updates("tenant", &[metadata_update("metric", &help)], u64::MAX, |bytes: &Vec<u8>| {
            *document.borrow_mut() = bytes.clone();
            Ok(())
        })
        .expect("the record is as long as it may be");
    let document = document.into_inner();
    let parsed = parse(&document).expect("it is whole");
    assert!(parsed.entries[0].len() > 6 * help.len());
    assert!(parsed.entries[0].len() <= 6 * 100 + 256);
    let reopened = reopen(config, &document).expect("it is loaded again");
    let (before, after) = (store.metrics_snapshot(), reopened.metrics_snapshot());
    assert_eq!(after.entries, before.entries);
    assert_eq!(after.retained_bytes, before.retained_bytes);
    assert_eq!(after.durable_file_bytes, before.durable_file_bytes);
    assert_eq!(after.durable_file_bytes, document.len() as u64);
}

#[test]
fn a_query_that_was_stopped_charges_nothing() {
    let mut store = in_memory(MetricMetadataStoreConfig::default());
    let expired = || Err(QueryBudgetError::DeadlineExceeded);
    let never = |_amount: u64| panic!("nothing is charged for a query that was stopped");
    let before = store.metrics_snapshot().query_rejections_total;
    let stopped = store
        .query_with_execution_result("tenant", None, usize::MAX, &expired, never, never, never)
        .expect_err("the time is over");
    assert_eq!(stopped, MetricMetadataQueryError::Budget(QueryBudgetError::DeadlineExceeded));
    assert_eq!(store.metrics_snapshot().query_rejections_total, before + 1);
    let late = store
        .keep_query_result(Vec::new(), 0, &expired, grant, grant)
        .expect_err("the time is over");
    assert_eq!(late, MetricMetadataQueryError::Budget(QueryBudgetError::DeadlineExceeded));
}
