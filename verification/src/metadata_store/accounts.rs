//! What the counters of a metadata store say, however often it is used, and after a restart.

use vstd::prelude::*;

use crate::json;
use crate::metadata_store::accounting::MetricMetadataStoreAccounting;
use crate::metadata_store::config;
use crate::metadata_store::config::MetricMetadataStoreConfig;
use crate::metadata_store::encode;
use crate::metadata_store::laws;
use crate::metadata_store::load;
use crate::metadata_store::load::LoadProgress;
use crate::metadata_store::load::ReadRecord;
use crate::metadata_store::load::PersistedMetricMetadataStore;
use crate::metadata_store::load::StartupFile;
use crate::metadata_store::query;
use crate::metadata_store::record;
use crate::metadata_store::record::MetricMetadataKey;
use crate::metadata_store::record::MetricMetadataRecord;
use crate::metadata_store::record::RecordView;
use crate::metadata_store::record::UpdateView;
use crate::metadata_store::store;
use crate::metadata_store::store::ApplyPlan;
use crate::metadata_store::store::EntriesView;
use crate::metadata_store::store::LoadedMetricMetadataStore;
use crate::metadata_store::store::MetadataApplyError;
use crate::metadata_store::store::MetricMetadataStore;
use crate::metadata_store::store::StoreView;
use crate::ordered;
use crate::sizes;
use crate::text;

verus! {

/// Whether a record is within the limit on the bytes of its texts.
pub open spec fn record_within(config: MetricMetadataStoreConfig, record: RecordView) -> bool {
    sizes::sat_size(
        record::record_input_bytes(
            record.tenant_id,
            record.metric_family_name,
            record.help,
            record.unit,
        ) as int,
    ) <= config.max_record_bytes
}

/// Whether every record of a table is within the limit on the bytes of its texts.
pub open spec fn records_within(config: MetricMetadataStoreConfig, entries: EntriesView) -> bool {
    forall|key: (Seq<char>, Seq<char>)| #[trigger]
        entries.contains_key(key) ==> record_within(config, entries[key])
}

/// Whether the counters of a store say what it holds: as many entries as there are keys, the bytes
/// that its records are modeled to retain, and the bytes of its file, all within the limits, as is
/// each record; a peak that was never below what is retained; and no working memory.
pub open spec fn accounts(store: StoreView) -> bool {
    &&& ordered::listable::<MetricMetadataKey, RecordView>(store.entries)
    &&& query::keyed_by_record(store.entries)
    &&& store.entries.dom().finite()
    &&& store.accounting.entries == store.entries.dom().len()
    &&& store.accounting.entries == store::entry_count(store.entries)
    &&& store.accounting.entries <= store.config.max_entries
    &&& store.retained_bytes == laws::modeled_table_bytes(store.entries)
    &&& store.accounting.retained_bytes == store.retained_bytes
    &&& store.retained_bytes <= store.config.max_retained_bytes
    &&& store.accounting.peak_retained_bytes >= store.accounting.retained_bytes
    &&& store.accounting.transient_bytes == 0
    &&& store.accounting.durable_file_bytes <= store.config.max_durable_file_bytes
    &&& records_within(store.config, store.entries)
}

/// Whether the sums that a batch is checked by stay within the machine's range.
pub open spec fn sums_in_range(
    store: StoreView,
    tenant_id: Seq<char>,
    updates: Seq<UpdateView>,
    now: u64,
) -> bool {
    let staged = ordered::listing::<MetricMetadataKey, RecordView>(
        store::stage(store.entries, tenant_id, updates, now).records,
    );
    &&& store::entry_count(store.entries) + staged.len() <= usize::MAX
    &&& store.retained_bytes + sizes::total(laws::table_costs(staged)) <= usize::MAX
}

/// Whether the limits of a store leave every sum that a batch is checked by within the machine's
/// range: what the store may hold, with what a batch may add to it.
pub open spec fn limits_in_range(config: MetricMetadataStoreConfig) -> bool {
    &&& config.max_entries + config.max_update_batch_entries <= usize::MAX
    &&& config.max_retained_bytes + config.max_write_transient_bytes < usize::MAX
}

/// A table that can be listed has as many entries as keys.
pub proof fn lemma_entries_are_keys(entries: EntriesView)
    requires
        ordered::listable::<MetricMetadataKey, RecordView>(entries),
    ensures
        entries.dom().finite(),
        store::entry_count(entries) == entries.dom().len(),
{
    ordered::lemma_listing_len::<MetricMetadataKey, RecordView>(entries);
}

/// Every record that a batch makes is within the limit on its texts, where the batch was let pass.
proof fn lemma_stage_within(
    config: MetricMetadataStoreConfig,
    entries: EntriesView,
    tenant_id: Seq<char>,
    updates: Seq<UpdateView>,
    now: u64,
)
    requires
        store::batch_sizes(config, tenant_id, updates) is Ok,
    ensures
        records_within(config, store::stage(entries, tenant_id, updates, now).records),
    decreases updates.len(),
{
    if updates.len() > 0 {
        lemma_stage_within(config, entries, tenant_id, updates.drop_last(), now);
    }
}

pub(crate) proof fn lemma_stage_listable(
    entries: EntriesView,
    tenant_id: Seq<char>,
    updates: Seq<UpdateView>,
    now: u64,
)
    ensures
        ordered::listable::<MetricMetadataKey, RecordView>(
            store::stage(entries, tenant_id, updates, now).records,
        ),
    decreases updates.len(),
{
    if updates.len() == 0 {
        let none = Seq::<((Seq<char>, Seq<char>), RecordView)>::empty();
        assert(ordered::sorted_keys::<MetricMetadataKey, RecordView>(none));
        assert(ordered::keyed_map::<MetricMetadataKey, RecordView>(none) =~= Map::empty());
    } else {
        let before = store::stage(entries, tenant_id, updates.drop_last(), now);
        lemma_stage_listable(entries, tenant_id, updates.drop_last(), now);
        let key = (tenant_id, updates.last().metric_family_name);
        let next = store::candidate(tenant_id, updates.last(), before.clock);
        ordered::lemma_listing_insert::<MetricMetadataKey, RecordView>(before.records, key, next);
    }
}

/// The records that a batch makes cost no more than the batch was modeled to stage, and are no more
/// than its updates.
proof fn lemma_staged_cost(
    config: MetricMetadataStoreConfig,
    entries: EntriesView,
    tenant_id: Seq<char>,
    updates: Seq<UpdateView>,
    now: u64,
)
    requires
        store::batch_sizes(config, tenant_id, updates) matches Ok((_, staging)) && staging
            < usize::MAX,
    ensures
        ({
            let staged = ordered::listing::<MetricMetadataKey, RecordView>(
                store::stage(entries, tenant_id, updates, now).records,
            );
            &&& sizes::total(laws::table_costs(staged)) <= store::batch_sizes(
                config,
                tenant_id,
                updates,
            )->Ok_0.1
            &&& staged.len() <= updates.len()
        }),
    decreases updates.len(),
{
    let records = store::stage(entries, tenant_id, updates, now).records;
    lemma_stage_listable(entries, tenant_id, updates, now);
    if updates.len() == 0 {
        ordered::lemma_listing_len::<MetricMetadataKey, RecordView>(records);
        assert(laws::table_costs(ordered::listing::<MetricMetadataKey, RecordView>(records))
            =~= Seq::empty());
    } else {
        let before = store::stage(entries, tenant_id, updates.drop_last(), now);
        let key = (tenant_id, updates.last().metric_family_name);
        let next = store::candidate(tenant_id, updates.last(), before.clock);
        lemma_staged_cost(config, entries, tenant_id, updates.drop_last(), now);
        lemma_stage_listable(entries, tenant_id, updates.drop_last(), now);
        laws::lemma_table_bytes_insert(before.records, key, next);
    }
}

/// The sums that a batch is checked by stay within the machine's range where the limits do and the
/// batch is not refused before.
proof fn lemma_limits_bound_sums(
    before: StoreView,
    tenant_id: Seq<char>,
    updates: Seq<UpdateView>,
    now: u64,
)
    requires
        accounts(before),
        limits_in_range(before.config),
    ensures
        before.plan(tenant_id, updates, now) is Write ==> sums_in_range(
            before,
            tenant_id,
            updates,
            now,
        ),
{
    if before.plan(tenant_id, updates, now) is Write {
        lemma_staged_cost(before.config, before.entries, tenant_id, updates, now);
    }
}

/// The store that a batch makes accounts for what it holds, whatever else was counted meanwhile.
proof fn lemma_committed_accounts(
    before: StoreView,
    tenant_id: Seq<char>,
    updates: Seq<UpdateView>,
    now: u64,
    durable_file_bytes: nat,
    counters: MetricMetadataStoreAccounting,
)
    requires
        accounts(before),
        sums_in_range(before, tenant_id, updates, now),
        durable_file_bytes <= before.config.max_durable_file_bytes,
    ensures
        before.plan(tenant_id, updates, now) matches ApplyPlan::Write { staged, retained, .. }
            ==> accounts(before.committed(staged, retained, counters, durable_file_bytes)),
{
    if let ApplyPlan::Write { staged, retained, .. } = before.plan(tenant_id, updates, now) {
        let listed = ordered::listing::<MetricMetadataKey, RecordView>(staged);
        lemma_stage_listable(before.entries, tenant_id, updates, now);
        ordered::lemma_listable::<MetricMetadataKey, RecordView>(staged);
        laws::lemma_final_model_exact(before.entries, before.retained_bytes, listed);
        laws::lemma_keys_kept(before.entries, tenant_id, updates, now);
        lemma_stage_within(before.config, before.entries, tenant_id, updates, now);
        lemma_entries_are_keys(before.entries.union_prefer_right(staged));
    }
}

/// Applying a batch of updates keeps the counters of a store true, whether the batch is taken,
/// changes nothing, is refused or cannot be written: where the limits of the store, or else the sums
/// that the batch is checked by, are within the machine's range.
pub proof fn lemma_apply_keeps_accounts<P: FnOnce(&Vec<u8>) -> Result<(), String>>(
    before: StoreView,
    after: StoreView,
    tenant_id: Seq<char>,
    updates: Seq<UpdateView>,
    now: u64,
    persist: P,
    applied: Result<usize, MetadataApplyError>,
)
    requires
        accounts(before),
        limits_in_range(before.config) || sums_in_range(before, tenant_id, updates, now),
        MetricMetadataStore::applied_as(
            before,
            after,
            tenant_id,
            updates,
            now,
            persist,
            applied,
        ),
    ensures
        accounts(after),
        after.config == before.config,
{
    match before.plan(tenant_id, updates, now) {
        ApplyPlan::Write { staged, changed, retained, accounting, reservation } => {
            if limits_in_range(before.config) {
                lemma_limits_bound_sums(before, tenant_id, updates, now);
            }
            lemma_committed_accounts(before, tenant_id, updates, now, 0, accounting);
            if before.durable {
                let document = encode::store_document(
                    encode::merged_records(before.entries, staged),
                );
                let bounds = before.write_bounds(reservation, accounting);
                if document.len() <= before.config.max_durable_file_bytes {
                    lemma_committed_accounts(
                        before,
                        tenant_id,
                        updates,
                        now,
                        document.len(),
                        bounds.counters(document.len()),
                    );
                }
            }
        },
        _ => {},
    }
}

/// Whether a store may be what another becomes by one batch of updates, with the limits, or else the
/// sums that the batch is checked by, within the machine's range.
pub open spec fn may_become<P: FnOnce(&Vec<u8>) -> Result<(), String>>(
    before: StoreView,
    after: StoreView,
) -> bool {
    exists|
        tenant_id: Seq<char>,
        updates: Seq<UpdateView>,
        now: u64,
        persist: P,
        applied: Result<usize, MetadataApplyError>,
    |
        (limits_in_range(before.config) || sums_in_range(before, tenant_id, updates, now))
            && #[trigger] MetricMetadataStore::applied_as(
            before,
            after,
            tenant_id,
            updates,
            now,
            persist,
            applied,
        )
}

/// Over any sequence of batches the counters of a store stay true, if they were to begin with, where
/// its limits, or else the sums that each batch is checked by, are within the machine's range.
pub proof fn lemma_history_accounts<P: FnOnce(&Vec<u8>) -> Result<(), String>>(
    states: Seq<StoreView>,
    n: int,
)
    requires
        0 <= n < states.len(),
        accounts(states[0]),
        forall|i: int|
            0 <= i < states.len() - 1 ==> may_become::<P>(#[trigger] states[i], states[i + 1]),
    ensures
        accounts(states[n]),
        states[n].config == states[0].config,
    decreases n,
{
    if n > 0 {
        lemma_history_accounts::<P>(states, n - 1);
        let before = states[n - 1];
        let after = states[n];
        assert(may_become::<P>(states[n - 1], states[n - 1 + 1]));
        let (tenant_id, updates, now, persist, applied) = choose|
            tenant_id: Seq<char>,
            updates: Seq<UpdateView>,
            now: u64,
            persist: P,
            applied: Result<usize, MetadataApplyError>,
        |
            (limits_in_range(before.config) || sums_in_range(before, tenant_id, updates, now))
                && #[trigger] MetricMetadataStore::applied_as(
                before,
                after,
                tenant_id,
                updates,
                now,
                persist,
                applied,
            );
        lemma_apply_keeps_accounts(before, after, tenant_id, updates, now, persist, applied);
    }
}

/// A store without records accounts for what it holds.
pub proof fn lemma_fresh_accounts(config: MetricMetadataStoreConfig)
    requires
        config.valid(),
    ensures
        accounts(StoreView::fresh(config)),
{
    let none = Seq::<((Seq<char>, Seq<char>), RecordView)>::empty();
    let empty = Map::<(Seq<char>, Seq<char>), RecordView>::empty();
    assert(ordered::sorted_keys::<MetricMetadataKey, RecordView>(none));
    assert(ordered::keyed_map::<MetricMetadataKey, RecordView>(none) =~= empty);
    ordered::lemma_listing::<MetricMetadataKey, RecordView>(none);
    lemma_entries_are_keys(empty);
    assert(laws::table_costs(none) =~= Seq::empty());
}

/// Whether decoding the text that a record is written as gives back the record.
pub open spec fn gives_back<D: Fn(&str) -> Result<MetricMetadataRecord, String>>(decode: D) -> bool {
    forall|
        given: &str,
        record: RecordView,
        outcome: Result<MetricMetadataRecord, String>,
    |
        json::bytes_of(given@) == #[trigger] encode::record_text(record)
            && #[trigger] call_ensures(decode, (given,), outcome) ==> load::decoded_view(outcome)
            == Ok::<RecordView, Seq<char>>(record)
}

/// Whether the texts of the records of a file are those that the records of a table are written as,
/// in their order.
pub open spec fn holds_records(texts: Seq<String>, entries: EntriesView) -> bool {
    let records = query::records_of(entries);
    &&& texts.len() == records.len()
    &&& forall|i: int|
        0 <= i < texts.len() ==> json::bytes_of((#[trigger] texts[i])@) == encode::record_text(
            records[i],
        )
}

/// Whether the startup has the working memory that a load of a table can take: for the file, and for
/// decoding each record, with all that the table retains.
pub open spec fn startup_suffices(
    config: MetricMetadataStoreConfig,
    file: StartupFile,
    base: usize,
    entries: EntriesView,
) -> bool {
    let records = query::records_of(entries);
    &&& load::load_start(config, file, base).peak <= config.max_startup_transient_bytes
    &&& forall|i: int|
        0 <= i < records.len() ==> sizes::sat_size(
            load::decode_bytes(
                base,
                laws::modeled_table_bytes(entries) as usize,
                encode::record_text(#[trigger] records[i]).len(),
            ) as int,
        ) <= config.max_startup_transient_bytes
}

/// Whether records are the first of a table, each read from the text that it is written as.
spec fn reads_first(read: Seq<ReadRecord>, entries: EntriesView) -> bool {
    let records = query::records_of(entries);
    &&& read.len() <= records.len()
    &&& forall|i: int|
        0 <= i < read.len() ==> (#[trigger] read[i]).decoded == Ok::<RecordView, Seq<char>>(
            records[i],
        ) && read[i].encoded_len == encode::record_text(records[i]).len()
}

proof fn lemma_prefix_costs(costs: Seq<nat>, n: int)
    requires
        0 <= n <= costs.len(),
    ensures
        sizes::total(costs.subrange(0, n)) <= sizes::total(costs),
    decreases costs.len() - n,
{
    if n == costs.len() {
        assert(costs.subrange(0, n) =~= costs);
    } else {
        sizes::lemma_total_step(costs, n);
        lemma_prefix_costs(costs, n + 1);
    }
}

/// The record at a place of a table, as it is listed.
proof fn lemma_listed_record(entries: EntriesView, i: int)
    requires
        ordered::listable::<MetricMetadataKey, RecordView>(entries),
        query::keyed_by_record(entries),
        0 <= i < ordered::listing::<MetricMetadataKey, RecordView>(entries).len(),
    ensures
        ({
            let (key, value) = ordered::listing::<MetricMetadataKey, RecordView>(entries)[i];
            &&& entries.contains_key(key)
            &&& entries[key] == value
            &&& key == (value.tenant_id, value.metric_family_name)
            &&& query::records_of(entries)[i] == value
        }),
{
    let listed = ordered::listing::<MetricMetadataKey, RecordView>(entries);
    ordered::lemma_listable::<MetricMetadataKey, RecordView>(entries);
    ordered::lemma_keyed_map_at::<MetricMetadataKey, RecordView>(listed, i);
    assert(entries.contains_key(listed[i].0));
}

/// A record within the limit on its texts is not too long to be loaded.
proof fn lemma_encoded_within(
    config: MetricMetadataStoreConfig,
    record: RecordView,
    encoded_len: usize,
)
    requires
        record_within(config, record),
        encoded_len == encode::record_text(record).len(),
    ensures
        encoded_len <= load::max_record_json_bytes(config),
{
    encode::lemma_record_text_len(record);
}

/// The first records of a store are loaded as they are listed, where the startup has the memory.
#[verifier::spinoff_prover]
#[verifier::rlimit(30)]
proof fn lemma_load_first(
    store: StoreView,
    file: StartupFile,
    base: usize,
    read: Seq<ReadRecord>,
)
    requires
        accounts(store),
        reads_first(read, store.entries),
        startup_suffices(store.config, file, base, store.entries),
    ensures
        ({
            let listed = ordered::listing::<MetricMetadataKey, RecordView>(store.entries);
            let start = load::load_start(store.config, file, base);
            load::load_all(store.config, file.path@, base, start, read) matches Ok(progress)
                && progress.entries == ordered::keyed_map::<MetricMetadataKey, RecordView>(
                listed.subrange(0, read.len() as int),
            ) && progress.retained_bytes == config::empty_store_bytes() + sizes::total(
                laws::table_costs(listed).subrange(0, read.len() as int),
            )
        }),
    decreases read.len(),
{
    let entries = store.entries;
    let listed = ordered::listing::<MetricMetadataKey, RecordView>(entries);
    let costs = laws::table_costs(listed);
    let n = read.len() as int;
    ordered::lemma_listable::<MetricMetadataKey, RecordView>(entries);
    if n == 0 {
        assert(ordered::keyed_map::<MetricMetadataKey, RecordView>(listed.subrange(0, 0))
            =~= Map::empty());
        assert(costs.subrange(0, 0) =~= Seq::empty());
    } else {
        let rest = read.drop_last();
        assert forall|i: int| 0 <= i < rest.len() implies (#[trigger] rest[i]).decoded == Ok::<
            RecordView,
            Seq<char>,
        >(query::records_of(entries)[i]) && rest[i].encoded_len == encode::record_text(
            query::records_of(entries)[i],
        ).len() by {
            assert(rest[i] == read[i]);
        }
        lemma_load_first(store, file, base, rest);
        let (key, value) = listed[n - 1];
        lemma_listed_record(entries, n - 1);
        assert(read[n - 1].decoded == Ok::<RecordView, Seq<char>>(value));
        assert(record_within(store.config, value)) by {
            assert(entries.contains_key(key));
        }
        lemma_encoded_within(store.config, value, read[n - 1].encoded_len);
        let shorter = listed.subrange(0, n - 1);
        assert(shorter.push((key, value)) =~= listed.subrange(0, n));
        ordered::lemma_keyed_map_push::<MetricMetadataKey, RecordView>(shorter, key, value);
        assert(!ordered::keyed_map::<MetricMetadataKey, RecordView>(shorter).contains_key(key)) by {
            if ordered::holds_key::<MetricMetadataKey, RecordView>(shorter, key) {
                let p = choose|p: int|
                    ordered::key_stands::<MetricMetadataKey, RecordView>(shorter, key, p);
                ordered::lemma_key_stands_once::<MetricMetadataKey, RecordView>(listed, p, n - 1);
            }
        }
        sizes::lemma_total_step(costs, n - 1);
        lemma_prefix_costs(costs, n);
        lemma_prefix_costs(costs, n - 1);
        assert(costs[n - 1] == record::retained_entry_bytes(value));
        assert(sizes::sat_size(
            load::decode_bytes(
                base,
                laws::modeled_table_bytes(entries) as usize,
                encode::record_text(query::records_of(entries)[n - 1]).len(),
            ) as int,
        ) <= store.config.max_startup_transient_bytes);
    }
}

/// What is read of the texts of a table is its records, where decoding gives them back.
proof fn lemma_reads_records<D: Fn(&str) -> Result<MetricMetadataRecord, String>>(
    decode: D,
    texts: Seq<String>,
    entries: EntriesView,
    read: Seq<ReadRecord>,
)
    requires
        gives_back(decode),
        holds_records(texts, entries),
        load::read_as(decode, texts, read),
    ensures
        reads_first(read, entries),
{
    let records = query::records_of(entries);
    assert forall|i: int| 0 <= i < read.len() implies (#[trigger] read[i]).decoded == Ok::<
        RecordView,
        Seq<char>,
    >(records[i]) && read[i].encoded_len == encode::record_text(records[i]).len() by {
        assert(json::bytes_of(texts[i]@) == encode::record_text(records[i]));
        assert(load::may_give(decode, texts[i]@, read[i].decoded));
        let (given, outcome) = choose|
            given: &str,
            outcome: Result<MetricMetadataRecord, String>,
        |
            given@ == texts[i]@ && #[trigger] call_ensures(decode, (given,), outcome)
                && read[i].decoded == load::decoded_view(outcome);
        assert(json::bytes_of(given@) == encode::record_text(records[i]));
    }
}

/// A restart restores a store: where the file is as long as it was and holds the texts that the
/// records are written as, decoding a text gives back its record, and the startup has the memory,
/// the load succeeds, and the store that is opened with it holds the same records, as many entries,
/// the same retained bytes and the same length of the file, and accounts for them. Nothing else can
/// stop the load: every record that a store holds is within the limits on a record that is loaded.
pub proof fn lemma_restart_restores_store<D: Fn(&str) -> Result<MetricMetadataRecord, String>>(
    before: StoreView,
    file: StartupFile,
    persisted: PersistedMetricMetadataStore,
    decode: D,
    loaded: Result<LoadedMetricMetadataStore, String>,
)
    requires
        before.config.valid(),
        accounts(before),
        before.accounting.durable_file_bytes == file.file_len,
        file.raw_len == file.file_len,
        !file.grew_while_reading,
        persisted.magic_valid,
        persisted.schema_version == load::METADATA_STORE_SCHEMA_VERSION,
        holds_records(persisted.entries@, before.entries),
        gives_back(decode),
        startup_suffices(
            before.config,
            file,
            sizes::sat_size(
                load::startup_base(
                    file.raw_capacity as nat,
                    persisted.entries_capacity as nat,
                ) as int,
            ),
            before.entries,
        ),
        load::may_load(before.config, file, Ok(persisted), decode, load::load_outcome(loaded)),
        loaded matches Ok(found) ==> found.durable_file_bytes == file.raw_len,
    ensures
        loaded matches Ok(found) && {
            let after = StoreView::opened(before.config, true, found);
            &&& after.entries == before.entries
            &&& after.retained_bytes == before.retained_bytes
            &&& after.accounting.entries == before.accounting.entries
            &&& after.accounting.retained_bytes == before.accounting.retained_bytes
            &&& after.accounting.durable_file_bytes == before.accounting.durable_file_bytes
            &&& accounts(after)
        },
{
    let base = sizes::sat_size(
        load::startup_base(file.raw_capacity as nat, persisted.entries_capacity as nat) as int,
    );
    let parsed: Result<PersistedMetricMetadataStore, String> = Ok(persisted);
    let outcome = load::load_outcome(loaded);
    let records = query::records_of(before.entries);
    let listed = ordered::listing::<MetricMetadataKey, RecordView>(before.entries);
    let costs = laws::table_costs(listed);
    assert(load::file_outcome(before.config, file, parsed) is Ok);
    let (read, so_far) = choose|read: Seq<ReadRecord>, so_far: LoadProgress| #[trigger]
        load::reached(before.config, file, parsed, decode, read, so_far) && load::ends_as(
            before.config,
            file,
            parsed,
            decode,
            read.len(),
            so_far,
            outcome,
        );
    lemma_reads_records(decode, persisted.entries@, before.entries, read);
    lemma_load_first(before, file, base, read);
    let taken = read.len() as int;
    if taken < persisted.entries@.len() {
        let decoded = choose|decoded: Result<RecordView, Seq<char>>|
            outcome == #[trigger] load::next_step(
                before.config,
                file,
                parsed,
                read.len(),
                so_far,
                decoded,
            ) && (load::record_fits(
                before.config,
                base,
                so_far.retained_bytes,
                text::utf8_len(persisted.entries@[taken]@),
            ) ==> load::may_give(decode, persisted.entries@[taken]@, decoded));
        let text = persisted.entries@[taken]@;
        assert(json::bytes_of(persisted.entries@[taken]@) == encode::record_text(records[taken]));
        lemma_next_is_taken(before, file, base, read, so_far, text, decode, decoded);
    }
    assert(listed.subrange(0, listed.len() as int) =~= listed);
    assert(costs.subrange(0, costs.len() as int) =~= costs);
    ordered::lemma_listable::<MetricMetadataKey, RecordView>(before.entries);
}

/// Whether a text is what the record at a place of a table is written as, and this is what decoding
/// it gave, if it was decoded.
spec fn next_given<D: Fn(&str) -> Result<MetricMetadataRecord, String>>(
    config: MetricMetadataStoreConfig,
    base: usize,
    retained: usize,
    entries: EntriesView,
    n: int,
    text: Seq<char>,
    decode: D,
    decoded: Result<RecordView, Seq<char>>,
) -> bool {
    &&& 0 <= n < query::records_of(entries).len()
    &&& json::bytes_of(text) == encode::record_text(query::records_of(entries)[n])
    &&& text::utf8_len(text) <= usize::MAX
    &&& load::record_fits(config, base, retained, text::utf8_len(text)) ==> load::may_give(
        decode,
        text,
        decoded,
    )
}

/// The next record of a store that is loaded may be decoded, and decoding gives it back.
proof fn lemma_next_given_back<D: Fn(&str) -> Result<MetricMetadataRecord, String>>(
    store: StoreView,
    file: StartupFile,
    base: usize,
    retained: usize,
    n: int,
    text: Seq<char>,
    decode: D,
    decoded: Result<RecordView, Seq<char>>,
)
    requires
        accounts(store),
        gives_back(decode),
        startup_suffices(store.config, file, base, store.entries),
        retained <= laws::modeled_table_bytes(store.entries),
        next_given(store.config, base, retained, store.entries, n, text, decode, decoded),
    ensures
        decoded == Ok::<RecordView, Seq<char>>(query::records_of(store.entries)[n]),
{
    let records = query::records_of(store.entries);
    let listed = ordered::listing::<MetricMetadataKey, RecordView>(store.entries);
    lemma_listed_record(store.entries, n);
    assert(record_within(store.config, records[n])) by {
        assert(store.entries.contains_key(listed[n].0));
    }
    lemma_encoded_within(store.config, records[n], text::utf8_len(text) as usize);
    assert(sizes::sat_size(
        load::decode_bytes(
            base,
            laws::modeled_table_bytes(store.entries) as usize,
            encode::record_text(records[n]).len(),
        ) as int,
    ) <= store.config.max_startup_transient_bytes);
    assert(load::record_fits(store.config, base, retained, text::utf8_len(text)));
    let (given, result) = choose|given: &str, result: Result<MetricMetadataRecord, String>|
        given@ == text && #[trigger] call_ensures(decode, (given,), result) && decoded
            == load::decoded_view(result);
    assert(json::bytes_of(given@) == encode::record_text(records[n]));
}

/// Reading the records of a store does not stop before the last of them.
proof fn lemma_next_is_taken<D: Fn(&str) -> Result<MetricMetadataRecord, String>>(
    store: StoreView,
    file: StartupFile,
    base: usize,
    read: Seq<ReadRecord>,
    so_far: LoadProgress,
    text: Seq<char>,
    decode: D,
    decoded: Result<RecordView, Seq<char>>,
)
    requires
        accounts(store),
        gives_back(decode),
        startup_suffices(store.config, file, base, store.entries),
        reads_first(read, store.entries),
        load::load_all(
            store.config,
            file.path@,
            base,
            load::load_start(store.config, file, base),
            read,
        ) == Ok::<LoadProgress, Seq<char>>(so_far),
        next_given(
            store.config,
            base,
            so_far.retained_bytes,
            store.entries,
            read.len() as int,
            text,
            decode,
            decoded,
        ),
    ensures
        load::load_step(
            store.config,
            file.path@,
            base,
            so_far,
            read.len(),
            (ReadRecord { encoded_len: text::utf8_len(text) as usize, decoded }),
        ) is Ok,
{
    let n = read.len() as int;
    let costs = laws::table_costs(
        ordered::listing::<MetricMetadataKey, RecordView>(store.entries),
    );
    assert(so_far.retained_bytes <= laws::modeled_table_bytes(store.entries)) by {
        lemma_load_first(store, file, base, read);
        lemma_prefix_costs(costs, n);
    }
    lemma_next_given_back(store, file, base, so_far.retained_bytes, n, text, decode, decoded);
    let next = ReadRecord { encoded_len: text::utf8_len(text) as usize, decoded };
    let longer = read.push(next);
    assert(longer.drop_last() =~= read);
    assert(longer.last() == next);
    assert(reads_first(longer, store.entries));
    assert(load::load_all(
        store.config,
        file.path@,
        base,
        load::load_start(store.config, file, base),
        longer,
    ) is Ok) by {
        lemma_load_first(store, file, base, longer);
    }
}

/// Whether what was read so far accounts for itself, so many records being read.
spec fn progress_accounts(
    config: MetricMetadataStoreConfig,
    progress: LoadProgress,
    read: nat,
) -> bool {
    &&& ordered::listable::<MetricMetadataKey, RecordView>(progress.entries)
    &&& query::keyed_by_record(progress.entries)
    &&& store::entry_count(progress.entries) == read
    &&& read <= config.max_entries
    &&& progress.retained_bytes == laws::modeled_table_bytes(progress.entries)
    &&& progress.retained_bytes <= config.max_retained_bytes
    &&& records_within(config, progress.entries)
}

#[verifier::spinoff_prover]
#[verifier::rlimit(40)]
proof fn lemma_step_accounts(
    config: MetricMetadataStoreConfig,
    path: Seq<char>,
    base: usize,
    so_far: LoadProgress,
    read: nat,
    entry: ReadRecord,
)
    requires
        config.max_entries < usize::MAX,
        config.max_retained_bytes < usize::MAX,
        progress_accounts(config, so_far, read),
    ensures
        load::load_step(config, path, base, so_far, read, entry) matches Ok(progress)
            ==> progress_accounts(config, progress, read + 1),
{
    if let Ok(progress) = load::load_step(config, path, base, so_far, read, entry) {
        let next = entry.decoded->Ok_0;
        let key = (next.tenant_id, next.metric_family_name);
        laws::lemma_table_bytes_insert(so_far.entries, key, next);
        assert(progress.entries == so_far.entries.insert(key, next));
    }
}

proof fn lemma_progress_accounts(
    config: MetricMetadataStoreConfig,
    path: Seq<char>,
    base: usize,
    start: LoadProgress,
    records: Seq<ReadRecord>,
)
    requires
        config.max_entries < usize::MAX,
        config.max_retained_bytes < usize::MAX,
        progress_accounts(config, start, 0),
    ensures
        load::load_all(config, path, base, start, records) matches Ok(progress)
            ==> progress_accounts(config, progress, records.len()),
    decreases records.len(),
{
    if records.len() > 0 {
        let rest = records.drop_last();
        lemma_progress_accounts(config, path, base, start, rest);
        if let Ok(so_far) = load::load_all(config, path, base, start, rest) {
            lemma_step_accounts(config, path, base, so_far, rest.len(), records.last());
        }
    }
}

/// A store that is opened with what was read from a file accounts for what it holds, where the
/// limits on the entries and on what is retained are below the most that the machine can count.
pub proof fn lemma_loaded_accounts<D: Fn(&str) -> Result<MetricMetadataRecord, String>>(
    config: MetricMetadataStoreConfig,
    durable: bool,
    file: StartupFile,
    parsed: Result<PersistedMetricMetadataStore, String>,
    decode: D,
    loaded: LoadedMetricMetadataStore,
)
    requires
        config.valid(),
        config.max_entries < usize::MAX,
        config.max_retained_bytes < usize::MAX,
        load::may_load(config, file, parsed, decode, load::load_outcome(Ok(loaded))),
        loaded.durable_file_bytes == file.raw_len,
    ensures
        accounts(StoreView::opened(config, durable, loaded)),
{
    let outcome = load::load_outcome(Ok(loaded));
    let (base, start) = load::file_outcome(config, file, parsed)->Ok_0;
    let (read, so_far) = choose|read: Seq<ReadRecord>, so_far: LoadProgress| #[trigger]
        load::reached(config, file, parsed, decode, read, so_far) && load::ends_as(
            config,
            file,
            parsed,
            decode,
            read.len(),
            so_far,
            outcome,
        );
    lemma_fresh_accounts(config);
    assert(progress_accounts(config, start, 0));
    lemma_progress_accounts(config, file.path@, base, start, read);
    lemma_entries_are_keys(loaded.state.entries@);
}

} // verus!
