//! What holds of the metadata store across calls.

use vstd::prelude::*;

use crate::metadata_store::accounting::MetadataStoreRejection;
use crate::metadata_store::accounting::MetricMetadataStoreAccounting;
use crate::metadata_store::config;
use crate::metadata_store::config::MetricMetadataStoreConfig;
use crate::metadata_store::load;
use crate::metadata_store::load::LoadProgress;
use crate::metadata_store::load::ReadRecord;
use crate::metadata_store::query;
use crate::metadata_store::record;
use crate::metadata_store::record::MetricMetadataKey;
use crate::metadata_store::record::RecordView;
use crate::metadata_store::record::UpdateView;
use crate::metadata_store::store;
use crate::metadata_store::store::EntriesView;
use crate::ordered;
use crate::sizes;

verus! {

/// Whether a record says what an update says.
pub open spec fn says(record: RecordView, tenant_id: Seq<char>, update: UpdateView) -> bool {
    &&& record.tenant_id == tenant_id
    &&& record.metric_family_name == update.metric_family_name
    &&& record.metric_type == update.metric_type
    &&& record.help == update.help
    &&& record.unit == update.unit
}

/// The last write wins: once a batch is applied, the record of a metric family says what the last
/// update of that family in the batch says.
pub proof fn lemma_last_write_wins(
    entries: EntriesView,
    tenant_id: Seq<char>,
    updates: Seq<UpdateView>,
    now: u64,
    i: int,
)
    requires
        query::keyed_by_record(entries),
        0 <= i < updates.len(),
        forall|j: int|
            i < j < updates.len() ==> (#[trigger] updates[j]).metric_family_name
                != updates[i].metric_family_name,
    ensures
        ({
            let after = entries.union_prefer_right(
                store::stage(entries, tenant_id, updates, now).records,
            );
            let key = (tenant_id, updates[i].metric_family_name);
            after.contains_key(key) && says(after[key], tenant_id, updates[i])
        }),
    decreases updates.len(),
{
    let rest = updates.drop_last();
    let before = store::stage(entries, tenant_id, rest, now);
    let last = updates.last();
    lemma_stage_scope(entries, tenant_id, rest, now);
    if i < updates.len() - 1 {
        assert forall|j: int| i < j < rest.len() implies (#[trigger] rest[j]).metric_family_name
            != rest[i].metric_family_name by {
            assert(rest[j] == updates[j]);
        }
        assert(updates[updates.len() - 1].metric_family_name != updates[i].metric_family_name);
        lemma_last_write_wins(entries, tenant_id, rest, now, i);
    } else {
        let key = (tenant_id, last.metric_family_name);
        if before.records.contains_key(key) {
            assert(before.records[key].tenant_id == tenant_id);
        } else if entries.contains_key(key) {
            assert(key == (entries[key].tenant_id, entries[key].metric_family_name));
        }
    }
}

/// A batch changes records of its own tenant only, each under its own tenant and metric family.
pub proof fn lemma_stage_scope(
    entries: EntriesView,
    tenant_id: Seq<char>,
    updates: Seq<UpdateView>,
    now: u64,
)
    ensures
        forall|key: (Seq<char>, Seq<char>)| #[trigger]
            store::stage(entries, tenant_id, updates, now).records.contains_key(key) ==> key.0
                == tenant_id && key == (
                store::stage(entries, tenant_id, updates, now).records[key].tenant_id,
                store::stage(entries, tenant_id, updates, now).records[key].metric_family_name,
            ),
    decreases updates.len(),
{
    if updates.len() > 0 {
        lemma_stage_scope(entries, tenant_id, updates.drop_last(), now);
        let before = store::stage(entries, tenant_id, updates.drop_last(), now);
        let after = store::stage(entries, tenant_id, updates, now);
        let added = (tenant_id, updates.last().metric_family_name);
        assert forall|key: (Seq<char>, Seq<char>)| #[trigger]
            after.records.contains_key(key) implies key.0 == tenant_id && key == (
            after.records[key].tenant_id,
            after.records[key].metric_family_name,
        ) by {
            if after.records != before.records && key == added {
                assert(after.records[key] == store::candidate(
                    tenant_id,
                    updates.last(),
                    before.clock,
                ));
            } else {
                assert(before.records.contains_key(key));
            }
        }
    }
}

/// The records of other tenants are what they were.
pub proof fn lemma_other_tenants_unchanged(
    entries: EntriesView,
    tenant_id: Seq<char>,
    updates: Seq<UpdateView>,
    now: u64,
    other: (Seq<char>, Seq<char>),
)
    requires
        other.0 != tenant_id,
    ensures
        ({
            let after = entries.union_prefer_right(
                store::stage(entries, tenant_id, updates, now).records,
            );
            after.contains_key(other) == entries.contains_key(other) && (entries.contains_key(other)
                ==> after[other] == entries[other])
        }),
{
    lemma_stage_scope(entries, tenant_id, updates, now);
}

/// Each record stands under its own tenant and metric family, and applying a batch keeps it so.
pub proof fn lemma_keys_kept(
    entries: EntriesView,
    tenant_id: Seq<char>,
    updates: Seq<UpdateView>,
    now: u64,
)
    requires
        query::keyed_by_record(entries),
    ensures
        query::keyed_by_record(
            entries.union_prefer_right(store::stage(entries, tenant_id, updates, now).records),
        ),
{
    lemma_stage_scope(entries, tenant_id, updates, now);
}

/// A batch in which no update changes anything stages nothing.
pub proof fn lemma_unchanged_stages_nothing(
    entries: EntriesView,
    tenant_id: Seq<char>,
    updates: Seq<UpdateView>,
    now: u64,
)
    ensures
        store::stage(entries, tenant_id, updates, now).changed == 0 ==> store::stage(
            entries,
            tenant_id,
            updates,
            now,
        ).records == Map::<(Seq<char>, Seq<char>), RecordView>::empty(),
        store::stage(entries, tenant_id, updates, now).changed <= updates.len(),
    decreases updates.len(),
{
    if updates.len() > 0 {
        lemma_unchanged_stages_nothing(entries, tenant_id, updates.drop_last(), now);
    }
}

/// Whether what is known already says what an update says.
pub open spec fn known(entries: EntriesView, tenant_id: Seq<char>, update: UpdateView) -> bool {
    let key = (tenant_id, update.metric_family_name);
    entries.contains_key(key) && record::same_metadata(
        entries[key],
        store::candidate(tenant_id, update, 0),
    )
}

/// A batch that says only what is known changes nothing.
pub proof fn lemma_known_batch_changes_nothing(
    entries: EntriesView,
    tenant_id: Seq<char>,
    updates: Seq<UpdateView>,
    now: u64,
)
    requires
        forall|i: int| 0 <= i < updates.len() ==> known(entries, tenant_id, #[trigger] updates[i]),
    ensures
        store::stage(entries, tenant_id, updates, now).changed == 0,
    decreases updates.len(),
{
    if updates.len() > 0 {
        let rest = updates.drop_last();
        assert forall|i: int| 0 <= i < rest.len() implies known(
            entries,
            tenant_id,
            #[trigger] rest[i],
        ) by {
            assert(rest[i] == updates[i]);
        }
        lemma_known_batch_changes_nothing(entries, tenant_id, rest, now);
        lemma_unchanged_stages_nothing(entries, tenant_id, rest, now);
        assert(known(entries, tenant_id, updates[updates.len() - 1]));
    }
}

/// Applying a batch a second time changes nothing, where the batch names each metric family once.
pub proof fn lemma_applying_again_changes_nothing(
    entries: EntriesView,
    tenant_id: Seq<char>,
    updates: Seq<UpdateView>,
    now: u64,
    later: u64,
)
    requires
        query::keyed_by_record(entries),
        forall|i: int, j: int|
            0 <= i < j < updates.len() ==> (#[trigger] updates[i]).metric_family_name != (
            #[trigger] updates[j]).metric_family_name,
    ensures
        store::stage(
            entries.union_prefer_right(store::stage(entries, tenant_id, updates, now).records),
            tenant_id,
            updates,
            later,
        ).changed == 0,
{
    let after = entries.union_prefer_right(store::stage(entries, tenant_id, updates, now).records);
    assert forall|i: int| 0 <= i < updates.len() implies known(
        after,
        tenant_id,
        #[trigger] updates[i],
    ) by {
        lemma_last_write_wins(entries, tenant_id, updates, now, i);
    }
    lemma_known_batch_changes_nothing(after, tenant_id, updates, later);
}

/// The costs of the records of a table.
pub open spec fn table_costs(listed: Seq<((Seq<char>, Seq<char>), RecordView)>) -> Seq<nat> {
    Seq::new(listed.len(), |i: int| record::retained_entry_bytes(listed[i].1))
}

/// The bytes that a table is modeled to retain.
pub open spec fn modeled_table_bytes(entries: EntriesView) -> nat {
    config::empty_store_bytes() + sizes::total(
        table_costs(ordered::listing::<MetricMetadataKey, RecordView>(entries)),
    )
}

/// One more record, or another in its place, changes the modeled bytes by its cost and the number
/// of records by whether it is new.
pub proof fn lemma_table_bytes_insert(
    entries: EntriesView,
    key: (Seq<char>, Seq<char>),
    next: RecordView,
)
    requires
        ordered::listable::<MetricMetadataKey, RecordView>(entries),
    ensures
        ordered::listable::<MetricMetadataKey, RecordView>(entries.insert(key, next)),
        modeled_table_bytes(entries.insert(key, next)) + if entries.contains_key(key) {
            record::retained_entry_bytes(entries[key])
        } else {
            0
        } == modeled_table_bytes(entries) + record::retained_entry_bytes(next),
        store::entry_count(entries.insert(key, next)) == store::entry_count(entries)
            + if entries.contains_key(key) {
            0nat
        } else {
            1nat
        },
        entries.contains_key(key) ==> modeled_table_bytes(entries) >= record::retained_entry_bytes(
            entries[key],
        ),
{
    ordered::lemma_listing_insert::<MetricMetadataKey, RecordView>(entries, key, next);
    let before = ordered::listing::<MetricMetadataKey, RecordView>(entries);
    let after = ordered::listing::<MetricMetadataKey, RecordView>(entries.insert(key, next));
    let place = ordered::place_in::<MetricMetadataKey, RecordView>(before, key);
    let cost = record::retained_entry_bytes(next);
    if entries.contains_key(key) {
        assert(table_costs(after) =~= table_costs(before).update(place, cost));
        sizes::lemma_total_update(table_costs(before), place, cost);
        sizes::lemma_total_update(table_costs(before), place, 0);
    } else {
        assert(table_costs(after) =~= table_costs(before).insert(place, cost));
        sizes::lemma_total_insert(table_costs(before), place, cost);
    }
}

/// The number of entries and the retained bytes that a batch is checked by are those of the table
/// that the batch makes, where no sum on the way leaves the machine's range.
#[verifier::rlimit(60)]
#[verifier::spinoff_prover]
pub proof fn lemma_final_model_exact(
    entries: EntriesView,
    retained: usize,
    staged: Seq<((Seq<char>, Seq<char>), RecordView)>,
)
    requires
        ordered::listable::<MetricMetadataKey, RecordView>(entries),
        ordered::sorted_keys::<MetricMetadataKey, RecordView>(staged),
        retained == modeled_table_bytes(entries),
        store::entry_count(entries) + staged.len() <= usize::MAX,
        retained + sizes::total(table_costs(staged)) <= usize::MAX,
    ensures
        ({
            let after = entries.union_prefer_right(
                ordered::keyed_map::<MetricMetadataKey, RecordView>(staged),
            );
            let model = store::final_model(
                entries,
                store::entry_count(entries) as usize,
                retained,
                staged,
            );
            &&& ordered::listable::<MetricMetadataKey, RecordView>(after)
            &&& model.0 == store::entry_count(after)
            &&& model.1 == modeled_table_bytes(after)
            &&& model.1 <= retained + sizes::total(table_costs(staged))
            &&& model.0 <= store::entry_count(entries) + staged.len()
        }),
    decreases staged.len(),
{
    if staged.len() == 0 {
        assert(ordered::keyed_map::<MetricMetadataKey, RecordView>(staged) =~= Map::<
            (Seq<char>, Seq<char>),
            RecordView,
        >::empty());
        assert(entries.union_prefer_right(
            ordered::keyed_map::<MetricMetadataKey, RecordView>(staged),
        ) =~= entries);
    } else {
        let n = staged.len() - 1;
        let rest = staged.drop_last();
        let (key, next) = staged.last();
        assert(table_costs(staged).drop_last() =~= table_costs(rest));
        lemma_final_model_exact(entries, retained, rest);
        assert(rest =~= staged.subrange(0, n));
        assert(staged =~= staged.subrange(0, n + 1));
        store::lemma_keyed_prefix(staged, n, entries);
        let before = entries.union_prefer_right(
            ordered::keyed_map::<MetricMetadataKey, RecordView>(rest),
        );
        assert(!ordered::holds_key::<MetricMetadataKey, RecordView>(rest, key)) by {
            if ordered::holds_key::<MetricMetadataKey, RecordView>(rest, key) {
                let p = choose|p: int|
                    ordered::key_stands::<MetricMetadataKey, RecordView>(rest, key, p);
                ordered::lemma_key_stands_once::<MetricMetadataKey, RecordView>(staged, p, n);
            }
        }
        assert(before.contains_key(key) == entries.contains_key(key));
        if entries.contains_key(key) {
            assert(before[key] == entries[key]);
        }
        lemma_table_bytes_insert(before, key, next);
        let after = entries.union_prefer_right(
            ordered::keyed_map::<MetricMetadataKey, RecordView>(staged),
        );
        assert(after == before.insert(key, next));
        let count = store::entry_count(entries) as usize;
        let (c, r) = store::final_model(entries, count, retained, rest);
        let cost = record::retained_entry_bytes(next);
        assert(sizes::total(table_costs(staged)) == sizes::total(table_costs(rest)) + cost);
        assert(r + cost <= usize::MAX);
        if entries.contains_key(key) {
            let freed = record::retained_entry_bytes(entries[key]);
            assert(r >= freed);
            assert(store::final_model(entries, count, retained, staged) == (
                c,
                (r - freed + cost) as usize,
            ));
        } else {
            assert(store::final_model(entries, count, retained, staged) == (
                (c + 1) as usize,
                (r + cost) as usize,
            ));
        }
    }
}

/// Counting a refusal raises the total and one of the counters beside it, and changes neither what
/// the store holds nor its working memory.
pub proof fn lemma_refusal_counts(
    accounting: MetricMetadataStoreAccounting,
    rejection: MetadataStoreRejection,
)
    ensures
        accounting.rejections_total < u64::MAX ==> accounting.rejected(rejection).rejections_total
            == accounting.rejections_total + 1,
        accounting.rejected(rejection).entries == accounting.entries,
        accounting.rejected(rejection).retained_bytes == accounting.retained_bytes,
        accounting.rejected(rejection).transient_bytes == accounting.transient_bytes,
        accounting.rejected(rejection).query_result_bytes == accounting.query_result_bytes,
        accounting.rejected(rejection).durable_file_bytes == accounting.durable_file_bytes,
{
}

/// A peak is at least what it stands for, and publishing a state or taking working memory never
/// lowers one.
pub proof fn lemma_peaks_never_fall(
    accounting: MetricMetadataStoreAccounting,
    entries: nat,
    retained_bytes: nat,
    transient_bytes: u64,
)
    ensures
        accounting.published(entries, retained_bytes).peak_retained_bytes
            >= accounting.peak_retained_bytes,
        accounting.published(entries, retained_bytes).peak_retained_bytes >= accounting.published(
            entries,
            retained_bytes,
        ).retained_bytes,
        accounting.working(transient_bytes).peak_transient_bytes >= accounting.peak_transient_bytes,
        accounting.working(transient_bytes).peak_transient_bytes >= transient_bytes,
{
}

/// A query that names a metric family gives the record of that family, if there is one, and nothing
/// else.
pub proof fn lemma_query_finds_record(
    entries: EntriesView,
    tenant_id: Seq<char>,
    metric: Seq<char>,
    limit: nat,
)
    requires
        ordered::listable::<MetricMetadataKey, RecordView>(entries),
        query::keyed_by_record(entries),
        limit >= 1,
    ensures
        query::answer(entries, tenant_id, Some(metric), limit) == if entries.contains_key(
            (tenant_id, metric),
        ) {
            seq![entries[(tenant_id, metric)]]
        } else {
            Seq::empty()
        },
{
    let listed = ordered::listing::<MetricMetadataKey, RecordView>(entries);
    let records = query::records_of(entries);
    ordered::lemma_listable::<MetricMetadataKey, RecordView>(entries);
    assert forall|i: int| 0 <= i < listed.len() implies #[trigger] query::asked_for(
        records[i],
        tenant_id,
        Some(metric),
    ) == (listed[i].0 == (tenant_id, metric)) by {
        ordered::lemma_keyed_map_at::<MetricMetadataKey, RecordView>(listed, i);
        assert(entries.contains_key(listed[i].0));
        let key = listed[i].0;
        assert(key == (entries[key].tenant_id, entries[key].metric_family_name));
        assert(records[i] == entries[key]);
    }
    if entries.contains_key((tenant_id, metric)) {
        let at = choose|i: int|
            ordered::key_stands::<MetricMetadataKey, RecordView>(listed, (tenant_id, metric), i);
        assert(ordered::holds_key::<MetricMetadataKey, RecordView>(listed, (tenant_id, metric)));
        ordered::lemma_keyed_map_at::<MetricMetadataKey, RecordView>(listed, at);
        assert(query::asked_for(records[at], tenant_id, Some(metric)));
        assert forall|i: int| 0 <= i < records.len() && i != at implies !(
        #[trigger] query::asked_for(records[i], tenant_id, Some(metric))) by {
            if listed[i].0 == (tenant_id, metric) {
                ordered::lemma_key_stands_once::<MetricMetadataKey, RecordView>(listed, i, at);
            }
        }
        lemma_selects_one(records, tenant_id, Some(metric), limit, at);
    } else {
        assert forall|i: int| 0 <= i < records.len() implies !(#[trigger] query::asked_for(
            records[i],
            tenant_id,
            Some(metric),
        )) by {
            ordered::lemma_keyed_map_at::<MetricMetadataKey, RecordView>(listed, i);
        }
        lemma_selects_none(records, tenant_id, Some(metric), limit);
    }
}

proof fn lemma_selects_none(
    records: Seq<RecordView>,
    tenant_id: Seq<char>,
    metric: Option<Seq<char>>,
    limit: nat,
)
    requires
        forall|i: int|
            0 <= i < records.len() ==> !(#[trigger] query::asked_for(
                records[i],
                tenant_id,
                metric,
            )),
    ensures
        query::selected(records, tenant_id, metric, limit) == Seq::<RecordView>::empty(),
    decreases records.len(),
{
    if records.len() > 0 && limit > 0 {
        let rest = records.subrange(1, records.len() as int);
        assert(!query::asked_for(records[0], tenant_id, metric));
        assert forall|i: int| 0 <= i < rest.len() implies !(#[trigger] query::asked_for(
            rest[i],
            tenant_id,
            metric,
        )) by {
            assert(rest[i] == records[i + 1]);
            assert(!query::asked_for(records[i + 1], tenant_id, metric));
        }
        lemma_selects_none(rest, tenant_id, metric, limit);
    }
}

proof fn lemma_selects_one(
    records: Seq<RecordView>,
    tenant_id: Seq<char>,
    metric: Option<Seq<char>>,
    limit: nat,
    at: int,
)
    requires
        limit >= 1,
        0 <= at < records.len(),
        query::asked_for(records[at], tenant_id, metric),
        forall|i: int|
            0 <= i < records.len() && i != at ==> !(#[trigger] query::asked_for(
                records[i],
                tenant_id,
                metric,
            )),
    ensures
        query::selected(records, tenant_id, metric, limit) == seq![records[at]],
    decreases records.len(),
{
    let rest = records.subrange(1, records.len() as int);
    assert forall|i: int| 0 <= i < rest.len() && i != at - 1 implies !(#[trigger] query::asked_for(
        rest[i],
        tenant_id,
        metric,
    )) by {
        assert(rest[i] == records[i + 1]);
        assert(!query::asked_for(records[i + 1], tenant_id, metric));
    }
    if at == 0 {
        lemma_selects_none(rest, tenant_id, metric, (limit - 1) as nat);
        assert(seq![records[0]] + Seq::<RecordView>::empty() =~= seq![records[0]]);
    } else {
        assert(!query::asked_for(records[0], tenant_id, metric));
        assert(rest[at - 1] == records[at]);
        lemma_selects_one(rest, tenant_id, metric, limit, at - 1);
    }
}

/// A table to which a batch was applied can be listed in order, as the table could before.
pub proof fn lemma_batch_stays_listable(
    entries: EntriesView,
    tenant_id: Seq<char>,
    updates: Seq<UpdateView>,
    now: u64,
)
    requires
        ordered::listable::<MetricMetadataKey, RecordView>(entries),
    ensures
        ordered::listable::<MetricMetadataKey, RecordView>(
            entries.union_prefer_right(store::stage(entries, tenant_id, updates, now).records),
        ),
    decreases updates.len(),
{
    if updates.len() == 0 {
        assert(entries.union_prefer_right(Map::empty()) =~= entries);
    } else {
        let rest = updates.drop_last();
        lemma_batch_stays_listable(entries, tenant_id, rest, now);
        let before = store::stage(entries, tenant_id, rest, now);
        let after = store::stage(entries, tenant_id, updates, now);
        if after.records != before.records {
            let key = (tenant_id, updates.last().metric_family_name);
            let next = store::candidate(tenant_id, updates.last(), before.clock);
            let table = entries.union_prefer_right(before.records);
            assert(entries.union_prefer_right(after.records) =~= table.insert(key, next));
            ordered::lemma_listing_insert::<MetricMetadataKey, RecordView>(table, key, next);
        }
    }
}

/// What is written is read back: once a batch is applied, a query for a metric family of the batch
/// gives the one record that says what the last update of that family says.
pub proof fn lemma_query_reads_last_write(
    entries: EntriesView,
    tenant_id: Seq<char>,
    updates: Seq<UpdateView>,
    now: u64,
    i: int,
    limit: nat,
)
    requires
        ordered::listable::<MetricMetadataKey, RecordView>(entries),
        query::keyed_by_record(entries),
        0 <= i < updates.len(),
        forall|j: int|
            i < j < updates.len() ==> (#[trigger] updates[j]).metric_family_name
                != updates[i].metric_family_name,
        limit >= 1,
    ensures
        ({
            let after = entries.union_prefer_right(
                store::stage(entries, tenant_id, updates, now).records,
            );
            let found = query::answer(
                after,
                tenant_id,
                Some(updates[i].metric_family_name),
                limit,
            );
            found.len() == 1 && says(found[0], tenant_id, updates[i])
        }),
{
    let after = entries.union_prefer_right(store::stage(entries, tenant_id, updates, now).records);
    lemma_last_write_wins(entries, tenant_id, updates, now, i);
    lemma_keys_kept(entries, tenant_id, updates, now);
    lemma_batch_stays_listable(entries, tenant_id, updates, now);
    lemma_query_finds_record(after, tenant_id, updates[i].metric_family_name, limit);
}

/// Each record that is loaded stands under its own tenant and metric family, and all of them
/// together stay within the limit on what is retained.
pub proof fn lemma_loaded_records_keyed(
    config: MetricMetadataStoreConfig,
    path: Seq<char>,
    base: usize,
    start: LoadProgress,
    records: Seq<ReadRecord>,
)
    requires
        query::keyed_by_record(start.entries),
        start.retained_bytes <= config.max_retained_bytes,
    ensures
        load::load_all(config, path, base, start, records) matches Ok(progress)
            ==> query::keyed_by_record(progress.entries) && progress.retained_bytes
            <= config.max_retained_bytes,
    decreases records.len(),
{
    if records.len() > 0 {
        lemma_loaded_records_keyed(config, path, base, start, records.drop_last());
    }
}

} // verus!
