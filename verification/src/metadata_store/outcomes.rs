//! What a batch of updates, a query and a refusal come to, in terms of what was asked.

use vstd::layout;
use vstd::prelude::*;
use vstd::utf8::encode_utf8;

use crate::metadata_store::accounting::MetadataStoreRejection;
use crate::metadata_store::accounting::MetricMetadataStoreAccounting;
use crate::metadata_store::accounts;
use crate::metadata_store::codes;
use crate::metadata_store::codes::MetadataLimit;
use crate::metadata_store::config;
use crate::metadata_store::config::MetricMetadataStoreConfig;
use crate::metadata_store::encode;
use crate::metadata_store::laws;
use crate::metadata_store::query;
use crate::metadata_store::record;
use crate::metadata_store::record::MetricMetadataEntries;
use crate::metadata_store::record::MetricMetadataKey;
use crate::metadata_store::record::MetricMetadataRecord;
use crate::metadata_store::record::RecordView;
use crate::metadata_store::record::UpdateView;
use crate::metadata_store::store;
use crate::metadata_store::store::ApplyPlan;
use crate::metadata_store::store::EntriesView;
use crate::metadata_store::store::LoadedMetricMetadataStore;
use crate::metadata_store::store::MetadataApplyError;
use crate::metadata_store::store::MetricMetadataStore;
use crate::metadata_store::store::StoreView;
use crate::names;
use crate::ordered;
use crate::remote_read::answers;
use crate::sizes;
use crate::text;

verus! {

/// Whether two updates say the same of a metric family.
pub open spec fn agree(a: UpdateView, b: UpdateView) -> bool {
    a.metric_type == b.metric_type && a.help == b.help && a.unit == b.unit
}

/// Whether an update is the latest before another that is of its metric family.
pub open spec fn precedes(updates: Seq<UpdateView>, j: int, i: int) -> bool {
    &&& 0 <= j < i
    &&& updates[j].metric_family_name == updates[i].metric_family_name
    &&& forall|k: int|
        j < k < i ==> (#[trigger] updates[k]).metric_family_name != updates[i].metric_family_name
}

/// Whether no update before another is of its metric family.
pub open spec fn is_first(updates: Seq<UpdateView>, i: int) -> bool {
    forall|k: int|
        0 <= k < i ==> (#[trigger] updates[k]).metric_family_name != updates[i].metric_family_name
}

/// Whether an update of a batch says something new: other than the latest one of its metric family
/// before it; the first of its family, other than what is held.
#[verifier::opaque]
pub open spec fn changes(
    entries: EntriesView,
    tenant_id: Seq<char>,
    updates: Seq<UpdateView>,
    i: int,
) -> bool {
    let key = (tenant_id, updates[i].metric_family_name);
    &&& forall|j: int| #[trigger] precedes(updates, j, i) ==> !agree(updates[j], updates[i])
    &&& is_first(updates, i) ==> !(entries.contains_key(key) && entries[key].metric_type
        == updates[i].metric_type && entries[key].help == updates[i].help && entries[key].unit
        == updates[i].unit)
}

/// How many of the first updates of a batch say something new.
pub open spec fn changes_before(
    entries: EntriesView,
    tenant_id: Seq<char>,
    updates: Seq<UpdateView>,
    n: int,
) -> nat
    decreases n,
{
    if n <= 0 {
        0
    } else {
        changes_before(entries, tenant_id, updates, n - 1) + if changes(
            entries,
            tenant_id,
            updates,
            n - 1,
        ) {
            1nat
        } else {
            0nat
        }
    }
}

/// Whether an update is the latest of a metric family that says something new.
pub open spec fn last_change(
    entries: EntriesView,
    tenant_id: Seq<char>,
    updates: Seq<UpdateView>,
    family: Seq<char>,
    i: int,
) -> bool {
    &&& 0 <= i < updates.len()
    &&& updates[i].metric_family_name == family
    &&& changes(entries, tenant_id, updates, i)
    &&& forall|k: int|
        i < k < updates.len() && (#[trigger] updates[k]).metric_family_name == family ==> !changes(
            entries,
            tenant_id,
            updates,
            k,
        )
}

/// Whether a record is the one that an update makes: of its tenant and family, with what it says,
/// dated one millisecond later for each change before it, as far as the clock goes.
pub open spec fn made_by(
    made: RecordView,
    entries: EntriesView,
    tenant_id: Seq<char>,
    updates: Seq<UpdateView>,
    now: u64,
    i: int,
) -> bool {
    let time = now + changes_before(entries, tenant_id, updates, i);
    &&& made.tenant_id == tenant_id
    &&& made.metric_family_name == updates[i].metric_family_name
    &&& made.metric_type == updates[i].metric_type
    &&& made.help == updates[i].help
    &&& made.unit == updates[i].unit
    &&& time <= u64::MAX ==> made.updated_unix_ms == time
    &&& time > u64::MAX ==> made.updated_unix_ms == u64::MAX
}

/// Whether records are those that were held with a batch taken in: each family that the batch
/// changes as its latest change makes it, everything else as it was.
pub open spec fn takes_in(
    after: EntriesView,
    entries: EntriesView,
    tenant_id: Seq<char>,
    updates: Seq<UpdateView>,
    now: u64,
) -> bool {
    &&& forall|i: int, family: Seq<char>| #[trigger]
        last_change(entries, tenant_id, updates, family, i) ==> after.contains_key(
            (tenant_id, family),
        ) && made_by(after[(tenant_id, family)], entries, tenant_id, updates, now, i)
    &&& forall|key: (Seq<char>, Seq<char>)|
        #![trigger after.contains_key(key)]
        (key.0 != tenant_id || !exists|i: int| last_change(entries, tenant_id, updates, key.1, i))
            ==> after.contains_key(key) == entries.contains_key(key) && (entries.contains_key(key)
            ==> after[key] == entries[key])
}

proof fn lemma_prefix_changes(
    entries: EntriesView,
    tenant_id: Seq<char>,
    updates: Seq<UpdateView>,
    n: int,
)
    requires
        0 <= n < updates.len(),
    ensures
        forall|i: int|
            0 <= i < updates.len() - 1 ==> #[trigger] changes(
                entries,
                tenant_id,
                updates.drop_last(),
                i,
            ) == changes(entries, tenant_id, updates, i),
        changes_before(entries, tenant_id, updates.drop_last(), n) == changes_before(
            entries,
            tenant_id,
            updates,
            n,
        ),
    decreases n,
{
    let rest = updates.drop_last();
    assert forall|i: int| 0 <= i < updates.len() - 1 implies #[trigger] changes(
        entries,
        tenant_id,
        rest,
        i,
    ) == changes(entries, tenant_id, updates, i) by {
        reveal(changes);
        assert forall|j: int| #[trigger] precedes(rest, j, i) == precedes(updates, j, i) by {
            if precedes(rest, j, i) {
                assert forall|k: int| j < k < i implies (#[trigger] updates[k]).metric_family_name
                    != updates[i].metric_family_name by {
                    assert(rest[k] == updates[k]);
                }
            }
            if precedes(updates, j, i) {
                assert forall|k: int| j < k < i implies (#[trigger] rest[k]).metric_family_name
                    != rest[i].metric_family_name by {
                    assert(rest[k] == updates[k]);
                }
            }
        }
        assert forall|j: int| #[trigger] precedes(updates, j, i) == precedes(rest, j, i) by {}
        if is_first(rest, i) {
            assert forall|k: int| 0 <= k < i implies (#[trigger] updates[k]).metric_family_name
                != updates[i].metric_family_name by {
                assert(rest[k] == updates[k]);
            }
        }
        if is_first(updates, i) {
            assert forall|k: int| 0 <= k < i implies (#[trigger] rest[k]).metric_family_name
                != rest[i].metric_family_name by {
                assert(rest[k] == updates[k]);
            }
        }
    }
    if n > 0 {
        lemma_prefix_changes(entries, tenant_id, updates, n - 1);
        assert(changes(entries, tenant_id, rest, n - 1) == changes(
            entries,
            tenant_id,
            updates,
            n - 1,
        ));
    }
}

/// The latest update of a metric family before a place, if there is one.
proof fn lemma_latest(updates: Seq<UpdateView>, i: int, n: int) -> (j: Option<int>)
    requires
        0 <= n <= i < updates.len(),
    ensures
        match j {
            Some(at) => 0 <= at < n && updates[at].metric_family_name
                == updates[i].metric_family_name && forall|k: int|
                at < k < n ==> (#[trigger] updates[k]).metric_family_name
                    != updates[i].metric_family_name,
            None => forall|k: int|
                0 <= k < n ==> (#[trigger] updates[k]).metric_family_name
                    != updates[i].metric_family_name,
        },
    decreases n,
{
    if n == 0 {
        None
    } else if updates[n - 1].metric_family_name == updates[i].metric_family_name {
        Some(n - 1)
    } else {
        lemma_latest(updates, i, n - 1)
    }
}

/// Whether the last update of a batch says something new is whether it differs from what stands
/// once the others were taken in.
proof fn lemma_last_update_changes(
    entries: EntriesView,
    tenant_id: Seq<char>,
    updates: Seq<UpdateView>,
    now: u64,
)
    requires
        query::keyed_by_record(entries),
        updates.len() > 0,
    ensures
        ({
            let before = store::stage(entries, tenant_id, updates.drop_last(), now);
            let standing = entries.union_prefer_right(before.records);
            let last = updates.last();
            let key = (tenant_id, last.metric_family_name);
            changes(entries, tenant_id, updates, updates.len() - 1) <==> !(standing.contains_key(
                key,
            ) && standing[key].metric_type == last.metric_type && standing[key].help == last.help
                && standing[key].unit == last.unit)
        }),
{
    reveal(changes);
    let rest = updates.drop_last();
    let n = updates.len() - 1;
    let last = updates.last();
    let key = (tenant_id, last.metric_family_name);
    let before = store::stage(entries, tenant_id, rest, now);
    let standing = entries.union_prefer_right(before.records);
    match lemma_latest(updates, n, n) {
        Some(j) => {
            assert(precedes(updates, j, n));
            assert(!is_first(updates, n)) by {
                assert(updates[j].metric_family_name == updates[n].metric_family_name);
            }
            assert forall|k: int| j < k < rest.len() implies (#[trigger] rest[k]).metric_family_name
                != rest[j].metric_family_name by {
                assert(rest[k] == updates[k]);
                assert(rest[j] == updates[j]);
            }
            laws::lemma_last_write_wins(entries, tenant_id, rest, now, j);
            assert(rest[j] == updates[j]);
            assert(laws::says(standing[key], tenant_id, updates[j]));
            assert forall|k: int| #[trigger] precedes(updates, k, n) implies k == j by {
                if k < j {
                    assert(updates[j].metric_family_name != updates[n].metric_family_name);
                } else if j < k {
                    assert(updates[k].metric_family_name != updates[n].metric_family_name);
                }
            }
        },
        None => {
            assert(is_first(updates, n));
            assert forall|j: int| !(#[trigger] precedes(updates, j, n)) by {
                if precedes(updates, j, n) {
                    assert(updates[j].metric_family_name == updates[n].metric_family_name);
                }
            }
            assert forall|k: int| 0 <= k < rest.len() implies (#[trigger] rest[k]).metric_family_name
                != last.metric_family_name by {
                assert(rest[k] == updates[k]);
            }
            lemma_unnamed_not_staged(entries, tenant_id, rest, now, last.metric_family_name);
        },
    }
}

proof fn lemma_unnamed_not_staged(
    entries: EntriesView,
    tenant_id: Seq<char>,
    updates: Seq<UpdateView>,
    now: u64,
    family: Seq<char>,
)
    requires
        forall|k: int|
            0 <= k < updates.len() ==> (#[trigger] updates[k]).metric_family_name != family,
    ensures
        !store::stage(entries, tenant_id, updates, now).records.contains_key((tenant_id, family)),
    decreases updates.len(),
{
    if updates.len() > 0 {
        let rest = updates.drop_last();
        assert forall|k: int| 0 <= k < rest.len() implies (#[trigger] rest[k]).metric_family_name
            != family by {
            assert(rest[k] == updates[k]);
        }
        lemma_unnamed_not_staged(entries, tenant_id, rest, now, family);
        assert(updates.last() == updates[updates.len() - 1]);
    }
}

/// What a batch stages: the latest change of each family, and how many changes there were.
#[verifier::rlimit(40)]
#[verifier::spinoff_prover]
proof fn lemma_staged(
    entries: EntriesView,
    tenant_id: Seq<char>,
    updates: Seq<UpdateView>,
    now: u64,
)
    requires
        query::keyed_by_record(entries),
    ensures
        ({
            let staged = store::stage(entries, tenant_id, updates, now);
            let count = changes_before(entries, tenant_id, updates, updates.len() as int);
            &&& staged.changed == count
            &&& now + count <= u64::MAX ==> staged.clock == now + count
            &&& now + count > u64::MAX ==> staged.clock == u64::MAX
            &&& forall|i: int, family: Seq<char>| #[trigger]
                last_change(entries, tenant_id, updates, family, i) ==> staged.records.contains_key(
                    (tenant_id, family),
                ) && made_by(
                    staged.records[(tenant_id, family)],
                    entries,
                    tenant_id,
                    updates,
                    now,
                    i,
                )
            &&& forall|key: (Seq<char>, Seq<char>)| #[trigger]
                staged.records.contains_key(key) ==> key.0 == tenant_id && exists|i: int|
                    last_change(entries, tenant_id, updates, key.1, i)
        }),
    decreases updates.len(),
{
    if updates.len() > 0 {
        let rest = updates.drop_last();
        let n = updates.len() - 1;
        let last = updates.last();
        let own = (tenant_id, last.metric_family_name);
        let before = store::stage(entries, tenant_id, rest, now);
        let staged = store::stage(entries, tenant_id, updates, now);
        lemma_staged(entries, tenant_id, rest, now);
        lemma_prefix_changes(entries, tenant_id, updates, n);
        lemma_last_update_changes(entries, tenant_id, updates, now);
        let new = changes(entries, tenant_id, updates, n);
        assert(new == (staged.changed == before.changed + 1));
        assert(!new ==> staged == before);
        assert(new ==> staged.records == before.records.insert(
            own,
            store::candidate(tenant_id, last, before.clock),
        ));
        assert forall|i: int, family: Seq<char>| #[trigger]
            last_change(entries, tenant_id, updates, family, i) implies staged.records.contains_key(
            (tenant_id, family),
        ) && made_by(
            staged.records[(tenant_id, family)],
            entries,
            tenant_id,
            updates,
            now,
            i,
        ) by {
            if i == n {
                assert(updates[i] == last);
            } else {
                assert(!new || last.metric_family_name != family) by {
                    assert(updates[n].metric_family_name == last.metric_family_name);
                }
                assert forall|k: int|
                    i < k < rest.len() && (#[trigger] rest[k]).metric_family_name
                        == family implies !changes(entries, tenant_id, rest, k) by {
                    assert(rest[k] == updates[k]);
                }
                assert(changes(entries, tenant_id, rest, i));
                assert(rest[i] == updates[i]);
                assert(last_change(entries, tenant_id, rest, family, i));
                lemma_prefix_changes(entries, tenant_id, updates, i);
            }
        }
        assert forall|key: (Seq<char>, Seq<char>)| #[trigger]
            staged.records.contains_key(key) implies key.0 == tenant_id && exists|i: int|
            last_change(entries, tenant_id, updates, key.1, i) by {
            if new && key == own {
                assert(last_change(entries, tenant_id, updates, key.1, n));
            } else {
                assert(before.records.contains_key(key));
                let i = choose|i: int| last_change(entries, tenant_id, rest, key.1, i);
                assert(rest[i] == updates[i]);
                assert(changes(entries, tenant_id, rest, i) == changes(
                    entries,
                    tenant_id,
                    updates,
                    i,
                ));
                assert forall|k: int|
                    i < k < updates.len() && (#[trigger] updates[k]).metric_family_name
                        == key.1 implies !changes(entries, tenant_id, updates, k) by {
                    if k < n {
                        assert(rest[k] == updates[k]);
                        assert(changes(entries, tenant_id, rest, k) == changes(
                            entries,
                            tenant_id,
                            updates,
                            k,
                        ));
                    } else {
                        assert(updates[n] == last);
                    }
                }
                assert(last_change(entries, tenant_id, updates, key.1, i));
            }
        }
    }
}

/// An applied batch gives the number of its updates that said something new, and the records that
/// are then held are those that were, with the latest change of each family taken in. A batch that
/// fails leaves the records as they were.
pub proof fn lemma_batch_taken_in<P: FnOnce(&Vec<u8>) -> Result<(), String>>(
    before: StoreView,
    after: StoreView,
    tenant_id: Seq<char>,
    updates: Seq<UpdateView>,
    now: u64,
    persist: P,
    applied: Result<usize, MetadataApplyError>,
)
    requires
        query::keyed_by_record(before.entries),
        MetricMetadataStore::applied_as(
            before,
            after,
            tenant_id,
            updates,
            now,
            persist,
            applied,
        ),
    ensures
        applied matches Ok(count) ==> count == changes_before(
            before.entries,
            tenant_id,
            updates,
            updates.len() as int,
        ) && takes_in(after.entries, before.entries, tenant_id, updates, now),
        applied is Err ==> after.entries == before.entries,
        after.config == before.config,
        after.durable == before.durable,
{
    lemma_staged(before.entries, tenant_id, updates, now);
    laws::lemma_unchanged_stages_nothing(before.entries, tenant_id, updates, now);
    let staged = store::stage(before.entries, tenant_id, updates, now);
    let merged = before.entries.union_prefer_right(staged.records);
    if staged.changed == 0 {
        assert(merged =~= before.entries);
    }
    assert(takes_in(merged, before.entries, tenant_id, updates, now)) by {
        assert forall|key: (Seq<char>, Seq<char>)|
            #![trigger merged.contains_key(key)]
            (key.0 != tenant_id || !exists|i: int|
                last_change(
                    before.entries,
                    tenant_id,
                    updates,
                    key.1,
                    i,
                )) implies merged.contains_key(key) == before.entries.contains_key(key) && (
        before.entries.contains_key(key) ==> merged[key] == before.entries[key]) by {
            assert(!staged.records.contains_key(key));
        }
    }
    if updates.len() == 0 {
        assert(staged.changed == 0);
    }
}

/// A batch that changes a durable store is written before it is kept: what was written is the durable
/// form of the records that are then held, in the order of their keys, and its length is the one
/// that is counted. A store that is not durable writes nothing.
pub proof fn lemma_batch_written_before_kept<P: FnOnce(&Vec<u8>) -> Result<(), String>>(
    before: StoreView,
    after: StoreView,
    tenant_id: Seq<char>,
    updates: Seq<UpdateView>,
    now: u64,
    persist: P,
    count: usize,
)
    requires
        MetricMetadataStore::applied_as(
            before,
            after,
            tenant_id,
            updates,
            now,
            persist,
            Ok(count),
        ),
        count > 0,
    ensures
        before.durable ==> exists|kept: Vec<u8>, outcome: Result<(), String>| #[trigger]
            call_ensures(persist, (&kept,), outcome) && outcome is Ok && kept@
                == encode::store_document(query::records_of(after.entries))
                && after.accounting.durable_file_bytes == sizes::sat64(kept@.len() as int),
        !before.durable ==> after.accounting.durable_file_bytes == 0,
        after.accounting.transient_bytes == before.accounting.transient_bytes,
        after.accounting.rejections_total == before.accounting.rejections_total,
{
    let staged = store::stage(before.entries, tenant_id, updates, now);
    let merged = encode::merged_records(before.entries, staged.records);
    assert(after.entries == before.entries.union_prefer_right(staged.records));
    assert(merged =~= query::records_of(after.entries));
    if before.durable {
        let document = encode::store_document(merged);
        let (kept, outcome) = choose|kept: Vec<u8>, outcome: Result<(), String>|
            kept@ == document && #[trigger] call_ensures(persist, (&kept,), outcome)
                && outcome is Ok;
        assert(kept@ == document && call_ensures(persist, (&kept,), outcome) && outcome is Ok);
    }
}

/// The bytes of the texts of an update with those of its tenant.
pub open spec fn input_of(tenant_id: Seq<char>, update: UpdateView) -> nat {
    encode_utf8(tenant_id).len() + encode_utf8(update.metric_family_name).len() + encode_utf8(
        update.help,
    ).len() + encode_utf8(update.unit).len()
}

/// The bytes that a text takes: none where it is empty, else its own and an allowance of 64.
pub open spec fn room_of(value: Seq<char>) -> nat {
    if value.len() == 0 {
        0
    } else {
        encode_utf8(value).len() + 64
    }
}

/// The bytes that an update takes while it is staged: an entry of the table, an allowance of 64 for
/// its place there, its tenant and family in the key and in the record, its help and its unit.
pub open spec fn staged_room_of(tenant_id: Seq<char>, update: UpdateView) -> nat {
    layout::size_of::<(MetricMetadataKey, MetricMetadataRecord)>() + 64 + room_of(tenant_id)
        + room_of(update.metric_family_name) + room_of(tenant_id) + room_of(
        update.metric_family_name,
    ) + room_of(update.help) + room_of(update.unit)
}

/// The sum of the input bytes of the first updates of a batch.
pub open spec fn input_sum(tenant_id: Seq<char>, updates: Seq<UpdateView>, n: int) -> nat
    decreases n,
{
    if n <= 0 {
        0
    } else {
        input_sum(tenant_id, updates, n - 1) + input_of(tenant_id, updates[n - 1])
    }
}

/// The sum of the bytes that the first updates of a batch take while they are staged.
pub open spec fn staged_sum(tenant_id: Seq<char>, updates: Seq<UpdateView>, n: int) -> nat
    decreases n,
{
    if n <= 0 {
        0
    } else {
        staged_sum(tenant_id, updates, n - 1) + staged_room_of(tenant_id, updates[n - 1])
    }
}

/// Whether an update is the first of a batch with more input bytes than a record may have.
pub open spec fn first_too_large(
    config: MetricMetadataStoreConfig,
    tenant_id: Seq<char>,
    updates: Seq<UpdateView>,
    i: int,
) -> bool {
    &&& 0 <= i < updates.len()
    &&& input_of(tenant_id, updates[i]) > config.max_record_bytes
    &&& forall|k: int|
        0 <= k < i ==> input_of(tenant_id, #[trigger] updates[k]) <= config.max_record_bytes
}

/// Whether every update of a batch keeps to the input bytes that a record may have.
pub open spec fn none_too_large(
    config: MetricMetadataStoreConfig,
    tenant_id: Seq<char>,
    updates: Seq<UpdateView>,
) -> bool {
    forall|k: int|
        0 <= k < updates.len() ==> input_of(tenant_id, #[trigger] updates[k])
            <= config.max_record_bytes
}

proof fn lemma_sums_of_prefix(tenant_id: Seq<char>, updates: Seq<UpdateView>, n: int)
    requires
        0 <= n < updates.len(),
    ensures
        input_sum(tenant_id, updates.drop_last(), n) == input_sum(tenant_id, updates, n),
        staged_sum(tenant_id, updates.drop_last(), n) == staged_sum(tenant_id, updates, n),
    decreases n,
{
    if n > 0 {
        lemma_sums_of_prefix(tenant_id, updates, n - 1);
        assert(updates.drop_last()[n - 1] == updates[n - 1]);
    }
}

proof fn lemma_sums_grow(tenant_id: Seq<char>, updates: Seq<UpdateView>, i: int, n: int)
    requires
        0 <= i <= n,
    ensures
        input_sum(tenant_id, updates, i) <= input_sum(tenant_id, updates, n),
        staged_sum(tenant_id, updates, i) <= staged_sum(tenant_id, updates, n),
        i < n ==> input_of(tenant_id, updates[i]) <= input_sum(tenant_id, updates, n),
    decreases n,
{
    if i < n {
        lemma_sums_grow(tenant_id, updates, i, n - 1);
    }
}

proof fn lemma_batch_sums(
    config: MetricMetadataStoreConfig,
    tenant_id: Seq<char>,
    updates: Seq<UpdateView>,
)
    requires
        input_sum(tenant_id, updates, updates.len() as int) <= usize::MAX,
        staged_sum(tenant_id, updates, updates.len() as int) <= usize::MAX,
    ensures
        match store::batch_sizes(config, tenant_id, updates) {
            Ok((batch, staging)) => {
                &&& none_too_large(config, tenant_id, updates)
                &&& batch == input_sum(tenant_id, updates, updates.len() as int)
                &&& staging == staged_sum(tenant_id, updates, updates.len() as int)
            },
            Err(refusal) => exists|i: int| #[trigger]
                first_too_large(config, tenant_id, updates, i) && refusal.rejection
                    == MetadataStoreRejection::Record && refusal.dimension
                    == MetadataLimit::RecordInput && refusal.limit == config.max_record_bytes
                    && refusal.required == input_of(tenant_id, updates[i]),
        },
    decreases updates.len(),
{
    if updates.len() > 0 {
        let n = updates.len() - 1;
        let rest = updates.drop_last();
        lemma_sums_of_prefix(tenant_id, updates, n);
        lemma_sums_grow(tenant_id, updates, n, n + 1);
        lemma_batch_sums(config, tenant_id, rest);
        assert(updates.last() == updates[n]);
        match store::batch_sizes(config, tenant_id, rest) {
            Err(refusal) => {
                let i = choose|i: int| #[trigger]
                    first_too_large(config, tenant_id, rest, i) && refusal.required == input_of(
                        tenant_id,
                        rest[i],
                    );
                assert(rest[i] == updates[i]);
                assert forall|k: int| 0 <= k < i implies input_of(tenant_id, #[trigger] updates[k])
                    <= config.max_record_bytes by {
                    assert(rest[k] == updates[k]);
                }
                assert(first_too_large(config, tenant_id, updates, i));
            },
            Ok(_) => {
                assert forall|k: int| 0 <= k < n implies input_of(tenant_id, #[trigger] updates[k])
                    <= config.max_record_bytes by {
                    assert(rest[k] == updates[k]);
                }
                if input_of(tenant_id, updates[n]) > config.max_record_bytes {
                    assert(first_too_large(config, tenant_id, updates, n));
                }
            },
        }
    }
}

/// A batch is let pass where it has no more updates than it may, each with no more input bytes than
/// a record may have, and together no more than a batch may have; it is then to be staged in the
/// bytes that its updates take. Of what is wrong, the number of updates is refused first, then the
/// first update that is too large, then the sum.
pub proof fn lemma_batch_let_pass(
    config: MetricMetadataStoreConfig,
    tenant_id: Seq<char>,
    updates: Seq<UpdateView>,
)
    requires
        updates.len() <= usize::MAX,
        input_sum(tenant_id, updates, updates.len() as int) <= usize::MAX,
        staged_sum(tenant_id, updates, updates.len() as int) <= usize::MAX,
    ensures
        ({
            let sum = input_sum(tenant_id, updates, updates.len() as int);
            match store::batch_check(config, tenant_id, updates) {
                Ok(staging) => {
                    &&& updates.len() <= config.max_update_batch_entries
                    &&& none_too_large(config, tenant_id, updates)
                    &&& sum <= config.max_update_batch_bytes
                    &&& staging == staged_sum(tenant_id, updates, updates.len() as int)
                },
                Err(refusal) => {
                    if updates.len() > config.max_update_batch_entries {
                        &&& refusal.rejection == MetadataStoreRejection::UpdateBatch
                        &&& refusal.dimension == MetadataLimit::UpdateBatchEntry
                        &&& refusal.limit == config.max_update_batch_entries
                        &&& refusal.required == updates.len()
                    } else if none_too_large(config, tenant_id, updates) {
                        &&& refusal.rejection == MetadataStoreRejection::UpdateBatch
                        &&& refusal.dimension == MetadataLimit::UpdateBatchByte
                        &&& refusal.limit == config.max_update_batch_bytes
                        &&& refusal.required == sum
                        &&& sum > config.max_update_batch_bytes
                    } else {
                        &&& refusal.rejection == MetadataStoreRejection::Record
                        &&& refusal.dimension == MetadataLimit::RecordInput
                        &&& refusal.limit == config.max_record_bytes
                        &&& exists|i: int| #[trigger]
                            first_too_large(config, tenant_id, updates, i) && refusal.required
                                == input_of(tenant_id, updates[i])
                    }
                },
            }
        }),
{
    lemma_batch_sums(config, tenant_id, updates);
    if store::batch_sizes(config, tenant_id, updates) is Err {
        let i = choose|i: int| first_too_large(config, tenant_id, updates, i);
        assert(input_of(tenant_id, updates[i]) > config.max_record_bytes);
    }
}

/// A batch whose texts keep to the limits, that finds working memory, and whose changes leave no
/// more records and no more retained bytes than there may be, is written; one that says nothing new
/// is not written and not refused; any other is refused for the first limit in that order.
pub proof fn lemma_batch_planned(
    store: StoreView,
    tenant_id: Seq<char>,
    updates: Seq<UpdateView>,
    now: u64,
)
    requires
        accounts::accounts(store),
        accounts::sums_in_range(store, tenant_id, updates, now),
        0 < updates.len(),
        updates.len() <= usize::MAX,
        input_sum(tenant_id, updates, updates.len() as int) <= usize::MAX,
        staged_sum(tenant_id, updates, updates.len() as int) <= usize::MAX,
    ensures
        ({
            let config = store.config;
            let plan = store.plan(tenant_id, updates, now);
            let staging = staged_sum(tenant_id, updates, updates.len() as int);
            let count = changes_before(store.entries, tenant_id, updates, updates.len() as int);
            let after = store.entries.union_prefer_right(
                store::stage(store.entries, tenant_id, updates, now).records,
            );
            let kept = laws::modeled_table_bytes(after);
            let let_pass = updates.len() <= config.max_update_batch_entries && none_too_large(
                config,
                tenant_id,
                updates,
            ) && input_sum(tenant_id, updates, updates.len() as int)
                <= config.max_update_batch_bytes && store.accounting.transient_bytes + staging
                <= config.max_write_transient_bytes;
            &&& takes_in(after, store.entries, tenant_id, updates, now)
            &&& plan is Write <==> let_pass && count > 0 && after.dom().len() <= config.max_entries
                && kept <= config.max_retained_bytes
            &&& plan is Unchanged <==> let_pass && count == 0
            &&& plan is Refused <==> !(plan is Write) && !(plan is Unchanged)
            &&& plan matches ApplyPlan::Write { staged, changed, retained, .. } ==> changed == count
                && retained == kept && store.entries.union_prefer_right(staged) == after
            &&& let_pass && count > 0 && after.dom().len() > config.max_entries ==> (plan matches
                ApplyPlan::Refused { message, .. } && message == codes::limit_message(
                MetadataLimit::Entry,
                config.max_entries as nat,
                after.dom().len(),
            ))
            &&& let_pass && count > 0 && after.dom().len() <= config.max_entries && kept
                > config.max_retained_bytes ==> (plan matches ApplyPlan::Refused { message, .. }
                && message == codes::limit_message(
                MetadataLimit::Retained,
                config.max_retained_bytes as nat,
                kept,
            ))
        }),
{
    let staged = store::stage(store.entries, tenant_id, updates, now);
    let listed = ordered::listing::<MetricMetadataKey, RecordView>(staged.records);
    lemma_batch_let_pass(store.config, tenant_id, updates);
    lemma_staged(store.entries, tenant_id, updates, now);
    laws::lemma_batch_stays_listable(store.entries, tenant_id, updates, now);
    accounts::lemma_stage_listable(store.entries, tenant_id, updates, now);
    ordered::lemma_listable::<MetricMetadataKey, RecordView>(staged.records);
    laws::lemma_final_model_exact(store.entries, store.retained_bytes, listed);
    let after = store.entries.union_prefer_right(staged.records);
    accounts::lemma_entries_are_keys(after);
    assert forall|key: (Seq<char>, Seq<char>)|
        #![trigger after.contains_key(key)]
        (key.0 != tenant_id || !exists|i: int|
            last_change(store.entries, tenant_id, updates, key.1, i)) implies after.contains_key(
        key,
    ) == store.entries.contains_key(key) && (store.entries.contains_key(key) ==> after[key]
        == store.entries[key]) by {
        assert(!staged.records.contains_key(key));
    }
}

/// Whether one counter grew by one, unless it stood at its end.
pub open spec fn one_more(before: u64, after: u64) -> bool {
    after == before + 1 || before == u64::MAX && after == u64::MAX
}

/// Whether nothing but the counters of refusals may differ.
pub open spec fn same_gauges(
    before: MetricMetadataStoreAccounting,
    after: MetricMetadataStoreAccounting,
) -> bool {
    &&& after.entries == before.entries
    &&& after.retained_bytes == before.retained_bytes
    &&& after.peak_retained_bytes == before.peak_retained_bytes
    &&& after.durable_file_bytes == before.durable_file_bytes
    &&& after.transient_bytes == before.transient_bytes
    &&& after.peak_transient_bytes == before.peak_transient_bytes
    &&& after.query_result_bytes == before.query_result_bytes
    &&& after.peak_query_result_bytes == before.peak_query_result_bytes
}

/// A refusal is counted once in all and once under its own kind, and under no other kind; nothing
/// else changes.
pub proof fn lemma_refusal_counted_under_its_kind(
    before: MetricMetadataStoreAccounting,
    kind: MetadataStoreRejection,
)
    ensures
        ({
            let after = before.rejected(kind);
            &&& one_more(before.rejections_total, after.rejections_total)
            &&& same_gauges(before, after)
            &&& if kind is Entry {
                one_more(before.entry_rejections_total, after.entry_rejections_total)
            } else {
                after.entry_rejections_total == before.entry_rejections_total
            }
            &&& if kind is Record {
                one_more(before.record_rejections_total, after.record_rejections_total)
            } else {
                after.record_rejections_total == before.record_rejections_total
            }
            &&& if kind is UpdateBatch {
                one_more(before.update_batch_rejections_total, after.update_batch_rejections_total)
            } else {
                after.update_batch_rejections_total == before.update_batch_rejections_total
            }
            &&& if kind is Retained {
                one_more(before.retained_rejections_total, after.retained_rejections_total)
            } else {
                after.retained_rejections_total == before.retained_rejections_total
            }
            &&& if kind is DurableFile {
                one_more(before.durable_file_rejections_total, after.durable_file_rejections_total)
            } else {
                after.durable_file_rejections_total == before.durable_file_rejections_total
            }
            &&& if kind is Transient {
                one_more(before.transient_rejections_total, after.transient_rejections_total)
            } else {
                after.transient_rejections_total == before.transient_rejections_total
            }
            &&& if kind is Query {
                one_more(before.query_rejections_total, after.query_rejections_total)
            } else {
                after.query_rejections_total == before.query_rejections_total
            }
            &&& if kind is Persistence {
                one_more(before.persistence_rejections_total, after.persistence_rejections_total)
            } else {
                after.persistence_rejections_total == before.persistence_rejections_total
            }
        }),
{
}

/// The bytes of a query result that is kept are counted with those of the others that are kept, and
/// in the peak of them, and nowhere else.
pub proof fn lemma_kept_result_counted(before: MetricMetadataStoreAccounting, bytes: u64)
    requires
        before.query_result_bytes + bytes <= u64::MAX,
    ensures
        ({
            let after = before.retaining(bytes);
            let sum = before.query_result_bytes + bytes;
            &&& after.query_result_bytes == sum
            &&& bytes > 0 ==> after.peak_query_result_bytes >= sum
            &&& after.peak_query_result_bytes == before.peak_query_result_bytes
                || after.peak_query_result_bytes == sum
            &&& after.peak_query_result_bytes >= before.peak_query_result_bytes
            &&& after.entries == before.entries
            &&& after.retained_bytes == before.retained_bytes
            &&& after.peak_retained_bytes == before.peak_retained_bytes
            &&& after.durable_file_bytes == before.durable_file_bytes
            &&& after.transient_bytes == before.transient_bytes
            &&& after.peak_transient_bytes == before.peak_transient_bytes
            &&& after.rejections_total == before.rejections_total
        }),
{
}

/// Whether a record is one that a query asks for.
pub open spec fn wanted(held: RecordView, tenant_id: Seq<char>, metric: Option<Seq<char>>) -> bool {
    held.tenant_id == tenant_id && (metric matches Some(name) ==> held.metric_family_name == name)
}

/// Whether records stand in the order of their tenants, and under one tenant in that of their
/// families.
pub open spec fn in_key_order(records: Seq<RecordView>) -> bool {
    forall|i: int, j: int|
        0 <= i < j < records.len() ==> answers::text_ahead(
            (#[trigger] records[i]).tenant_id,
            (#[trigger] records[j]).tenant_id,
        ) || records[i].tenant_id == records[j].tenant_id && answers::text_ahead(
            records[i].metric_family_name,
            records[j].metric_family_name,
        )
}

proof fn lemma_selected_are_first_wanted(
    records: Seq<RecordView>,
    tenant_id: Seq<char>,
    metric: Option<Seq<char>>,
    limit: nat,
)
    ensures
        ({
            let all = records.filter(|held: RecordView| wanted(held, tenant_id, metric));
            query::selected(records, tenant_id, metric, limit) == if limit < all.len() {
                all.take(limit as int)
            } else {
                all
            }
        }),
    decreases records.len(),
{
    let keep = |held: RecordView| wanted(held, tenant_id, metric);
    let all = records.filter(keep);
    if records.len() == 0 {
        reveal(Seq::filter);
        assert(all =~= Seq::empty());
    } else {
        let rest = records.subrange(1, records.len() as int);
        let tail = rest.filter(keep);
        assert(records =~= seq![records[0]] + rest);
        Seq::filter_distributes_over_add(seq![records[0]], rest, keep);
        assert(seq![records[0]].filter(keep) =~= if keep(records[0]) {
            seq![records[0]]
        } else {
            Seq::empty()
        }) by {
            reveal(Seq::filter);
            let one = seq![records[0]];
            assert(one.drop_last() =~= Seq::<RecordView>::empty());
            assert(one.drop_last().filter(keep) =~= Seq::<RecordView>::empty());
            assert(one.last() == records[0]);
        }
        assert(query::asked_for(records[0], tenant_id, metric) == keep(records[0]));
        if limit == 0 {
            assert(all.take(0) =~= Seq::empty());
        } else if keep(records[0]) {
            lemma_selected_are_first_wanted(rest, tenant_id, metric, (limit - 1) as nat);
            assert(all =~= seq![records[0]] + tail);
            if limit < all.len() {
                assert(all.take(limit as int) =~= seq![records[0]] + tail.take(limit - 1));
            }
        } else {
            lemma_selected_are_first_wanted(rest, tenant_id, metric, limit);
            assert(all =~= tail);
        }
    }
}

/// A query is answered with the records of the tenant that are held, those of the metric family
/// alone where it names one, as many as it may have, in the order of their families.
pub proof fn lemma_query_gives_what_is_held(
    entries: EntriesView,
    tenant_id: Seq<char>,
    metric: Option<Seq<char>>,
    limit: nat,
) -> (all: Seq<RecordView>)
    requires
        ordered::listable::<MetricMetadataKey, RecordView>(entries),
        query::keyed_by_record(entries),
    ensures
        in_key_order(all),
        all.no_duplicates(),
        forall|held: RecordView| #[trigger]
            all.contains(held) <==> wanted(held, tenant_id, metric) && entries.contains_key(
                (held.tenant_id, held.metric_family_name),
            ) && entries[(held.tenant_id, held.metric_family_name)] == held,
        query::answer(entries, tenant_id, metric, limit) == if limit < all.len() {
            all.take(limit as int)
        } else {
            all
        },
{
    let listed = ordered::listing::<MetricMetadataKey, RecordView>(entries);
    let records = query::records_of(entries);
    ordered::lemma_listable::<MetricMetadataKey, RecordView>(entries);
    let keep = |held: RecordView| wanted(held, tenant_id, metric);
    let all = records.filter(keep);
    lemma_selected_are_first_wanted(records, tenant_id, metric, limit);
    assert forall|i: int| 0 <= i < listed.len() implies (#[trigger] records[i]) == listed[i].1
        && entries.contains_key(listed[i].0) && entries[listed[i].0] == listed[i].1 && listed[i].0
        == (records[i].tenant_id, records[i].metric_family_name) by {
        ordered::lemma_keyed_map_at::<MetricMetadataKey, RecordView>(listed, i);
    }
    assert(in_key_order(records)) by {
        assert forall|i: int, j: int| 0 <= i < j < records.len() implies answers::text_ahead(
            (#[trigger] records[i]).tenant_id,
            (#[trigger] records[j]).tenant_id,
        ) || records[i].tenant_id == records[j].tenant_id && answers::text_ahead(
            records[i].metric_family_name,
            records[j].metric_family_name,
        ) by {
            answers::lemma_text_order(records[i].tenant_id, records[j].tenant_id);
            answers::lemma_text_order(
                records[i].metric_family_name,
                records[j].metric_family_name,
            );
            assert(<MetricMetadataKey as ordered::OrderedKey>::before(listed[i].0, listed[j].0));
        }
    }
    lemma_filtered_in_key_order(records, keep);
    assert forall|held: RecordView| #[trigger]
        all.contains(held) <==> wanted(held, tenant_id, metric) && entries.contains_key(
            (held.tenant_id, held.metric_family_name),
        ) && entries[(held.tenant_id, held.metric_family_name)] == held by {
        let key = (held.tenant_id, held.metric_family_name);
        if wanted(held, tenant_id, metric) && entries.contains_key(key) && entries[key] == held {
            let at = choose|i: int|
                ordered::key_stands::<MetricMetadataKey, RecordView>(listed, key, i);
            ordered::lemma_keyed_map_at::<MetricMetadataKey, RecordView>(listed, at);
            assert(records[at] == held);
            assert(records.contains(held));
        }
    }
    all
}

proof fn lemma_filtered_in_key_order(records: Seq<RecordView>, keep: spec_fn(RecordView) -> bool)
    requires
        in_key_order(records),
    ensures
        in_key_order(records.filter(keep)),
        records.filter(keep).no_duplicates(),
        forall|held: RecordView| #[trigger]
            records.filter(keep).contains(held) <==> records.contains(held) && keep(held),
    decreases records.len(),
{
    reveal(Seq::filter);
    if records.len() > 0 {
        let rest = records.drop_last();
        let last = records.last();
        let fewer = rest.filter(keep);
        let all = records.filter(keep);
        lemma_filtered_in_key_order(rest, keep);
        assert(records[records.len() - 1] == last);
        assert forall|held: RecordView| records.contains(held) <==> rest.contains(held) || held
            == last by {
            if records.contains(held) {
                let i = choose|i: int| 0 <= i < records.len() && records[i] == held;
                if i < rest.len() {
                    assert(rest[i] == held);
                }
            }
            if rest.contains(held) {
                let i = choose|i: int| 0 <= i < rest.len() && rest[i] == held;
                assert(records[i] == held);
            }
        }
        assert forall|i: int| 0 <= i < fewer.len() implies answers::text_ahead(
            (#[trigger] fewer[i]).tenant_id,
            last.tenant_id,
        ) || fewer[i].tenant_id == last.tenant_id && answers::text_ahead(
            fewer[i].metric_family_name,
            last.metric_family_name,
        ) by {
            assert(fewer.contains(fewer[i]));
            let k = choose|k: int| 0 <= k < rest.len() && rest[k] == fewer[i];
            assert(records[k] == fewer[i]);
        }
        if keep(last) {
            assert(all =~= fewer.push(last));
            answers::lemma_text_order(last.tenant_id, last.tenant_id);
            answers::lemma_text_order(last.metric_family_name, last.metric_family_name);
            names::lemma_text_irreflexive(last.tenant_id);
            names::lemma_text_irreflexive(last.metric_family_name);
            assert(!fewer.contains(last)) by {
                if fewer.contains(last) {
                    let i = choose|i: int| 0 <= i < fewer.len() && fewer[i] == last;
                    assert(answers::text_ahead(fewer[i].tenant_id, last.tenant_id) || fewer[i].tenant_id
                        == last.tenant_id && answers::text_ahead(
                        fewer[i].metric_family_name,
                        last.metric_family_name,
                    ));
                }
            }
            assert(all[fewer.len() as int] == last);
            assert forall|held: RecordView| #[trigger] all.contains(held) <==> fewer.contains(held)
                || held == last by {
                if all.contains(held) {
                    let i = choose|i: int| 0 <= i < all.len() && all[i] == held;
                    if i < fewer.len() {
                        assert(fewer[i] == held);
                    }
                }
                if fewer.contains(held) {
                    let i = choose|i: int| 0 <= i < fewer.len() && fewer[i] == held;
                    assert(all[i] == held);
                }
            }
        }
    }
}

/// The bytes that a record takes in an answer: those of its four texts.
pub open spec fn answer_room_of(held: RecordView) -> nat {
    room_of(held.tenant_id) + room_of(held.metric_family_name) + room_of(held.help) + room_of(
        held.unit,
    )
}

/// The sum of the bytes that the first records take in an answer.
pub open spec fn answer_sum(records: Seq<RecordView>, n: int) -> nat
    decreases n,
{
    if n <= 0 {
        0
    } else {
        answer_sum(records, n - 1) + answer_room_of(records[n - 1])
    }
}

/// The bytes of an answer: the texts of its records and, unless it is empty, a list with a slot for
/// each and an allowance of 64.
pub open spec fn answer_room(records: Seq<RecordView>) -> nat {
    answer_sum(records, records.len() as int) + if records.len() == 0 {
        0
    } else {
        records.len() * layout::size_of::<MetricMetadataRecord>() + 64
    }
}

proof fn lemma_answer_sum(records: Seq<RecordView>, n: int)
    requires
        0 <= n <= records.len(),
    ensures
        sizes::total(query::record_costs(records).subrange(0, n)) == answer_sum(records, n),
    decreases n,
{
    let costs = query::record_costs(records);
    if n > 0 {
        lemma_answer_sum(records, n - 1);
        sizes::lemma_total_step(costs, n - 1);
    } else {
        assert(costs.subrange(0, 0) =~= Seq::empty());
    }
}

/// A query whose result its caller owns is refused where it asks for more records than a query may,
/// or where its answer would take more bytes than one may; else it is answered. Either way the
/// records that are held stay as they are, and only a refusal is counted.
pub proof fn lemma_query_refused_over_its_limits(
    before: StoreView,
    after: StoreView,
    tenant_id: Seq<char>,
    metric: Option<Seq<char>>,
    limit: usize,
    found: Result<Vec<MetricMetadataRecord>, String>,
)
    requires
        MetricMetadataStore::caller_owned_answer(before, after, tenant_id, metric, limit, found),
    ensures
        ({
            let answer = query::answer(before.entries, tenant_id, metric, limit as nat);
            &&& found is Ok <==> limit <= before.config.max_query_records && (answer_room(answer)
                <= before.config.max_query_result_bytes || before.config.max_query_result_bytes
                == usize::MAX)
            &&& found matches Ok(records) ==> query::record_views(records@) == answer && after
                == before
            &&& found is Err ==> one_more(
                before.accounting.query_rejections_total,
                after.accounting.query_rejections_total,
            ) && one_more(before.accounting.rejections_total, after.accounting.rejections_total)
                && same_gauges(before.accounting, after.accounting)
            &&& after.entries == before.entries
            &&& found matches Err(message) ==> (if limit > before.config.max_query_records {
                message@ == "metric_metadata_store_error="@ + "query_records_limit"@
                    + "; metric metadata store "@ + "query record"@ + " limit exceeded: limit "@
                    + text::decimal(before.config.max_query_records as nat) + ", required "@
                    + text::decimal(limit as nat)
            } else {
                answer_room(answer) <= usize::MAX ==> message@ == "metric_metadata_store_error="@
                    + "query_result_bytes_limit"@ + "; metric metadata store "@
                    + "query result byte"@ + " limit exceeded: limit "@ + text::decimal(
                    before.config.max_query_result_bytes as nat,
                ) + ", required "@ + text::decimal(answer_room(answer))
            })
        }),
{
    let answer = query::answer(before.entries, tenant_id, metric, limit as nat);
    let costs = query::record_costs(answer);
    lemma_answer_sum(answer, answer.len() as int);
    assert(costs.subrange(0, answer.len() as int) =~= costs);
    assert(query::result_bytes(answer) == answer_room(answer));
}

/// A message names its limit, the limit's number and what was required, behind the code that
/// stands for the limit.
pub proof fn lemma_message_names_limit(dimension: MetadataLimit, limit: nat, required: nat)
    ensures
        ({
            let (code, named) = match dimension {
                MetadataLimit::Entry => ("entry_limit"@, "entry"@),
                MetadataLimit::StartupEntry => ("entry_limit"@, "startup entry"@),
                MetadataLimit::RecordInput => ("record_input_bytes_limit"@, "record input byte"@),
                MetadataLimit::UpdateBatchEntry => (
                    "update_batch_entries_limit"@,
                    "update batch entry"@,
                ),
                MetadataLimit::UpdateBatchByte => ("update_batch_bytes_limit"@, "update batch byte"@),
                MetadataLimit::Retained => ("retained_bytes_limit"@, "retained byte"@),
                MetadataLimit::DurableFile => ("durable_file_bytes_limit"@, "durable file byte"@),
                MetadataLimit::StartupDurableFile => (
                    "startup_durable_file_bytes_limit"@,
                    "startup durable file byte"@,
                ),
                MetadataLimit::StartupRecordEncoded => (
                    "startup_record_bytes_limit"@,
                    "startup record encoded byte"@,
                ),
                MetadataLimit::StartupRecordInput => (
                    "startup_record_bytes_limit"@,
                    "startup record input byte"@,
                ),
                MetadataLimit::StartupRetained => (
                    "startup_retained_bytes_limit"@,
                    "startup retained byte"@,
                ),
                MetadataLimit::StartupTransient => (
                    "startup_transient_bytes_limit"@,
                    "startup transient byte"@,
                ),
                MetadataLimit::WriteTransient => (
                    "write_transient_bytes_limit"@,
                    "write transient byte"@,
                ),
                MetadataLimit::SnapshotTransient => (
                    "write_transient_bytes_limit"@,
                    "snapshot transient byte"@,
                ),
                MetadataLimit::QueryRecord => ("query_records_limit"@, "query record"@),
                MetadataLimit::QueryResult => ("query_result_bytes_limit"@, "query result byte"@),
            };
            codes::limit_message(dimension, limit, required) == "metric_metadata_store_error="@
                + code + "; metric metadata store "@ + named + " limit exceeded: limit "@
                + text::decimal(limit) + ", required "@ + text::decimal(required)
        }),
{
}

/// The metrics of a store tell its limits, how many records it holds, the bytes they are modeled to
/// retain, and its counters, each under its own name.
pub proof fn lemma_metrics_tell_store(store: StoreView)
    requires
        accounts::accounts(store),
    ensures
        ({
            let shown = MetricMetadataStore::metrics(store);
            &&& shown.limits == store.config
            &&& shown.entries == store.entries.dom().len()
            &&& shown.retained_bytes == laws::modeled_table_bytes(store.entries)
            &&& shown.peak_retained_bytes == store.accounting.peak_retained_bytes
            &&& shown.durable_file_bytes == store.accounting.durable_file_bytes
            &&& shown.transient_bytes == 0
            &&& shown.peak_transient_bytes == store.accounting.peak_transient_bytes
            &&& shown.query_result_bytes == store.accounting.query_result_bytes
            &&& shown.peak_query_result_bytes == store.accounting.peak_query_result_bytes
            &&& shown.rejections_total == store.accounting.rejections_total
            &&& shown.entry_rejections_total == store.accounting.entry_rejections_total
            &&& shown.record_rejections_total == store.accounting.record_rejections_total
            &&& shown.update_batch_rejections_total
                == store.accounting.update_batch_rejections_total
            &&& shown.retained_rejections_total == store.accounting.retained_rejections_total
            &&& shown.durable_file_rejections_total
                == store.accounting.durable_file_rejections_total
            &&& shown.transient_rejections_total == store.accounting.transient_rejections_total
            &&& shown.query_rejections_total == store.accounting.query_rejections_total
            &&& shown.persistence_rejections_total == store.accounting.persistence_rejections_total
        }),
{
}

/// A new store holds no record, is not durable, and has counted nothing; a store that is opened holds
/// what was loaded, and tells the length of its file and what loading it took.
pub proof fn lemma_store_begins(
    config: MetricMetadataStoreConfig,
    durable: bool,
    loaded: LoadedMetricMetadataStore,
)
    requires
        ordered::listable::<MetricMetadataKey, RecordView>(loaded.state.entries@),
    ensures
        ({
            let new = StoreView::fresh(config);
            &&& new.config == config
            &&& !new.durable
            &&& new.entries.dom().is_empty()
            &&& new.accounting.entries == 0
            &&& new.accounting.rejections_total == 0
            &&& new.accounting.transient_bytes == 0
            &&& new.accounting.durable_file_bytes == 0
        }),
        ({
            let opened = StoreView::opened(config, durable, loaded);
            &&& opened.config == config
            &&& opened.durable == durable
            &&& opened.entries == loaded.state.entries@
            &&& opened.retained_bytes == loaded.state.retained_bytes
            &&& opened.accounting.entries == sizes::sat64(loaded.state.entries@.dom().len() as int)
            &&& opened.accounting.retained_bytes == loaded.state.retained_bytes
            &&& opened.accounting.durable_file_bytes == loaded.durable_file_bytes
            &&& opened.accounting.peak_transient_bytes == loaded.startup_peak_bytes
            &&& opened.accounting.rejections_total == 0
            &&& opened.accounting.transient_bytes == 0
        }),
{
    accounts::lemma_entries_are_keys(loaded.state.entries@);
    assert(StoreView::fresh(config).entries.dom() =~= Set::empty());
}

/// Without any setting there are a hundred thousand records of 64 KiB at most, batches of 512 updates
/// and 4 MiB, 64 MiB of records, files of 16 MiB, 96 MiB of working memory at the start and 32 MiB
/// for a write, and answers of ten thousand records and 16 MiB.
pub proof fn lemma_default_limits()
    ensures
        ({
            let config = config::default_config();
            &&& config.max_entries == 100_000
            &&& config.max_record_bytes == 64 * 1024
            &&& config.max_update_batch_entries == 512
            &&& config.max_update_batch_bytes == 4 * 1024 * 1024
            &&& config.max_retained_bytes == 64 * 1024 * 1024
            &&& config.max_durable_file_bytes == 16 * 1024 * 1024
            &&& config.max_startup_transient_bytes == 96 * 1024 * 1024
            &&& config.max_write_transient_bytes == 32 * 1024 * 1024
            &&& config.max_query_records == 10_000
            &&& config.max_query_result_bytes == 16 * 1024 * 1024
        }),
{
}

/// A configuration is taken exactly where no limit is zero, a batch may not have more updates than
/// there may be records, a record may not have more bytes than a batch, and an empty store fits.
pub proof fn lemma_config_taken(config: MetricMetadataStoreConfig)
    ensures
        config.valid() <==> {
            &&& config.max_entries > 0
            &&& config.max_record_bytes > 0
            &&& config.max_update_batch_entries > 0
            &&& config.max_update_batch_bytes > 0
            &&& config.max_retained_bytes > 0
            &&& config.max_durable_file_bytes > 0
            &&& config.max_startup_transient_bytes > 0
            &&& config.max_write_transient_bytes > 0
            &&& config.max_query_records > 0
            &&& config.max_query_result_bytes > 0
            &&& config.max_update_batch_entries <= config.max_entries
            &&& config.max_record_bytes <= config.max_update_batch_bytes
            &&& layout::size_of::<MetricMetadataEntries>() <= config.max_retained_bytes
        },
{
}

} // verus!
